//! Laws of the store, stated over the models that the operations' contracts
//! use, and proved.
use vstd::prelude::*;
use crate::record::{PromptInput, PromptPatch, PromptImport, PromptView, from_input, patched, toggled, copy_of, resolved, backfilled};
use crate::store::{lookup, imported, is_export_filter};
use crate::listing::{listed, matches_filter, text_matches, sort_mode_of, before, SortMode};
use crate::text::{text_lt, trim};
use crate::schema::{has_retired, is_retired, migrated, plan_of, current_columns};

verus! {

/// Reading back a created record gives the caller's fields unchanged; only
/// the id and the two timestamps come from the store.
pub proof fn law_get_after_create(
    m: Map<Seq<char>, PromptView>,
    input: PromptInput,
    id: Seq<char>,
    now: Seq<char>,
)
    ensures
        ({
            let got = lookup(m.insert(id, from_input(input, id, now)), id);
            &&& got is Some
            &&& got->0.title == input.title@
            &&& got->0.prompt_text == input.prompt_text@
            &&& got->0.notes == crate::record::opt_view(input.notes)
            &&& got->0.author == crate::record::opt_view(input.author)
            &&& got->0.language == crate::record::opt_view(input.language)
            &&& got->0.category == crate::record::opt_view(input.category)
            &&& got->0.last_used_at == crate::record::opt_view(input.last_used_at)
            &&& got->0.favorite == input.favorite
            &&& got->0.status == input.status@
        }),
{
}

/// A patch with no field present changes nothing but `updated_at`.
pub proof fn law_empty_patch(cur: PromptView, patch: PromptPatch, now: Seq<char>)
    requires
        patch.title is None,
        patch.prompt_text is None,
        patch.notes is None,
        patch.author is None,
        patch.language is None,
        patch.category is None,
        patch.favorite is None,
        patch.status is None,
        patch.last_used_at is None,
    ensures
        patched(cur, patch, now) == (PromptView { updated_at: now, ..cur }),
{
}

/// A patch of the favorite flag alone, read back, shows the flag set and
/// every other field but `updated_at` as it was.
pub proof fn law_favorite_patch(
    m: Map<Seq<char>, PromptView>,
    id: Seq<char>,
    patch: PromptPatch,
    now: Seq<char>,
)
    requires
        m.contains_key(id),
        patch.favorite == Some(true),
        patch.title is None,
        patch.prompt_text is None,
        patch.notes is None,
        patch.author is None,
        patch.language is None,
        patch.category is None,
        patch.status is None,
        patch.last_used_at is None,
    ensures
        lookup(m.insert(id, patched(m[id], patch, now)), id) == Some(
            PromptView { favorite: true, updated_at: now, ..m[id] },
        ),
{
}

/// Flipping the favorite flag twice restores it; only `updated_at` moves.
pub proof fn law_toggle_twice(p: PromptView, t1: Seq<char>, t2: Seq<char>)
    ensures
        toggled(toggled(p, t1), t2).favorite == p.favorite,
        toggled(toggled(p, t1), t2) == (PromptView { updated_at: t2, ..p }),
{
}

/// Deleting twice is the same as deleting once, and the record is gone.
pub proof fn law_delete_twice(m: Map<Seq<char>, PromptView>, id: Seq<char>)
    ensures
        m.remove(id).remove(id) == m.remove(id),
        lookup(m.remove(id).remove(id), id) is None,
{
    assert(m.remove(id).remove(id) =~= m.remove(id));
}

/// A duplicate has another id, the title marked as a copy, and the same
/// text, notes, author, favorite flag and status.
pub proof fn law_duplicate(m: Map<Seq<char>, PromptView>, id: Seq<char>, new_id: Seq<char>, now: Seq<char>)
    requires
        m.contains_key(id),
        m[id].id == id,
        !m.contains_key(new_id),
    ensures
        ({
            let c = copy_of(m[id], new_id, now);
            &&& c.id != id
            &&& c.title == m[id].title + " (copy)"@
            &&& c.prompt_text == m[id].prompt_text
            &&& c.notes == m[id].notes
            &&& c.author == m[id].author
            &&& c.favorite == m[id].favorite
            &&& c.status == m[id].status
        }),
{
}

/// With only a text query set (status `all`, no category, not favorites
/// only), a listing holds exactly the records whose title, text or notes
/// contain the trimmed query, ignoring ASCII case.
pub proof fn law_text_query(m: Map<Seq<char>, PromptView>, f: crate::record::FilterState, r: Seq<PromptView>)
    requires
        listed(m, f, r),
        f.status@ == "all"@,
        f.category is None,
        !f.favorite_only,
    ensures
        forall|id: Seq<char>|
            m.contains_key(id) ==> ((exists|k: int| 0 <= k < r.len() && (#[trigger] r[k]).id == id)
                <==> text_matches(#[trigger] m[id], trim(f.query@))),
{
    assert forall|id: Seq<char>| m.contains_key(id) implies ((exists|k: int|
        0 <= k < r.len() && (#[trigger] r[k]).id == id) <==> text_matches(
        #[trigger] m[id],
        trim(f.query@),
    )) by {
        if exists|k: int| 0 <= k < r.len() && (#[trigger] r[k]).id == id {
            let k = choose|k: int| 0 <= k < r.len() && (#[trigger] r[k]).id == id;
            assert(matches_filter(r[k], f));
        }
        if text_matches(m[id], trim(f.query@)) {
            assert(matches_filter(m[id], f));
        }
    }
}

proof fn lemma_trim_blank(q: Seq<char>)
    requires
        forall|i: int| 0 <= i < q.len() ==> crate::text::is_blank(#[trigger] q[i]),
    ensures
        trim(q).len() == 0,
    decreases q.len(),
{
    if q.len() > 0 {
        let d = q.drop_first();
        assert forall|i: int| 0 <= i < d.len() implies crate::text::is_blank(#[trigger] d[i]) by {
            assert(d[i] == q[i + 1]);
        }
        lemma_trim_blank(d);
    }
}

/// An empty or whitespace-only query imposes no text criterion: every
/// record passes it.
pub proof fn law_blank_query(p: PromptView, f: crate::record::FilterState)
    requires
        forall|i: int| 0 <= i < f.query@.len() ==> crate::text::is_blank(#[trigger] f.query@[i]),
    ensures
        text_matches(p, trim(f.query@)),
        matches_filter(p, f) == ({
            &&& match f.category {
                Some(c) => p.category == Some(c@),
                None => true,
            }
            &&& (f.status@ == "all"@ || p.status == f.status@)
            &&& (f.favorite_only ==> p.favorite)
        }),
{
    lemma_trim_blank(f.query@);
}

/// A listing sorted by recent use puts every never-used record after every
/// used one, and the used ones most recent first.
pub proof fn law_recent_order(m: Map<Seq<char>, PromptView>, f: crate::record::FilterState, r: Seq<PromptView>)
    requires
        listed(m, f, r),
        f.sort@ == "recent"@,
    ensures
        forall|i: int, j: int|
            0 <= i < j < r.len() && (#[trigger] r[i]).last_used_at is None ==> (#[trigger] r[j]).last_used_at is None,
        forall|i: int, j: int|
            0 <= i < j < r.len() && (#[trigger] r[i]).last_used_at is Some && (#[trigger] r[j]).last_used_at is Some
                ==> !text_lt(r[i].last_used_at->0, r[j].last_used_at->0),
{
    assert(sort_mode_of(f.sort@) == SortMode::Recent);
    assert forall|i: int, j: int|
        0 <= i < j < r.len() && (#[trigger] r[i]).last_used_at is None implies (#[trigger] r[j]).last_used_at is None by {
        assert(!before(SortMode::Recent, r[j], r[i]));
    }
    assert forall|i: int, j: int|
        0 <= i < j < r.len() && (#[trigger] r[i]).last_used_at is Some && (#[trigger] r[j]).last_used_at is Some
            implies !text_lt(r[i].last_used_at->0, r[j].last_used_at->0) by {
        assert(!before(SortMode::Recent, r[j], r[i]));
    }
}

/// Importing one item stores exactly its resolved record under its id,
/// replacing whatever was there, timestamps included.
pub proof fn law_import_one(
    m: Map<Seq<char>, PromptView>,
    item: PromptImport,
    fresh_id: Seq<char>,
    now: Seq<char>,
)
    ensures
        ({
            let p = resolved(item, fresh_id, now);
            imported(m, seq![item], seq![fresh_id], now) == m.insert(p.id, p)
        }),
{
    let items = seq![item];
    let ids = seq![fresh_id];
    assert(items.take(0) =~= Seq::<PromptImport>::empty());
    assert(imported(m, items.take(0), ids, now) == m);
    assert(items[0] == item && ids[0] == fresh_id);
}

/// The map of ids to records in the order of `r`.
pub open spec fn map_of(r: Seq<PromptView>) -> Map<Seq<char>, PromptView>
    decreases r.len(),
{
    if r.len() == 0 {
        Map::empty()
    } else {
        map_of(r.drop_last()).insert(r.last().id, r.last())
    }
}

proof fn lemma_imported_is_map_of(items: Seq<PromptImport>, r: Seq<PromptView>, ids: Seq<Seq<char>>, now: Seq<char>)
    requires
        items.len() == r.len(),
        forall|k: int| 0 <= k < r.len() ==> resolved(items[k], ids[k], now) == #[trigger] r[k],
    ensures
        imported(Map::empty(), items, ids, now) == map_of(r),
    decreases items.len(),
{
    if items.len() > 0 {
        let n = (items.len() - 1) as int;
        assert(items.take(n).len() == r.drop_last().len());
        assert forall|k: int| 0 <= k < r.drop_last().len() implies resolved(items.take(n)[k], ids[k], now) == #[trigger] r.drop_last()[k] by {
            assert(r.drop_last()[k] == r[k]);
        }
        lemma_imported_is_map_of(items.take(n), r.drop_last(), ids, now);
        assert(r[n] == r.last());
    }
}

proof fn lemma_map_of(r: Seq<PromptView>)
    requires
        forall|i: int, j: int| 0 <= i < j < r.len() ==> (#[trigger] r[i]).id != (#[trigger] r[j]).id,
    ensures
        forall|id: Seq<char>| map_of(r).contains_key(id) <==> exists|k: int| 0 <= k < r.len() && (#[trigger] r[k]).id == id,
        forall|k: int| 0 <= k < r.len() ==> map_of(r)[(#[trigger] r[k]).id] == r[k],
    decreases r.len(),
{
    if r.len() > 0 {
        let d = r.drop_last();
        assert forall|i: int, j: int| 0 <= i < j < d.len() implies (#[trigger] d[i]).id != (#[trigger] d[j]).id by {
            assert(d[i] == r[i] && d[j] == r[j]);
        }
        lemma_map_of(d);
        assert forall|id: Seq<char>| map_of(r).contains_key(id) <==> exists|k: int| 0 <= k < r.len() && (#[trigger] r[k]).id == id by {
            if map_of(d).contains_key(id) {
                let k = choose|k: int| 0 <= k < d.len() && (#[trigger] d[k]).id == id;
                assert(r[k] == d[k]);
            }
            if exists|k: int| 0 <= k < r.len() && (#[trigger] r[k]).id == id {
                let k = choose|k: int| 0 <= k < r.len() && (#[trigger] r[k]).id == id;
                if k < r.len() - 1 {
                    assert(r[k] == d[k]);
                }
            }
        }
        assert forall|k: int| 0 <= k < r.len() implies map_of(r)[(#[trigger] r[k]).id] == r[k] by {
            if k < r.len() - 1 {
                assert(r[k] == d[k]);
                assert(r[k].id != r[r.len() - 1].id);
            }
        }
    }
}

/// Exporting every record and importing the items into an empty store
/// gives back the same records under the same ids.
pub proof fn law_export_import(
    m: Map<Seq<char>, PromptView>,
    f: crate::record::FilterState,
    r: Seq<PromptView>,
    items: Seq<PromptImport>,
    ids: Seq<Seq<char>>,
    now: Seq<char>,
)
    requires
        is_export_filter(f),
        listed(m, f, r),
        items.len() == r.len(),
        forall|k: int, fresh: Seq<char>, t: Seq<char>|
            0 <= k < r.len() ==> #[trigger] resolved(items[k], fresh, t) == r[k],
    ensures
        imported(Map::empty(), items, ids, now) == m,
{
    let q = trim(f.query@);
    assert(q =~= Seq::<char>::empty()) by {
        assert(f.query@.len() == 0);
    }
    assert forall|id: Seq<char>| #[trigger] m.contains_key(id) implies exists|k: int|
        0 <= k < r.len() && (#[trigger] r[k]).id == id by {
        assert(matches_filter(m[id], f));
    }
    law_import_of_export(m, r, items, ids, now);
}

/// Importing, into an empty store, items that resolve to a sequence holding
/// every record of `m` once (what an export gives) yields `m` again, the
/// ids that stand in for absent ones being unused.
pub proof fn law_import_of_export(
    m: Map<Seq<char>, PromptView>,
    r: Seq<PromptView>,
    items: Seq<PromptImport>,
    ids: Seq<Seq<char>>,
    now: Seq<char>,
)
    requires
        forall|k: int| 0 <= k < r.len() ==> m.contains_key((#[trigger] r[k]).id) && m[r[k].id] == r[k],
        forall|id: Seq<char>| #[trigger] m.contains_key(id) ==> exists|k: int| 0 <= k < r.len() && (#[trigger] r[k]).id == id,
        forall|a: int, b: int| 0 <= a < b < r.len() ==> (#[trigger] r[a]).id != (#[trigger] r[b]).id,
        items.len() == r.len(),
        forall|k: int, fresh: Seq<char>, t: Seq<char>|
            0 <= k < r.len() ==> #[trigger] resolved(items[k], fresh, t) == r[k],
    ensures
        imported(Map::empty(), items, ids, now) == m,
{
    assert forall|k: int| 0 <= k < r.len() implies resolved(items[k], ids[k], now) == #[trigger] r[k] by {
        assert(resolved(items[k], ids[k], now) == r[k]);
    }
    lemma_imported_is_map_of(items, r, ids, now);
    lemma_map_of(r);
    assert forall|id: Seq<char>| #[trigger] map_of(r).contains_key(id) <==> m.contains_key(id) by {
        if map_of(r).contains_key(id) {
            let k = choose|k: int| 0 <= k < r.len() && (#[trigger] r[k]).id == id;
        }
    }
    assert forall|id: Seq<char>| #[trigger] map_of(r).contains_key(id) implies map_of(r)[id] == m[id] by {
        let k = choose|k: int| 0 <= k < r.len() && (#[trigger] r[k]).id == id;
    }
    assert(map_of(r) =~= m);
}

proof fn lemma_current_has_no_retired()
    ensures
        !has_retired(current_columns()),
{
    reveal_strlit("source");
    reveal_strlit("source_url");
    reveal_strlit("id");
    reveal_strlit("title");
    reveal_strlit("prompt_text");
    reveal_strlit("notes");
    reveal_strlit("author");
    reveal_strlit("language");
    reveal_strlit("category");
    reveal_strlit("created_at");
    reveal_strlit("updated_at");
    reveal_strlit("last_used_at");
    reveal_strlit("favorite");
    reveal_strlit("status");
    let c = current_columns();
    assert forall|i: int| 0 <= i < c.len() implies !is_retired(#[trigger] c[i]) by {
        assert(c[i].len() != 6 || c[i][0] != 's' || c[i][1] != 'o');
        assert(c[i].len() != 10 || c[i][0] != 's');
        if c[i] == "source"@ {
            assert(c[i][0] == 's' && c[i][1] == 'o' && c[i].len() == 6);
        }
        if c[i] == "source_url"@ {
            assert(c[i][0] == 's' && c[i].len() == 10);
        }
    }
}

/// Running schema initialization a second time plans no rebuild and no
/// creation, leaves the columns as they are, and its category backfill
/// changes no record.
pub proof fn law_migration_idempotent(cols: Seq<Seq<char>>, m: Map<Seq<char>, PromptView>)
    ensures
        plan_of(migrated(cols)) == (false, false),
        migrated(migrated(cols)) == migrated(cols),
        m.map_values(|p: PromptView| backfilled(p)).map_values(|p: PromptView| backfilled(p))
            == m.map_values(|p: PromptView| backfilled(p)),
{
    lemma_current_has_no_retired();
    reveal_strlit("Writing");
    let once = m.map_values(|p: PromptView| backfilled(p));
    let twice = once.map_values(|p: PromptView| backfilled(p));
    assert forall|id: Seq<char>| #[trigger] twice.contains_key(id) implies twice[id] == once[id] by {
        let p = m[id];
        if !(p.category is None || p.category == Some(Seq::<char>::empty())) {
        } else {
            assert(crate::record::fallback_category().len() == 7);
            assert(once[id].category != Some(Seq::<char>::empty()));
        }
    }
    assert(twice =~= once);
}

/// After the category backfill a record has a category, and not an empty
/// one.
pub proof fn law_backfill_complete(p: PromptView)
    ensures
        backfilled(p).category is Some,
        backfilled(p).category->0.len() > 0,
{
    reveal_strlit("Writing");
    assert(crate::record::fallback_category().len() == 7);
    if p.category is Some && p.category->0.len() == 0 {
        assert(p.category->0 =~= Seq::<char>::empty());
    }
}

} // verus!
