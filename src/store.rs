//! The record store: unique ids, point operations, listing, import and
//! seeding.
use vstd::prelude::*;
use crate::record::{AppError, Prompt, PromptInput, PromptPatch, PromptView, from_input, patched, copy_of, used, toggled};
use crate::source::{new_id, now_timestamp};
use crate::record::{FilterState, PromptImport, resolved, resolve_import, sample, make_sample, backfilled, backfill_category};
use crate::listing::{SortMode, listed, matches_filter, sorted_by, views, sort_mode, prompt_matches, trimmed_query, insert_sorted};
use vstd::string::StringExecFns;

verus! {

/// The rows of the store; no two share an id.
pub struct PromptStore {
    rows: Vec<Prompt>,
}

pub open spec fn ids_unique(rows: Seq<Prompt>) -> bool {
    forall|i: int, j: int| 0 <= i < j < rows.len() ==> (#[trigger] rows[i]).id@ != (#[trigger] rows[j]).id@
}

pub open spec fn has_row(rows: Seq<Prompt>, id: Seq<char>) -> bool {
    exists|i: int| 0 <= i < rows.len() && (#[trigger] rows[i]).id@ == id
}

/// The records held by `rows`, by id.
pub open spec fn records_of(rows: Seq<Prompt>) -> Map<Seq<char>, PromptView> {
    Map::new(
        |id: Seq<char>| has_row(rows, id),
        |id: Seq<char>| rows[choose|i: int| 0 <= i < rows.len() && (#[trigger] rows[i]).id@ == id]@,
    )
}

/// The record stored under `id`, if any.
pub open spec fn lookup(m: Map<Seq<char>, PromptView>, id: Seq<char>) -> Option<PromptView> {
    if m.contains_key(id) {
        Some(m[id])
    } else {
        None
    }
}

pub open spec fn opt_prompt_view(o: Option<Prompt>) -> Option<PromptView> {
    match o {
        Some(p) => Some(p@),
        None => None,
    }
}

proof fn lemma_records_at(rows: Seq<Prompt>, i: int)
    requires
        ids_unique(rows),
        0 <= i < rows.len(),
    ensures
        records_of(rows).contains_key(rows[i].id@),
        records_of(rows)[rows[i].id@] == rows[i]@,
{
    let id = rows[i].id@;
    assert(has_row(rows, id));
    let j = choose|j: int| 0 <= j < rows.len() && (#[trigger] rows[j]).id@ == id;
    if j < i {
        assert(rows[j].id@ != rows[i].id@);
    } else if i < j {
        assert(rows[i].id@ != rows[j].id@);
    }
}

proof fn lemma_records_all(rows: Seq<Prompt>)
    requires
        ids_unique(rows),
    ensures
        forall|i: int|
            0 <= i < rows.len() ==> records_of(rows).contains_key(#[trigger] rows[i].id@)
                && records_of(rows)[rows[i].id@] == rows[i]@,
{
    assert forall|i: int| 0 <= i < rows.len() implies records_of(rows).contains_key(
        #[trigger] rows[i].id@,
    ) && records_of(rows)[rows[i].id@] == rows[i]@ by {
        lemma_records_at(rows, i);
    }
}

proof fn lemma_push(rows: Seq<Prompt>, p: Prompt)
    requires
        ids_unique(rows),
        !has_row(rows, p.id@),
    ensures
        ids_unique(rows.push(p)),
        records_of(rows.push(p)) == records_of(rows).insert(p.id@, p@),
{
    let n = rows.push(p);
    assert forall|i: int, j: int| 0 <= i < j < n.len() implies (#[trigger] n[i]).id@ != (#[trigger] n[j]).id@ by {
        if j == rows.len() {
            assert(rows[i] == n[i]);
        } else {
            assert(rows[i] == n[i] && rows[j] == n[j]);
        }
    }
    lemma_records_all(rows);
    lemma_records_all(n);
    assert forall|id: Seq<char>| #[trigger] records_of(n).contains_key(id) <==> records_of(rows).insert(p.id@, p@).contains_key(id) by {
        if has_row(n, id) && id != p.id@ {
            let i = choose|i: int| 0 <= i < n.len() && (#[trigger] n[i]).id@ == id;
            assert(rows[i] == n[i]);
        }
        if has_row(rows, id) {
            let i = choose|i: int| 0 <= i < rows.len() && (#[trigger] rows[i]).id@ == id;
            assert(rows[i] == n[i]);
        }
        if id == p.id@ {
            assert(n[rows.len() as int] == p);
        }
    }
    assert forall|id: Seq<char>| #[trigger] records_of(n).contains_key(id) implies records_of(n)[id] == records_of(rows).insert(p.id@, p@)[id] by {
        let i = choose|i: int| 0 <= i < n.len() && (#[trigger] n[i]).id@ == id;
        if i < rows.len() {
            assert(rows[i] == n[i]);
        }
    }
    assert(records_of(n) =~= records_of(rows).insert(p.id@, p@));
}

proof fn lemma_set(rows: Seq<Prompt>, k: int, p: Prompt)
    requires
        ids_unique(rows),
        0 <= k < rows.len(),
        rows[k].id@ == p.id@,
    ensures
        ids_unique(rows.update(k, p)),
        records_of(rows.update(k, p)) == records_of(rows).insert(p.id@, p@),
{
    let n = rows.update(k, p);
    assert forall|i: int, j: int| 0 <= i < j < n.len() implies (#[trigger] n[i]).id@ != (#[trigger] n[j]).id@ by {
        assert(rows[i].id@ == n[i].id@ && rows[j].id@ == n[j].id@);
    }
    lemma_records_all(rows);
    lemma_records_all(n);
    assert forall|id: Seq<char>| #[trigger] records_of(n).contains_key(id) <==> records_of(rows).insert(p.id@, p@).contains_key(id) by {
        if has_row(n, id) {
            let i = choose|i: int| 0 <= i < n.len() && (#[trigger] n[i]).id@ == id;
            assert(rows[i].id@ == n[i].id@);
        }
        if has_row(rows, id) {
            let i = choose|i: int| 0 <= i < rows.len() && (#[trigger] rows[i]).id@ == id;
            assert(rows[i].id@ == n[i].id@);
        }
        if id == p.id@ {
            assert(n[k] == p);
        }
    }
    assert forall|id: Seq<char>| #[trigger] records_of(n).contains_key(id) implies records_of(n)[id] == records_of(rows).insert(p.id@, p@)[id] by {
        let i = choose|i: int| 0 <= i < n.len() && (#[trigger] n[i]).id@ == id;
        if i != k {
            assert(rows[i] == n[i]);
        }
    }
    assert(records_of(n) =~= records_of(rows).insert(p.id@, p@));
}

proof fn lemma_remove(rows: Seq<Prompt>, k: int)
    requires
        ids_unique(rows),
        0 <= k < rows.len(),
    ensures
        ids_unique(rows.remove(k)),
        records_of(rows.remove(k)) == records_of(rows).remove(rows[k].id@),
{
    let n = rows.remove(k);
    let gone = rows[k].id@;
    assert forall|i: int| 0 <= i < n.len() implies #[trigger] n[i] == rows[if i < k { i } else { i + 1 }] by {}
    assert forall|i: int, j: int| 0 <= i < j < n.len() implies (#[trigger] n[i]).id@ != (#[trigger] n[j]).id@ by {
        assert(n[i] == rows[if i < k { i } else { i + 1 }]);
        assert(n[j] == rows[if j < k { j } else { j + 1 }]);
    }
    lemma_records_all(rows);
    lemma_records_all(n);
    assert forall|id: Seq<char>| #[trigger] records_of(n).contains_key(id) <==> records_of(rows).remove(gone).contains_key(id) by {
        if has_row(n, id) {
            let i = choose|i: int| 0 <= i < n.len() && (#[trigger] n[i]).id@ == id;
            let oi = if i < k { i } else { i + 1 };
            assert(n[i] == rows[oi]);
            assert(rows[oi].id@ != gone) by {
                if oi < k {
                } else {
                }
            }
        }
        if has_row(rows, id) && id != gone {
            let i = choose|i: int| 0 <= i < rows.len() && (#[trigger] rows[i]).id@ == id;
            if i < k {
                assert(n[i] == rows[i]);
            } else {
                assert(i != k);
                assert(n[i - 1] == rows[i]);
            }
        }
    }
    assert forall|id: Seq<char>| #[trigger] records_of(n).contains_key(id) implies records_of(n)[id] == records_of(rows).remove(gone)[id] by {
        let i = choose|i: int| 0 <= i < n.len() && (#[trigger] n[i]).id@ == id;
        let oi = if i < k { i } else { i + 1 };
        assert(n[i] == rows[oi]);
    }
    assert(records_of(n) =~= records_of(rows).remove(gone));
}

/// `m` after importing `items` in order, the `k`-th item taking `ids[k]`
/// when it has no id of its own, and `now` for absent timestamps.
pub open spec fn imported(
    m: Map<Seq<char>, PromptView>,
    items: Seq<PromptImport>,
    ids: Seq<Seq<char>>,
    now: Seq<char>,
) -> Map<Seq<char>, PromptView>
    decreases items.len(),
{
    if items.len() == 0 {
        m
    } else {
        let k = items.len() - 1;
        let p = resolved(items[k], ids[k], now);
        imported(m, items.take(k), ids, now).insert(p.id, p)
    }
}

/// The records that seeding an empty store creates.
pub open spec fn seeded(ids: Seq<Seq<char>>, now: Seq<char>) -> Map<Seq<char>, PromptView> {
    Map::<Seq<char>, PromptView>::empty().insert(ids[0], sample(0, ids[0], now)).insert(
        ids[1],
        sample(1, ids[1], now),
    ).insert(ids[2], sample(2, ids[2], now))
}

pub open spec fn ids_distinct(ids: Seq<Seq<char>>) -> bool {
    ids[0] != ids[1] && ids[0] != ids[2] && ids[1] != ids[2]
}

pub open spec fn string_views(s: Seq<String>) -> Seq<Seq<char>> {
    s.map_values(|x: String| x@)
}

/// The filter of an export: no criterion, newest first.
pub open spec fn is_export_filter(f: FilterState) -> bool {
    &&& f.query@.len() == 0
    &&& f.category is None
    &&& f.status@ == "all"@
    &&& !f.favorite_only
    &&& f.sort@ == "newest"@
}

#[verifier::opaque]
spec fn inv_from(rows: Seq<Prompt>, idx: int, out: Seq<Prompt>) -> bool {
    forall|k: int|
        0 <= k < out.len() ==> exists|i: int| 0 <= i < idx && (#[trigger] rows[i])@ == (#[trigger] out[k])@
}

#[verifier::opaque]
spec fn inv_ok(ok: spec_fn(PromptView) -> bool, out: Seq<Prompt>) -> bool {
    forall|k: int| 0 <= k < out.len() ==> ok((#[trigger] out[k])@)
}

#[verifier::opaque]
spec fn inv_covers(rows: Seq<Prompt>, idx: int, ok: spec_fn(PromptView) -> bool, out: Seq<Prompt>) -> bool {
    forall|i: int|
        0 <= i < idx && ok((#[trigger] rows[i])@) ==> exists|k: int|
            0 <= k < out.len() && (#[trigger] out[k])@ == rows[i]@
}

#[verifier::opaque]
spec fn inv_distinct(out: Seq<Prompt>) -> bool {
    forall|a: int, b: int| 0 <= a < b < out.len() ==> (#[trigger] out[a]).id@ != (#[trigger] out[b]).id@
}

spec fn list_inv(rows: Seq<Prompt>, idx: int, ok: spec_fn(PromptView) -> bool, out: Seq<Prompt>) -> bool {
    &&& inv_from(rows, idx, out)
    &&& inv_ok(ok, out)
    &&& inv_covers(rows, idx, ok, out)
    &&& inv_distinct(out)
}

proof fn lemma_insert_at(o: Seq<Prompt>, p: int, x: Prompt)
    requires
        0 <= p <= o.len(),
    ensures
        o.insert(p, x).len() == o.len() + 1,
        o.insert(p, x)[p] == x,
        forall|k: int| 0 <= k < p ==> #[trigger] o.insert(p, x)[k] == o[k],
        forall|k: int| p < k <= o.len() ==> #[trigger] o.insert(p, x)[k] == o[k - 1],
{
}

proof fn lemma_list_step(rows: Seq<Prompt>, idx: int, ok: spec_fn(PromptView) -> bool, o: Seq<Prompt>, x: Prompt, p: int)
    requires
        ids_unique(rows),
        0 <= idx < rows.len(),
        list_inv(rows, idx, ok, o),
        x@ == rows[idx]@,
        ok(x@),
        0 <= p <= o.len(),
    ensures
        list_inv(rows, idx + 1, ok, o.insert(p, x)),
{
    let n = o.insert(p, x);
    lemma_insert_at(o, p, x);
    assert(inv_from(rows, idx + 1, n)) by {
        reveal(inv_from);
        assert forall|k: int| 0 <= k < n.len() implies exists|i: int|
            0 <= i < idx + 1 && (#[trigger] rows[i])@ == (#[trigger] n[k])@ by {
            if k == p {
                assert(rows[idx]@ == n[k]@);
            } else if k < p {
                assert(n[k] == o[k]);
            } else {
                assert(n[k] == o[k - 1]);
            }
        }
    }
    assert(inv_ok(ok, n)) by {
        reveal(inv_ok);
        assert forall|k: int| 0 <= k < n.len() implies ok((#[trigger] n[k])@) by {
            if k < p {
                assert(n[k] == o[k]);
            } else if k > p {
                assert(n[k] == o[k - 1]);
            }
        }
    }
    assert(inv_covers(rows, idx + 1, ok, n)) by {
        reveal(inv_covers);
        assert forall|i: int|
            0 <= i < idx + 1 && ok((#[trigger] rows[i])@) implies exists|k: int|
                0 <= k < n.len() && (#[trigger] n[k])@ == rows[i]@ by {
            if i == idx {
                assert(n[p]@ == rows[i]@);
            } else {
                let k = choose|k: int| 0 <= k < o.len() && (#[trigger] o[k])@ == rows[i]@;
                if k < p {
                    assert(n[k] == o[k]);
                } else {
                    assert(n[k + 1] == o[k]);
                }
            }
        }
    }
    assert(inv_distinct(n)) by {
        reveal(inv_distinct);
        reveal(inv_from);
        assert forall|k: int| 0 <= k < o.len() implies (#[trigger] o[k]).id@ != x.id@ by {
            let i = choose|i: int| 0 <= i < idx && (#[trigger] rows[i])@ == o[k]@;
            assert(rows[i].id@ != rows[idx].id@);
        }
        assert forall|a: int, b: int| 0 <= a < b < n.len() implies (#[trigger] n[a]).id@ != (#[trigger] n[b]).id@ by {
            let oa = if a < p { a } else { a - 1 };
            let ob = if b < p { b } else { b - 1 };
            if a != p {
                assert(n[a] == o[oa]);
            }
            if b != p {
                assert(n[b] == o[ob]);
            }
        }
    }
}

proof fn lemma_list_done(rows: Seq<Prompt>, f: FilterState, out: Seq<Prompt>)
    requires
        ids_unique(rows),
        list_inv(rows, rows.len() as int, |v: PromptView| matches_filter(v, f), out),
        sorted_by(crate::listing::sort_mode_of(f.sort@), views(out)),
    ensures
        listed(records_of(rows), f, views(out)),
{
    reveal(inv_from);
    reveal(inv_ok);
    reveal(inv_covers);
    reveal(inv_distinct);
    let r = views(out);
    let m = records_of(rows);
    lemma_records_all(rows);
    assert forall|k: int| 0 <= k < r.len() implies m.contains_key((#[trigger] r[k]).id) && m[r[k].id] == r[k]
        && matches_filter(r[k], f) by {
        assert(r[k] == out[k]@);
        let i = choose|i: int| 0 <= i < rows.len() && (#[trigger] rows[i])@ == out[k]@;
        assert(rows[i].id@ == r[k].id);
    }
    assert forall|id: Seq<char>| m.contains_key(id) && matches_filter(#[trigger] m[id], f) implies exists|k: int|
        0 <= k < r.len() && (#[trigger] r[k]).id == id by {
        let i = choose|i: int| 0 <= i < rows.len() && (#[trigger] rows[i]).id@ == id;
        let k = choose|k: int| 0 <= k < out.len() && (#[trigger] out[k])@ == rows[i]@;
        assert(r[k] == out[k]@);
    }
    assert forall|a: int, b: int| 0 <= a < b < r.len() implies (#[trigger] r[a]).id != (#[trigger] r[b]).id by {
        assert(r[a] == out[a]@ && r[b] == out[b]@);
    }
}

impl View for PromptStore {
    type V = Map<Seq<char>, PromptView>;

    closed spec fn view(&self) -> Map<Seq<char>, PromptView> {
        records_of(self.rows@)
    }
}

impl PromptStore {
    /// The store's invariant: ids are unique.
    pub closed spec fn wf(&self) -> bool {
        ids_unique(self.rows@)
    }

    /// Each record is stored under its own id, and a store holds finitely
    /// many records.
    pub proof fn lemma_keys(&self)
        requires
            self.wf(),
        ensures
            self@.dom().finite(),
            forall|k: Seq<char>| #[trigger] self@.contains_key(k) ==> self@[k].id == k,
    {
        let rows = self.rows@;
        let ids = rows.map_values(|p: Prompt| p.id@);
        vstd::seq_lib::seq_to_set_is_finite(ids);
        assert forall|k: Seq<char>| #[trigger] self@.dom().contains(k) implies ids.to_set().contains(k) by {
            let i = choose|i: int| 0 <= i < rows.len() && (#[trigger] rows[i]).id@ == k;
            assert(ids[i] == k);
        }
        vstd::set_lib::lemma_set_subset_finite(ids.to_set(), self@.dom());
        lemma_records_all(rows);
        assert forall|k: Seq<char>| #[trigger] self@.contains_key(k) implies self@[k].id == k by {
            let i = choose|i: int| 0 <= i < rows.len() && (#[trigger] rows[i]).id@ == k;
        }
    }

    /// An empty store.
    pub fn new() -> (r: PromptStore)
        ensures
            r.wf(),
            r@ == Map::<Seq<char>, PromptView>::empty(),
    {
        let r = PromptStore { rows: Vec::new() };
        assert(r@ =~= Map::<Seq<char>, PromptView>::empty());
        r
    }

    /// Whether the store holds no record.
    pub fn is_empty(&self) -> (r: bool)
        requires
            self.wf(),
        ensures
            r == (self@ == Map::<Seq<char>, PromptView>::empty()),
    {
        if self.rows.len() == 0 {
            assert(self@ =~= Map::<Seq<char>, PromptView>::empty());
            true
        } else {
            proof {
                lemma_records_at(self.rows@, 0);
                assert(!Map::<Seq<char>, PromptView>::empty().contains_key(self.rows@[0].id@));
            }
            false
        }
    }

    fn find_index(&self, id: &String) -> (r: Option<usize>)
        ensures
            match r {
                Some(i) => i < self.rows@.len() && self.rows@[i as int].id@ == id@,
                None => !has_row(self.rows@, id@),
            },
    {
        let mut i: usize = 0;
        while i < self.rows.len()
            invariant
                i <= self.rows@.len(),
                forall|j: int| 0 <= j < i ==> (#[trigger] self.rows@[j]).id@ != id@,
            decreases self.rows@.len() - i,
        {
            if self.rows[i].id == *id {
                return Some(i);
            }
            i = i + 1;
        }
        None
    }

    /// The record stored under `id`, if any.
    pub fn fetch_prompt(&self, id: &String) -> (r: Option<Prompt>)
        requires
            self.wf(),
        ensures
            opt_prompt_view(r) == lookup(self@, id@),
    {
        match self.find_index(id) {
            Some(i) => {
                proof {
                    lemma_records_at(self.rows@, i as int);
                }
                Some(self.rows[i].copy())
            },
            None => None,
        }
    }

    /// Adds `p` as a new row; fails with `Conflict` if its id is taken.
    pub fn insert_record(&mut self, p: Prompt) -> (r: Result<(), AppError>)
        requires
            old(self).wf(),
        ensures
            final(self).wf(),
            old(self)@.contains_key(p.id@) ==> r == Err::<(), AppError>(AppError::Conflict)
                && final(self)@ == old(self)@,
            !old(self)@.contains_key(p.id@) ==> r is Ok && final(self)@ == old(self)@.insert(
                p.id@,
                p@,
            ),
    {
        match self.find_index(&p.id) {
            Some(i) => {
                proof {
                    lemma_records_at(self.rows@, i as int);
                }
                Err(AppError::Conflict)
            },
            None => {
                proof {
                    lemma_push(self.rows@, p);
                    assert(!records_of(self.rows@).contains_key(p.id@));
                }
                self.rows.push(p);
                Ok(())
            },
        }
    }

    fn replace_row(&mut self, i: usize, p: Prompt)
        requires
            old(self).wf(),
            i < old(self).rows@.len(),
            old(self).rows@[i as int].id@ == p.id@,
        ensures
            final(self).wf(),
            final(self)@ == old(self)@.insert(p.id@, p@),
    {
        proof {
            lemma_set(self.rows@, i as int, p);
        }
        self.rows.set(i, p);
    }

    /// Creates a record from `input` under `id` at time `now`; fails with
    /// `Conflict` if `id` is taken.
    pub fn create_prompt_with(&mut self, input: PromptInput, id: String, now: String) -> (r: Result<
        Prompt,
        AppError,
    >)
        requires
            old(self).wf(),
        ensures
            final(self).wf(),
            old(self)@.contains_key(id@) ==> r is Err && r->Err_0 is Conflict && final(self)@ == old(
                self,
            )@,
            !old(self)@.contains_key(id@) ==> r is Ok && r->Ok_0@ == from_input(input, id@, now@)
                && final(self)@ == old(self)@.insert(id@, from_input(input, id@, now@)),
    {
        let p = Prompt::from_input(input, id, now);
        let out = p.copy();
        match self.insert_record(p) {
            Ok(()) => Ok(out),
            Err(e) => Err(e),
        }
    }

    /// Creates a record from `input` under a fresh id at the current time.
    pub fn create_prompt(&mut self, input: PromptInput) -> (r: Result<Prompt, AppError>)
        requires
            old(self).wf(),
        ensures
            final(self).wf(),
            r is Ok ==> !old(self)@.contains_key(r->Ok_0.id@) && r->Ok_0@ == from_input(
                input,
                r->Ok_0.id@,
                r->Ok_0.created_at@,
            ) && final(self)@ == old(self)@.insert(r->Ok_0.id@, r->Ok_0@),
            r is Err ==> r->Err_0 is Conflict && final(self)@ == old(self)@ && exists|k: Seq<char>|
                k.len() == 36 && #[trigger] old(self)@.contains_key(k),
    {
        let id = new_id();
        let now = now_timestamp();
        let ghost key = id@;
        let r = self.create_prompt_with(input, id, now);
        assert(r is Err ==> old(self)@.contains_key(key));
        r
    }

    /// Applies `patch` to the record under `id` at time `now`; fails with
    /// `NotFound` if there is none.
    pub fn update_prompt_at(&mut self, id: &String, patch: PromptPatch, now: String) -> (r: Result<
        Prompt,
        AppError,
    >)
        requires
            old(self).wf(),
        ensures
            final(self).wf(),
            !old(self)@.contains_key(id@) ==> r is Err && r->Err_0 is NotFound && final(self)@ == old(
                self,
            )@,
            old(self)@.contains_key(id@) ==> r is Ok && r->Ok_0.id@ == id@ && r->Ok_0@ == patched(
                old(self)@[id@],
                patch,
                now@,
            ) && final(self)@ == old(self)@.insert(id@, patched(old(self)@[id@], patch, now@)),
    {
        match self.find_index(id) {
            None => Err(AppError::NotFound),
            Some(i) => {
                proof {
                    lemma_records_at(self.rows@, i as int);
                }
                let p = self.rows[i].patched(patch, now);
                let out = p.copy();
                self.replace_row(i, p);
                Ok(out)
            },
        }
    }

    /// Applies `patch` to the record under `id` at the current time.
    pub fn update_prompt(&mut self, id: &String, patch: PromptPatch) -> (r: Result<Prompt, AppError>)
        requires
            old(self).wf(),
        ensures
            final(self).wf(),
            !old(self)@.contains_key(id@) ==> r is Err && r->Err_0 is NotFound && final(self)@ == old(
                self,
            )@,
            old(self)@.contains_key(id@) ==> r is Ok && r->Ok_0.id@ == id@ && r->Ok_0@ == patched(
                old(self)@[id@],
                patch,
                r->Ok_0.updated_at@,
            ) && final(self)@ == old(self)@.insert(id@, r->Ok_0@),
    {
        let now = now_timestamp();
        self.update_prompt_at(id, patch, now)
    }

    /// Removes the record under `id`; removing an absent id changes nothing.
    pub fn delete_prompt(&mut self, id: &String)
        requires
            old(self).wf(),
        ensures
            final(self).wf(),
            final(self)@ == old(self)@.remove(id@),
    {
        match self.find_index(id) {
            None => {
                assert(old(self)@ =~= old(self)@.remove(id@));
            },
            Some(i) => {
                proof {
                    lemma_remove(self.rows@, i as int);
                }
                self.rows.remove(i);
            },
        }
    }

    /// Stores a copy of the record under `id` as `new_id` at time `now`, its
    /// title marked as a copy. Fails with `NotFound` if there is no such
    /// record, and with `Conflict` if `new_id` is taken.
    pub fn duplicate_prompt_at(&mut self, id: &String, new_id: String, now: String) -> (r: Result<
        Prompt,
        AppError,
    >)
        requires
            old(self).wf(),
        ensures
            final(self).wf(),
            !old(self)@.contains_key(id@) ==> r is Err && r->Err_0 is NotFound && final(self)@ == old(
                self,
            )@,
            old(self)@.contains_key(id@) && old(self)@.contains_key(new_id@) ==> r is Err
                && r->Err_0 is Conflict && final(self)@ == old(self)@,
            old(self)@.contains_key(id@) && !old(self)@.contains_key(new_id@) ==> r is Ok
                && r->Ok_0@ == copy_of(old(self)@[id@], new_id@, now@) && final(self)@ == old(
                self,
            )@.insert(new_id@, copy_of(old(self)@[id@], new_id@, now@)),
    {
        match self.find_index(id) {
            None => Err(AppError::NotFound),
            Some(i) => {
                proof {
                    lemma_records_at(self.rows@, i as int);
                }
                let p = self.rows[i].copy_as(new_id, now);
                let out = p.copy();
                match self.insert_record(p) {
                    Ok(()) => Ok(out),
                    Err(e) => Err(e),
                }
            },
        }
    }

    /// Stores a copy of the record under `id` under a fresh id at the
    /// current time.
    pub fn duplicate_prompt(&mut self, id: &String) -> (r: Result<Prompt, AppError>)
        requires
            old(self).wf(),
        ensures
            final(self).wf(),
            !old(self)@.contains_key(id@) ==> r is Err && r->Err_0 is NotFound && final(self)@ == old(
                self,
            )@,
            r is Ok ==> old(self)@.contains_key(id@) && !old(self)@.contains_key(r->Ok_0.id@)
                && r->Ok_0@ == copy_of(old(self)@[id@], r->Ok_0.id@, r->Ok_0.created_at@)
                && final(self)@ == old(self)@.insert(r->Ok_0.id@, r->Ok_0@),
            r is Err ==> final(self)@ == old(self)@,
            old(self)@.contains_key(id@) && r is Err ==> r->Err_0 is Conflict && exists|k: Seq<char>|
                k.len() == 36 && #[trigger] old(self)@.contains_key(k),
    {
        let new_id = new_id();
        let now = now_timestamp();
        let ghost key = new_id@;
        let r = self.duplicate_prompt_at(id, new_id, now);
        assert(old(self)@.contains_key(id@) && r is Err ==> old(self)@.contains_key(key));
        r
    }

    /// Records a use of the record under `id` at time `now`; an absent id
    /// changes nothing.
    pub fn use_prompt_at(&mut self, id: &String, now: String)
        requires
            old(self).wf(),
        ensures
            final(self).wf(),
            old(self)@.contains_key(id@) ==> final(self)@ == old(self)@.insert(
                id@,
                used(old(self)@[id@], now@),
            ),
            !old(self)@.contains_key(id@) ==> final(self)@ == old(self)@,
    {
        match self.find_index(id) {
            None => {},
            Some(i) => {
                proof {
                    lemma_records_at(self.rows@, i as int);
                }
                let mut p = self.rows[i].copy();
                p.last_used_at = Some(now.clone());
                p.updated_at = now;
                self.replace_row(i, p);
            },
        }
    }

    /// Records a use of the record under `id` at the current time.
    pub fn use_prompt(&mut self, id: &String)
        requires
            old(self).wf(),
        ensures
            final(self).wf(),
            old(self)@.contains_key(id@) ==> exists|now: Seq<char>|
                final(self)@ == old(self)@.insert(id@, #[trigger] used(old(self)@[id@], now)),
            !old(self)@.contains_key(id@) ==> final(self)@ == old(self)@,
    {
        let now = now_timestamp();
        self.use_prompt_at(id, now);
    }

    /// Flips the favorite flag of the record under `id` at time `now`; fails
    /// with `NotFound` if there is none.
    pub fn toggle_favorite_at(&mut self, id: &String, now: String) -> (r: Result<Prompt, AppError>)
        requires
            old(self).wf(),
        ensures
            final(self).wf(),
            !old(self)@.contains_key(id@) ==> r is Err && r->Err_0 is NotFound && final(self)@ == old(
                self,
            )@,
            old(self)@.contains_key(id@) ==> r is Ok && r->Ok_0@ == toggled(old(self)@[id@], now@)
                && final(self)@ == old(self)@.insert(id@, toggled(old(self)@[id@], now@)),
    {
        match self.find_index(id) {
            None => Err(AppError::NotFound),
            Some(i) => {
                proof {
                    lemma_records_at(self.rows@, i as int);
                }
                let mut p = self.rows[i].copy();
                p.favorite = !p.favorite;
                p.updated_at = now;
                let out = p.copy();
                self.replace_row(i, p);
                Ok(out)
            },
        }
    }

    /// Flips the favorite flag of the record under `id` at the current time.
    pub fn toggle_favorite(&mut self, id: &String) -> (r: Result<Prompt, AppError>)
        requires
            old(self).wf(),
        ensures
            final(self).wf(),
            !old(self)@.contains_key(id@) ==> r is Err && r->Err_0 is NotFound && final(self)@ == old(
                self,
            )@,
            old(self)@.contains_key(id@) ==> r is Ok && r->Ok_0@ == toggled(
                old(self)@[id@],
                r->Ok_0.updated_at@,
            ) && final(self)@ == old(self)@.insert(id@, r->Ok_0@),
    {
        let now = now_timestamp();
        self.toggle_favorite_at(id, now)
    }

    /// The records that pass `filters`, each once, in its sort order.
    pub fn list_prompts(&self, filters: &FilterState) -> (r: Vec<Prompt>)
        requires
            self.wf(),
        ensures
            listed(self@, *filters, views(r@)),
    {
        let mode = sort_mode(&filters.sort);
        let q = trimmed_query(filters);
        let mut out: Vec<Prompt> = Vec::new();
        let mut idx: usize = 0;
        let ghost rows = self.rows@;
        assert(sorted_by(mode, views(out@)));
        proof {
            reveal(inv_from);
            reveal(inv_ok);
            reveal(inv_covers);
            reveal(inv_distinct);
        }
        while idx < self.rows.len()
            invariant
                rows == self.rows@,
                ids_unique(rows),
                idx <= rows.len(),
                q@ == crate::text::trim(filters.query@),
                mode == crate::listing::sort_mode_of(filters.sort@),
                sorted_by(mode, views(out@)),
                list_inv(rows, idx as int, |v: PromptView| matches_filter(v, *filters), out@),
            decreases rows.len() - idx,
        {
            let ghost o = out@;
            if prompt_matches(&self.rows[idx], filters, &q) {
                let x = self.rows[idx].copy();
                insert_sorted(&mut out, x, mode);
                proof {
                    let p = choose|p: int| 0 <= p <= o.len() && out@ == #[trigger] o.insert(p, x);
                    lemma_list_step(rows, idx as int, |v: PromptView| matches_filter(v, *filters), o, x, p);
                }
            } else {
                proof {
                    reveal(inv_from);
                    reveal(inv_ok);
                    reveal(inv_covers);
                }
            }
            idx = idx + 1;
        }
        proof {
            lemma_list_done(rows, *filters, out@);
        }
        out
    }

    /// Every record, newest first.
    pub fn export_prompts(&self) -> (r: Vec<Prompt>)
        requires
            self.wf(),
        ensures
            exists|f: FilterState| is_export_filter(f) && #[trigger] listed(self@, f, views(r@)),
            forall|k: int|
                0 <= k < r@.len() ==> self@.contains_key((#[trigger] r@[k])@.id) && self@[r@[k]@.id]
                    == r@[k]@,
            forall|id: Seq<char>|
                #[trigger] self@.contains_key(id) ==> exists|k: int| 0 <= k < r@.len() && (#[trigger] r@[k])@.id == id,
            forall|a: int, b: int| 0 <= a < b < r@.len() ==> (#[trigger] r@[a]).id@ != (#[trigger] r@[b]).id@,
            sorted_by(SortMode::Newest, views(r@)),
    {
        let f = FilterState {
            query: String::new(),
            category: None,
            status: String::from_str("all"),
            favorite_only: false,
            sort: String::from_str("newest"),
        };
        let r = self.list_prompts(&f);
        proof {
            reveal_strlit("newest");
            reveal_strlit("recent");
            reveal_strlit("favorites");
            reveal_strlit("all");
            assert(crate::text::trim(f.query@) =~= Seq::<char>::empty());
            assert(f.sort@ != "recent"@ && f.sort@ != "favorites"@) by {
                assert(f.sort@[0] != "recent"@[0]);
                assert(f.sort@.len() != "favorites"@.len());
            }
            let v = views(r@);
            assert forall|k: int| 0 <= k < r@.len() implies self@.contains_key((#[trigger] r@[k])@.id) && self@[r@[k]@.id]
                == r@[k]@ by {
                assert(v[k] == r@[k]@);
            }
            assert forall|id: Seq<char>| #[trigger] self@.contains_key(id) implies exists|k: int|
                0 <= k < r@.len() && (#[trigger] r@[k])@.id == id by {
                assert(matches_filter(self@[id], f));
                let k = choose|k: int| 0 <= k < v.len() && (#[trigger] v[k]).id == id;
                assert(v[k] == r@[k]@);
            }
            assert forall|a: int, b: int| 0 <= a < b < r@.len() implies (#[trigger] r@[a]).id@ != (#[trigger] r@[b]).id@ by {
                assert(v[a] == r@[a]@ && v[b] == r@[b]@);
            }
        }
        r
    }

    /// Stores `p` under its id, replacing the record there if any.
    pub fn upsert(&mut self, p: Prompt)
        requires
            old(self).wf(),
        ensures
            final(self).wf(),
            final(self)@ == old(self)@.insert(p.id@, p@),
    {
        match self.find_index(&p.id) {
            Some(i) => {
                self.replace_row(i, p);
            },
            None => {
                proof {
                    lemma_push(self.rows@, p);
                }
                self.rows.push(p);
            },
        }
    }

    /// Imports `items` in order: an item whose id is stored replaces that
    /// record whole, any other is added. The `k`-th item takes
    /// `fresh_ids[k]` when it has no id, and `now` for absent timestamps.
    /// Returns how many items were imported.
    pub fn import_prompts_with(
        &mut self,
        items: &Vec<PromptImport>,
        fresh_ids: &Vec<String>,
        now: &String,
    ) -> (r: usize)
        requires
            old(self).wf(),
            fresh_ids@.len() == items@.len(),
        ensures
            final(self).wf(),
            r == items@.len(),
            final(self)@ == imported(old(self)@, items@, string_views(fresh_ids@), now@),
    {
        let ghost ids = string_views(fresh_ids@);
        let mut i: usize = 0;
        assert(items@.take(0) =~= Seq::<PromptImport>::empty());
        while i < items.len()
            invariant
                self.wf(),
                i <= items@.len(),
                fresh_ids@.len() == items@.len(),
                ids == string_views(fresh_ids@),
                self@ == imported(old(self)@, items@.take(i as int), ids, now@),
            decreases items@.len() - i,
        {
            let p = resolve_import(&items[i], &fresh_ids[i], now);
            self.upsert(p);
            proof {
                let t = items@.take(i + 1);
                assert(t.take(i as int) =~= items@.take(i as int));
                assert(t[i as int] == items@[i as int]);
                assert(ids[i as int] == fresh_ids@[i as int]@);
            }
            i = i + 1;
        }
        assert(items@.take(items@.len() as int) =~= items@);
        items.len()
    }

    /// Imports `items` in order, with fresh ids for items without one and
    /// the current time for absent timestamps.
    pub fn import_prompts(&mut self, items: &Vec<PromptImport>) -> (r: usize)
        requires
            old(self).wf(),
        ensures
            final(self).wf(),
            r == items@.len(),
            exists|ids: Seq<Seq<char>>, now: Seq<char>|
                ids.len() == items@.len() && (forall|k: int| 0 <= k < ids.len() ==> (#[trigger] ids[k]).len() == 36)
                    && final(self)@ == #[trigger] imported(
                    old(self)@,
                    items@,
                    ids,
                    now,
                ),
    {
        let mut fresh_ids: Vec<String> = Vec::new();
        let mut i: usize = 0;
        while i < items.len()
            invariant
                i <= items@.len(),
                fresh_ids@.len() == i,
                forall|k: int| 0 <= k < i ==> (#[trigger] fresh_ids@[k])@.len() == 36,
            decreases items@.len() - i,
        {
            fresh_ids.push(new_id());
            i = i + 1;
        }
        let now = now_timestamp();
        let ghost ids = string_views(fresh_ids@);
        assert(forall|k: int| 0 <= k < ids.len() ==> (#[trigger] ids[k]).len() == 36) by {
            assert(forall|k: int| 0 <= k < ids.len() ==> ids[k] == (#[trigger] fresh_ids@[k])@);
        }
        self.import_prompts_with(items, &fresh_ids, &now)
    }

    /// On an empty store, adds the three sample records under `ids` at time
    /// `now`; fails with `Conflict`, adding nothing, if two ids are equal.
    /// A store that holds any record is left as it is.
    pub fn seed_with(&mut self, ids: &Vec<String>, now: &String) -> (r: Result<(), AppError>)
        requires
            old(self).wf(),
            ids@.len() == 3,
        ensures
            final(self).wf(),
            old(self)@ != Map::<Seq<char>, PromptView>::empty() ==> r is Ok && final(self)@ == old(
                self,
            )@,
            old(self)@ == Map::<Seq<char>, PromptView>::empty() && ids_distinct(string_views(ids@))
                ==> r is Ok && final(self)@ == seeded(string_views(ids@), now@),
            old(self)@ == Map::<Seq<char>, PromptView>::empty() && !ids_distinct(
                string_views(ids@),
            ) ==> r is Err && r->Err_0 is Conflict && final(self)@ == old(self)@,
    {
        if !self.is_empty() {
            return Ok(());
        }
        let ghost v = string_views(ids@);
        assert(v[0] == ids@[0]@ && v[1] == ids@[1]@ && v[2] == ids@[2]@);
        if ids[0] == ids[1] || ids[0] == ids[2] || ids[1] == ids[2] {
            return Err(AppError::Conflict);
        }
        let mut k: usize = 0;
        while k < 3
            invariant
                self.wf(),
                k <= 3,
                ids@.len() == 3,
                v == string_views(ids@),
                ids_distinct(v),
                k == 0 ==> self@ == Map::<Seq<char>, PromptView>::empty(),
                k == 1 ==> self@ == Map::<Seq<char>, PromptView>::empty().insert(v[0], sample(0, v[0], now@)),
                k == 2 ==> self@ == Map::<Seq<char>, PromptView>::empty().insert(v[0], sample(0, v[0], now@)).insert(v[1], sample(1, v[1], now@)),
                k == 3 ==> self@ == seeded(v, now@),
            decreases 3 - k,
        {
            let p = make_sample(k, ids[k].clone(), now.clone());
            let _ = self.insert_record(p);
            k = k + 1;
        }
        Ok(())
    }

    /// On an empty store, adds the three sample records under fresh ids at
    /// the current time. A store that holds any record is left as it is.
    pub fn seed(&mut self) -> (r: Result<(), AppError>)
        requires
            old(self).wf(),
        ensures
            final(self).wf(),
            old(self)@ != Map::<Seq<char>, PromptView>::empty() ==> r is Ok && final(self)@ == old(
                self,
            )@,
            old(self)@ == Map::<Seq<char>, PromptView>::empty() && r is Ok ==> exists|
                ids: Seq<Seq<char>>,
                now: Seq<char>,
            | ids.len() == 3 && ids_distinct(ids) && final(self)@ == #[trigger] seeded(ids, now),
            r is Err ==> r->Err_0 is Conflict && final(self)@ == old(self)@,
    {
        let ids: Vec<String> = vec![new_id(), new_id(), new_id()];
        let now = now_timestamp();
        self.seed_with(&ids, &now)
    }

    /// Gives every record without a category, or with an empty one, the
    /// fallback category.
    pub fn backfill_categories(&mut self)
        requires
            old(self).wf(),
        ensures
            final(self).wf(),
            final(self)@ == old(self)@.map_values(|p: PromptView| backfilled(p)),
    {
        let ghost rows = self.rows@;
        let mut i: usize = 0;
        while i < self.rows.len()
            invariant
                self.rows@.len() == rows.len(),
                i <= rows.len(),
                ids_unique(rows),
                forall|j: int|
                    0 <= j < rows.len() ==> (#[trigger] self.rows@[j])@ == if j < i {
                        backfilled(rows[j]@)
                    } else {
                        rows[j]@
                    },
            decreases rows.len() - i,
        {
            let p = self.rows[i].copy();
            let q = backfill_category(p);
            self.rows.set(i, q);
            i = i + 1;
        }
        proof {
            let n = self.rows@;
            assert forall|a: int, b: int| 0 <= a < b < n.len() implies (#[trigger] n[a]).id@ != (#[trigger] n[b]).id@ by {
                assert(n[a]@.id == rows[a]@.id && n[b]@.id == rows[b]@.id);
            }
            lemma_records_all(rows);
            lemma_records_all(n);
            let target = records_of(rows).map_values(|p: PromptView| backfilled(p));
            assert forall|id: Seq<char>| #[trigger] records_of(n).contains_key(id) <==> target.contains_key(id) by {
                if has_row(n, id) {
                    let j = choose|j: int| 0 <= j < n.len() && (#[trigger] n[j]).id@ == id;
                    assert(n[j]@.id == rows[j]@.id);
                }
                if has_row(rows, id) {
                    let j = choose|j: int| 0 <= j < rows.len() && (#[trigger] rows[j]).id@ == id;
                    assert(n[j]@.id == rows[j]@.id);
                }
            }
            assert forall|id: Seq<char>| #[trigger] records_of(n).contains_key(id) implies records_of(n)[id] == target[id] by {
                let j = choose|j: int| 0 <= j < n.len() && (#[trigger] n[j]).id@ == id;
                assert(n[j]@.id == rows[j]@.id);
            }
            assert(records_of(n) =~= target);
        }
    }
}

} // verus!
