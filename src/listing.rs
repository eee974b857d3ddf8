//! Which records a listing shows and in which order.
use vstd::prelude::*;
use vstd::string::StringExecFns;
use crate::record::{FilterState, Prompt, PromptView};
use crate::text::{chars_of, contains_ci, contains_folded, text_less, text_lt, trim, trim_chars, lemma_text_lt_irreflexive, lemma_text_lt_transitive};

verus! {

/// The order of a listing.
#[derive(Clone, Copy, Debug, PartialEq, Eq, Structural)]
pub enum SortMode {
    /// Used records first, most recently used first.
    Recent,
    /// Favorites first, then newest first.
    Favorites,
    /// Newest first.
    Newest,
}

pub open spec fn sort_mode_of(s: Seq<char>) -> SortMode {
    if s == "recent"@ {
        SortMode::Recent
    } else if s == "favorites"@ {
        SortMode::Favorites
    } else {
        SortMode::Newest
    }
}

/// Whether `p` shows for the text query `q` (already trimmed): an empty
/// query shows everything, else title, text or notes must contain it.
pub open spec fn text_matches(p: PromptView, q: Seq<char>) -> bool {
    q.len() == 0 || contains_ci(p.title, q) || contains_ci(p.prompt_text, q) || (p.notes is Some
        && contains_ci(p.notes->0, q))
}

/// Whether `p` passes every criterion of `f`.
pub open spec fn matches_filter(p: PromptView, f: FilterState) -> bool {
    &&& text_matches(p, trim(f.query@))
    &&& match f.category {
        Some(c) => p.category == Some(c@),
        None => true,
    }
    &&& (f.status@ == "all"@ || p.status == f.status@)
    &&& (f.favorite_only ==> p.favorite)
}

/// Whether `a` must come strictly before `b` under `mode`.
pub open spec fn before(mode: SortMode, a: PromptView, b: PromptView) -> bool {
    match mode {
        SortMode::Recent => match (a.last_used_at, b.last_used_at) {
            (Some(x), Some(y)) => text_lt(y, x),
            (Some(_), None) => true,
            _ => false,
        },
        SortMode::Favorites => (a.favorite && !b.favorite) || (a.favorite == b.favorite && text_lt(
            b.created_at,
            a.created_at,
        )),
        SortMode::Newest => text_lt(b.created_at, a.created_at),
    }
}

/// No record of `s` must come before one that precedes it.
pub open spec fn sorted_by(mode: SortMode, s: Seq<PromptView>) -> bool {
    forall|i: int, j: int| 0 <= i < j < s.len() ==> !before(mode, #[trigger] s[j], #[trigger] s[i])
}

pub open spec fn views(s: Seq<Prompt>) -> Seq<PromptView> {
    s.map_values(|p: Prompt| p@)
}

/// `r` is the listing of the records `m` under `f`: exactly the matching
/// records, each once, in the order of `f`'s sort mode.
pub open spec fn listed(m: Map<Seq<char>, PromptView>, f: FilterState, r: Seq<PromptView>) -> bool {
    &&& forall|k: int|
        0 <= k < r.len() ==> m.contains_key((#[trigger] r[k]).id) && m[r[k].id] == r[k]
            && matches_filter(r[k], f)
    &&& forall|id: Seq<char>|
        m.contains_key(id) && matches_filter(#[trigger] m[id], f) ==> exists|k: int|
            0 <= k < r.len() && (#[trigger] r[k]).id == id
    &&& forall|i: int, j: int| 0 <= i < j < r.len() ==> (#[trigger] r[i]).id != (#[trigger] r[j]).id
    &&& sorted_by(sort_mode_of(f.sort@), r)
}

pub proof fn lemma_before_asymmetric(mode: SortMode, a: PromptView, b: PromptView)
    requires
        before(mode, a, b),
    ensures
        !before(mode, b, a),
{
    match mode {
        SortMode::Recent => {
            if a.last_used_at is Some && b.last_used_at is Some {
                if text_lt(a.last_used_at->0, b.last_used_at->0) {
                    lemma_text_lt_transitive(
                        b.last_used_at->0,
                        a.last_used_at->0,
                        b.last_used_at->0,
                    );
                    lemma_text_lt_irreflexive(b.last_used_at->0);
                }
            }
        },
        _ => {
            if text_lt(a.created_at, b.created_at) && text_lt(b.created_at, a.created_at) {
                lemma_text_lt_transitive(a.created_at, b.created_at, a.created_at);
                lemma_text_lt_irreflexive(a.created_at);
            }
        },
    }
}

pub proof fn lemma_before_transitive(mode: SortMode, a: PromptView, b: PromptView, c: PromptView)
    requires
        before(mode, a, b),
        before(mode, b, c),
    ensures
        before(mode, a, c),
{
    match mode {
        SortMode::Recent => {
            if a.last_used_at is Some && b.last_used_at is Some && c.last_used_at is Some {
                lemma_text_lt_transitive(
                    c.last_used_at->0,
                    b.last_used_at->0,
                    a.last_used_at->0,
                );
            }
        },
        _ => {
            if text_lt(c.created_at, b.created_at) && text_lt(b.created_at, a.created_at) {
                lemma_text_lt_transitive(c.created_at, b.created_at, a.created_at);
            }
        },
    }
}

/// The sort mode that a sort name selects; unknown names sort newest first.
pub fn sort_mode(s: &String) -> (r: SortMode)
    ensures
        r == sort_mode_of(s@),
{
    if *s == String::from_str("recent") {
        SortMode::Recent
    } else if *s == String::from_str("favorites") {
        SortMode::Favorites
    } else {
        SortMode::Newest
    }
}

/// Whether `a` must come strictly before `b` under `mode`.
pub fn comes_before(mode: SortMode, a: &Prompt, b: &Prompt) -> (r: bool)
    ensures
        r == before(mode, a@, b@),
{
    match mode {
        SortMode::Recent => match (&a.last_used_at, &b.last_used_at) {
            (Some(x), Some(y)) => text_less(&chars_of(y.as_str()), &chars_of(x.as_str())),
            (Some(_), None) => true,
            _ => false,
        },
        SortMode::Favorites => {
            if a.favorite != b.favorite {
                a.favorite
            } else {
                text_less(&chars_of(b.created_at.as_str()), &chars_of(a.created_at.as_str()))
            }
        },
        SortMode::Newest => text_less(
            &chars_of(b.created_at.as_str()),
            &chars_of(a.created_at.as_str()),
        ),
    }
}

fn text_matches_exec(p: &Prompt, q: &Vec<char>) -> (r: bool)
    ensures
        r == text_matches(p@, q@),
{
    if q.len() == 0 {
        return true;
    }
    if contains_folded(&chars_of(p.title.as_str()), q) {
        return true;
    }
    if contains_folded(&chars_of(p.prompt_text.as_str()), q) {
        return true;
    }
    match &p.notes {
        Some(n) => contains_folded(&chars_of(n.as_str()), q),
        None => false,
    }
}

/// Whether `p` passes every criterion of `f`; `q` is `f`'s query, trimmed.
pub fn prompt_matches(p: &Prompt, f: &FilterState, q: &Vec<char>) -> (r: bool)
    requires
        q@ == trim(f.query@),
    ensures
        r == matches_filter(p@, *f),
{
    if !text_matches_exec(p, q) {
        return false;
    }
    let category_ok = match &f.category {
        Some(c) => match &p.category {
            Some(pc) => *pc == *c,
            None => false,
        },
        None => true,
    };
    if !category_ok {
        return false;
    }
    if !(f.status == String::from_str("all") || p.status == f.status) {
        return false;
    }
    !f.favorite_only || p.favorite
}

/// The trimmed query of `f`.
pub fn trimmed_query(f: &FilterState) -> (r: Vec<char>)
    ensures
        r@ == trim(f.query@),
{
    trim_chars(&chars_of(f.query.as_str()))
}

/// Puts `x` into the sorted `out` after every record that it must not
/// precede.
pub fn insert_sorted(out: &mut Vec<Prompt>, x: Prompt, mode: SortMode)
    requires
        sorted_by(mode, views(old(out)@)),
    ensures
        sorted_by(mode, views(final(out)@)),
        exists|p: int|
            0 <= p <= old(out)@.len() && final(out)@ == #[trigger] old(out)@.insert(p, x),
{
    let mut p: usize = 0;
    while p < out.len()
        invariant
            p <= out@.len(),
            out@ == old(out)@,
            forall|k: int| 0 <= k < p ==> !before(mode, x@, #[trigger] out@[k]@),
        ensures
            p <= out@.len(),
            out@ == old(out)@,
            forall|k: int| 0 <= k < p ==> !before(mode, x@, #[trigger] out@[k]@),
            p < out@.len() ==> before(mode, x@, out@[p as int]@),
        decreases out@.len() - p,
    {
        if comes_before(mode, &x, &out[p]) {
            break;
        }
        p = p + 1;
    }
    let ghost o = out@;
    let ghost xv = x@;
    out.insert(p, x);
    proof {
        let n = out@;
        assert forall|i: int, j: int| 0 <= i < j < n.len() implies !before(
            mode,
            #[trigger] views(n)[j],
            #[trigger] views(n)[i],
        ) by {
            assert(views(n)[i] == n[i]@ && views(n)[j] == n[j]@);
            if i < p && j < p {
                assert(views(o)[i] == o[i]@ && views(o)[j] == o[j]@);
            } else if i < p && j == p {
            } else if i < p {
                assert(views(o)[i] == o[i]@ && views(o)[j - 1] == o[j - 1]@);
            } else if i == p {
                assert(n[j] == o[j - 1]);
                assert(before(mode, xv, o[p as int]@));
                if before(mode, o[j - 1]@, xv) {
                    if j - 1 == p {
                        lemma_before_asymmetric(mode, xv, o[p as int]@);
                    } else {
                        lemma_before_transitive(mode, o[j - 1]@, xv, o[p as int]@);
                        assert(views(o)[p as int] == o[p as int]@ && views(o)[j - 1] == o[j - 1]@);
                    }
                }
            } else {
                assert(views(o)[i - 1] == o[i - 1]@ && views(o)[j - 1] == o[j - 1]@);
            }
        }
    }
}

} // verus!
