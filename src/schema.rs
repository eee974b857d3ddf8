//! What schema initialization does to the primary table, decided from the
//! names of its columns.
use vstd::prelude::*;
use vstd::string::StringExecFns;
use crate::store::string_views;

verus! {

/// The steps that bring a table with given columns to the current layout.
#[derive(Debug)]
pub struct MigrationPlan {
    /// Rewrite the table without its retired columns.
    pub rebuild: bool,
    /// Create the table, which does not exist.
    pub create: bool,
}

/// A column of an earlier layout that the current one no longer has.
pub open spec fn is_retired(c: Seq<char>) -> bool {
    c == "source"@ || c == "source_url"@
}

pub open spec fn has_retired(cols: Seq<Seq<char>>) -> bool {
    exists|i: int| 0 <= i < cols.len() && is_retired(#[trigger] cols[i])
}

/// The columns of the current layout, in order.
pub open spec fn current_columns() -> Seq<Seq<char>> {
    seq![
        "id"@,
        "title"@,
        "prompt_text"@,
        "notes"@,
        "author"@,
        "language"@,
        "category"@,
        "created_at"@,
        "updated_at"@,
        "last_used_at"@,
        "favorite"@,
        "status"@,
    ]
}

/// The steps for a table with columns `cols`; no columns means no table.
pub open spec fn plan_of(cols: Seq<Seq<char>>) -> (bool, bool) {
    (has_retired(cols), cols.len() == 0)
}

/// The columns after the steps of `plan_of(cols)` have run.
pub open spec fn migrated(cols: Seq<Seq<char>>) -> Seq<Seq<char>> {
    if has_retired(cols) || cols.len() == 0 {
        current_columns()
    } else {
        cols
    }
}

/// The steps that initialization takes for a table with `columns`.
pub fn plan_migration(columns: &Vec<String>) -> (r: MigrationPlan)
    ensures
        (r.rebuild, r.create) == plan_of(string_views(columns@)),
{
    let ghost v = string_views(columns@);
    let source = String::from_str("source");
    let source_url = String::from_str("source_url");
    let mut rebuild = false;
    let mut i: usize = 0;
    while i < columns.len()
        invariant
            i <= columns@.len(),
            v == string_views(columns@),
            source@ == "source"@,
            source_url@ == "source_url"@,
            rebuild == exists|j: int| 0 <= j < i && is_retired(#[trigger] v[j]),
        decreases columns@.len() - i,
    {
        assert(v[i as int] == columns@[i as int]@);
        if columns[i] == source || columns[i] == source_url {
            rebuild = true;
        }
        proof {
            if !rebuild {
                assert forall|j: int| 0 <= j < i + 1 implies !is_retired(#[trigger] v[j]) by {
                }
            }
        }
        i = i + 1;
    }
    MigrationPlan { rebuild: rebuild, create: columns.len() == 0 }
}

/// The names of the current layout's columns, in order.
pub fn current_column_names() -> (r: Vec<String>)
    ensures
        string_views(r@) == current_columns(),
{
    let r: Vec<String> = vec![
        String::from_str("id"),
        String::from_str("title"),
        String::from_str("prompt_text"),
        String::from_str("notes"),
        String::from_str("author"),
        String::from_str("language"),
        String::from_str("category"),
        String::from_str("created_at"),
        String::from_str("updated_at"),
        String::from_str("last_used_at"),
        String::from_str("favorite"),
        String::from_str("status"),
    ];
    assert(string_views(r@) =~= current_columns());
    r
}

} // verus!
