//! The record type, the inputs that create, patch and import records, and
//! the rules that turn those inputs into records.
use vstd::prelude::*;
use vstd::string::StringExecFns;

verus! {

/// A stored prompt entry.
#[derive(Debug)]
pub struct Prompt {
    pub id: String,
    pub title: String,
    pub prompt_text: String,
    pub notes: Option<String>,
    pub author: Option<String>,
    pub language: Option<String>,
    pub category: Option<String>,
    pub created_at: String,
    pub updated_at: String,
    pub last_used_at: Option<String>,
    pub favorite: bool,
    pub status: String,
}

/// A record as read from an import payload: only `title` and `prompt_text`
/// are required.
#[derive(Debug)]
pub struct PromptImport {
    pub id: Option<String>,
    pub title: String,
    pub prompt_text: String,
    pub notes: Option<String>,
    pub author: Option<String>,
    pub language: Option<String>,
    pub category: Option<String>,
    pub created_at: Option<String>,
    pub updated_at: Option<String>,
    pub last_used_at: Option<String>,
    pub favorite: Option<bool>,
    pub status: Option<String>,
}

/// The fields a caller supplies to create a record.
#[derive(Debug)]
pub struct PromptInput {
    pub title: String,
    pub prompt_text: String,
    pub notes: Option<String>,
    pub author: Option<String>,
    pub language: Option<String>,
    pub category: Option<String>,
    pub favorite: bool,
    pub status: String,
    pub last_used_at: Option<String>,
}

/// A partial update: a present field replaces the stored one, an absent
/// field keeps it.
#[derive(Debug)]
pub struct PromptPatch {
    pub title: Option<String>,
    pub prompt_text: Option<String>,
    pub notes: Option<String>,
    pub author: Option<String>,
    pub language: Option<String>,
    pub category: Option<String>,
    pub favorite: Option<bool>,
    pub status: Option<String>,
    pub last_used_at: Option<String>,
}

/// The criteria of a listing and its sort mode.
#[derive(Debug)]
pub struct FilterState {
    pub query: String,
    pub category: Option<String>,
    pub status: String,
    pub favorite_only: bool,
    pub sort: String,
}

/// The failures of the store's operations.
#[derive(Debug)]
pub enum AppError {
    Database(String),
    Serialization(String),
    Io(String),
    NotFound,
    Conflict,
}

impl AppError {
    /// A human-readable message for the error.
    pub fn message(&self) -> (r: String)
        ensures
            self is Database ==> r@ == "Database error"@,
            self is Serialization ==> r@ == "Serialization error"@,
            self is Io ==> r@ == "IO error"@,
            self is NotFound ==> r@ == "Not found"@,
            self is Conflict ==> r@ == "Conflict"@,
    {
        match self {
            AppError::Database(_) => String::from_str("Database error"),
            AppError::Serialization(_) => String::from_str("Serialization error"),
            AppError::Io(_) => String::from_str("IO error"),
            AppError::NotFound => String::from_str("Not found"),
            AppError::Conflict => String::from_str("Conflict"),
        }
    }
}

/// What a record holds, as mathematical values.
pub struct PromptView {
    pub id: Seq<char>,
    pub title: Seq<char>,
    pub prompt_text: Seq<char>,
    pub notes: Option<Seq<char>>,
    pub author: Option<Seq<char>>,
    pub language: Option<Seq<char>>,
    pub category: Option<Seq<char>>,
    pub created_at: Seq<char>,
    pub updated_at: Seq<char>,
    pub last_used_at: Option<Seq<char>>,
    pub favorite: bool,
    pub status: Seq<char>,
}

pub open spec fn opt_view(o: Option<String>) -> Option<Seq<char>> {
    match o {
        Some(s) => Some(s@),
        None => None,
    }
}

impl View for Prompt {
    type V = PromptView;

    open spec fn view(&self) -> PromptView {
        PromptView {
            id: self.id@,
            title: self.title@,
            prompt_text: self.prompt_text@,
            notes: opt_view(self.notes),
            author: opt_view(self.author),
            language: opt_view(self.language),
            category: opt_view(self.category),
            created_at: self.created_at@,
            updated_at: self.updated_at@,
            last_used_at: opt_view(self.last_used_at),
            favorite: self.favorite,
            status: self.status@,
        }
    }
}

pub open spec fn or_keep(o: Option<String>, d: Seq<char>) -> Seq<char> {
    match o {
        Some(v) => v@,
        None => d,
    }
}

pub open spec fn or_keep_opt(o: Option<String>, d: Option<Seq<char>>) -> Option<Seq<char>> {
    match o {
        Some(v) => Some(v@),
        None => d,
    }
}

/// The status a record gets when none is given.
pub open spec fn draft_status() -> Seq<char> {
    "draft"@
}

/// The category that migration gives records without one.
pub open spec fn fallback_category() -> Seq<char> {
    "Writing"@
}

/// The marker appended to the title of a duplicate.
pub open spec fn copy_marker() -> Seq<char> {
    " (copy)"@
}

/// The record created from `input` under `id` at time `now`.
pub open spec fn from_input(input: PromptInput, id: Seq<char>, now: Seq<char>) -> PromptView {
    PromptView {
        id: id,
        title: input.title@,
        prompt_text: input.prompt_text@,
        notes: opt_view(input.notes),
        author: opt_view(input.author),
        language: opt_view(input.language),
        category: opt_view(input.category),
        created_at: now,
        updated_at: now,
        last_used_at: opt_view(input.last_used_at),
        favorite: input.favorite,
        status: input.status@,
    }
}

/// `cur` with `patch` applied at time `now`.
pub open spec fn patched(cur: PromptView, patch: PromptPatch, now: Seq<char>) -> PromptView {
    PromptView {
        id: cur.id,
        title: or_keep(patch.title, cur.title),
        prompt_text: or_keep(patch.prompt_text, cur.prompt_text),
        notes: or_keep_opt(patch.notes, cur.notes),
        author: or_keep_opt(patch.author, cur.author),
        language: or_keep_opt(patch.language, cur.language),
        category: or_keep_opt(patch.category, cur.category),
        created_at: cur.created_at,
        updated_at: now,
        last_used_at: or_keep_opt(patch.last_used_at, cur.last_used_at),
        favorite: match patch.favorite {
            Some(f) => f,
            None => cur.favorite,
        },
        status: or_keep(patch.status, cur.status),
    }
}

/// The copy of `p` stored under `new_id` at time `now`.
pub open spec fn copy_of(p: PromptView, new_id: Seq<char>, now: Seq<char>) -> PromptView {
    PromptView { id: new_id, title: p.title + copy_marker(), created_at: now, updated_at: now, ..p }
}

/// `p` marked as used at time `now`.
pub open spec fn used(p: PromptView, now: Seq<char>) -> PromptView {
    PromptView { last_used_at: Some(now), updated_at: now, ..p }
}

/// `p` with its favorite flag flipped at time `now`.
pub open spec fn toggled(p: PromptView, now: Seq<char>) -> PromptView {
    PromptView { favorite: !p.favorite, updated_at: now, ..p }
}

/// The id under which `item` is imported, `fresh_id` when it has none.
pub open spec fn import_id(item: PromptImport, fresh_id: Seq<char>) -> Seq<char> {
    match item.id {
        Some(i) => i@,
        None => fresh_id,
    }
}

/// The record that importing `item` yields, with `fresh_id` used when the
/// item has no id and `now` for absent timestamps.
pub open spec fn resolved(item: PromptImport, fresh_id: Seq<char>, now: Seq<char>) -> PromptView {
    PromptView {
        id: import_id(item, fresh_id),
        title: item.title@,
        prompt_text: item.prompt_text@,
        notes: opt_view(item.notes),
        author: opt_view(item.author),
        language: opt_view(item.language),
        category: opt_view(item.category),
        created_at: or_keep(item.created_at, now),
        updated_at: or_keep(item.updated_at, now),
        last_used_at: opt_view(item.last_used_at),
        favorite: match item.favorite {
            Some(f) => f,
            None => false,
        },
        status: or_keep(item.status, draft_status()),
    }
}

/// A copy of an optional text value.
pub fn copy_text(o: &Option<String>) -> (r: Option<String>)
    ensures
        opt_view(r) == opt_view(*o),
{
    match o {
        Some(s) => Some(s.clone()),
        None => None,
    }
}

/// Keeps the stored value unless the patch holds one.
fn keep_or_take(o: Option<String>, d: &String) -> (r: String)
    ensures
        r@ == or_keep(o, d@),
{
    match o {
        Some(v) => v,
        None => d.clone(),
    }
}

fn keep_or_take_opt(o: Option<String>, d: &Option<String>) -> (r: Option<String>)
    ensures
        opt_view(r) == or_keep_opt(o, opt_view(*d)),
{
    match o {
        Some(v) => Some(v),
        None => copy_text(d),
    }
}

impl Prompt {
    /// A field-by-field copy of the record.
    pub fn copy(&self) -> (r: Prompt)
        ensures
            r@ == self@,
    {
        Prompt {
            id: self.id.clone(),
            title: self.title.clone(),
            prompt_text: self.prompt_text.clone(),
            notes: copy_text(&self.notes),
            author: copy_text(&self.author),
            language: copy_text(&self.language),
            category: copy_text(&self.category),
            created_at: self.created_at.clone(),
            updated_at: self.updated_at.clone(),
            last_used_at: copy_text(&self.last_used_at),
            favorite: self.favorite,
            status: self.status.clone(),
        }
    }

    /// The record built from `input`, stored under `id` at time `now`.
    pub fn from_input(input: PromptInput, id: String, now: String) -> (r: Prompt)
        ensures
            r@ == from_input(input, id@, now@),
    {
        let created = now.clone();
        Prompt {
            id: id,
            title: input.title,
            prompt_text: input.prompt_text,
            notes: input.notes,
            author: input.author,
            language: input.language,
            category: input.category,
            created_at: created,
            updated_at: now,
            last_used_at: input.last_used_at,
            favorite: input.favorite,
            status: input.status,
        }
    }

    /// This record with `patch` applied at time `now`.
    pub fn patched(&self, patch: PromptPatch, now: String) -> (r: Prompt)
        ensures
            r@ == patched(self@, patch, now@),
    {
        Prompt {
            id: self.id.clone(),
            title: keep_or_take(patch.title, &self.title),
            prompt_text: keep_or_take(patch.prompt_text, &self.prompt_text),
            notes: keep_or_take_opt(patch.notes, &self.notes),
            author: keep_or_take_opt(patch.author, &self.author),
            language: keep_or_take_opt(patch.language, &self.language),
            category: keep_or_take_opt(patch.category, &self.category),
            created_at: self.created_at.clone(),
            updated_at: now,
            last_used_at: keep_or_take_opt(patch.last_used_at, &self.last_used_at),
            favorite: match patch.favorite {
                Some(f) => f,
                None => self.favorite,
            },
            status: keep_or_take(patch.status, &self.status),
        }
    }

    /// The copy of this record stored under `new_id` at time `now`.
    pub fn copy_as(&self, new_id: String, now: String) -> (r: Prompt)
        ensures
            r@ == copy_of(self@, new_id@, now@),
    {
        let mut title = self.title.clone();
        title.append(" (copy)");
        let mut r = self.copy();
        r.id = new_id;
        r.title = title;
        r.created_at = now.clone();
        r.updated_at = now;
        r
    }

    /// The record as an import item with every field present.
    pub fn to_import(&self) -> (r: PromptImport)
        ensures
            forall|fresh_id: Seq<char>, now: Seq<char>| #[trigger] resolved(r, fresh_id, now) == self@,
    {
        PromptImport {
            id: Some(self.id.clone()),
            title: self.title.clone(),
            prompt_text: self.prompt_text.clone(),
            notes: copy_text(&self.notes),
            author: copy_text(&self.author),
            language: copy_text(&self.language),
            category: copy_text(&self.category),
            created_at: Some(self.created_at.clone()),
            updated_at: Some(self.updated_at.clone()),
            last_used_at: copy_text(&self.last_used_at),
            favorite: Some(self.favorite),
            status: Some(self.status.clone()),
        }
    }
}

/// Builds the record that importing `item` yields.
pub fn resolve_import(item: &PromptImport, fresh_id: &String, now: &String) -> (r: Prompt)
    ensures
        r@ == resolved(*item, fresh_id@, now@),
{
    Prompt {
        id: match &item.id {
            Some(i) => i.clone(),
            None => fresh_id.clone(),
        },
        title: item.title.clone(),
        prompt_text: item.prompt_text.clone(),
        notes: copy_text(&item.notes),
        author: copy_text(&item.author),
        language: copy_text(&item.language),
        category: copy_text(&item.category),
        created_at: match &item.created_at {
            Some(c) => c.clone(),
            None => now.clone(),
        },
        updated_at: match &item.updated_at {
            Some(u) => u.clone(),
            None => now.clone(),
        },
        last_used_at: copy_text(&item.last_used_at),
        favorite: match item.favorite {
            Some(f) => f,
            None => false,
        },
        status: match &item.status {
            Some(st) => st.clone(),
            None => String::from_str("draft"),
        },
    }
}

/// The title of the `k`-th seed record.
pub open spec fn sample_title(k: int) -> Seq<char> {
    if k == 0 {
        "Strategy Memo"@
    } else if k == 1 {
        "UX rewrite"@
    } else {
        "Podcast recap"@
    }
}

/// The text of the `k`-th seed record.
pub open spec fn sample_text(k: int) -> Seq<char> {
    if k == 0 {
        "Write a product strategy memo for a new feature. Include risks, metrics, and rollout plan."@
    } else if k == 1 {
        "Rewrite this paragraph in the voice of a calm, concise UX writer. Provide 3 options."@
    } else {
        "Summarize this podcast episode into 5 actionable takeaways for founders."@
    }
}

/// The `k`-th seed record, stored under `id` at time `now`.
pub open spec fn sample(k: int, id: Seq<char>, now: Seq<char>) -> PromptView {
    PromptView {
        id: id,
        title: sample_title(k),
        prompt_text: sample_text(k),
        notes: None,
        author: None,
        language: None,
        category: None,
        created_at: now,
        updated_at: now,
        last_used_at: None,
        favorite: false,
        status: "ready"@,
    }
}

/// Builds the `k`-th seed record.
pub fn make_sample(k: usize, id: String, now: String) -> (r: Prompt)
    requires
        k < 3,
    ensures
        r@ == sample(k as int, id@, now@),
{
    let (title, text) = if k == 0 {
        (
            String::from_str("Strategy Memo"),
            String::from_str(
                "Write a product strategy memo for a new feature. Include risks, metrics, and rollout plan.",
            ),
        )
    } else if k == 1 {
        (
            String::from_str("UX rewrite"),
            String::from_str(
                "Rewrite this paragraph in the voice of a calm, concise UX writer. Provide 3 options.",
            ),
        )
    } else {
        (
            String::from_str("Podcast recap"),
            String::from_str("Summarize this podcast episode into 5 actionable takeaways for founders."),
        )
    };
    Prompt {
        id: id,
        title: title,
        prompt_text: text,
        notes: None,
        author: None,
        language: None,
        category: None,
        created_at: now.clone(),
        updated_at: now,
        last_used_at: None,
        favorite: false,
        status: String::from_str("ready"),
    }
}

/// `p` with the fallback category when it has none or an empty one.
pub open spec fn backfilled(p: PromptView) -> PromptView {
    if p.category is None || p.category == Some(Seq::<char>::empty()) {
        PromptView { category: Some(fallback_category()), ..p }
    } else {
        p
    }
}

/// This record with the fallback category when it has none or an empty one.
pub fn backfill_category(p: Prompt) -> (r: Prompt)
    ensures
        r@ == backfilled(p@),
{
    let missing = match &p.category {
        None => true,
        Some(c) => *c == String::new(),
    };
    if missing {
        Prompt { category: Some(String::from_str("Writing")), ..p }
    } else {
        p
    }
}

} // verus!
