use prompt_library::listing::{comes_before, sort_mode, SortMode};
use prompt_library::record::{
    backfill_category, resolve_import, AppError, FilterState, Prompt, PromptImport, PromptInput,
    PromptPatch,
};
use prompt_library::schema::{current_column_names, plan_migration};
use prompt_library::store::PromptStore;
use prompt_library::text::{chars_of, contains_folded, text_less, trim_chars};

fn s(x: &str) -> String {
    x.to_string()
}

fn input(title: &str, text: &str) -> PromptInput {
    PromptInput {
        title: s(title),
        prompt_text: s(text),
        notes: None,
        author: Some(s("Ada")),
        language: Some(s("en")),
        category: Some(s("Work")),
        favorite: false,
        status: s("draft"),
        last_used_at: None,
    }
}

fn empty_patch() -> PromptPatch {
    PromptPatch {
        title: None,
        prompt_text: None,
        notes: None,
        author: None,
        language: None,
        category: None,
        favorite: None,
        status: None,
        last_used_at: None,
    }
}

fn filter(query: &str, sort: &str) -> FilterState {
    FilterState {
        query: s(query),
        category: None,
        status: s("all"),
        favorite_only: false,
        sort: s(sort),
    }
}

fn import_item(id: Option<&str>, title: &str) -> PromptImport {
    PromptImport {
        id: id.map(s),
        title: s(title),
        prompt_text: s("body"),
        notes: None,
        author: None,
        language: None,
        category: None,
        created_at: None,
        updated_at: None,
        last_used_at: None,
        favorite: None,
        status: None,
    }
}

fn ids(list: &[Prompt]) -> Vec<String> {
    list.iter().map(|p| p.id.clone()).collect()
}

#[test]
fn create_then_fetch_keeps_fields() {
    let mut store = PromptStore::new();
    let made = store.create_prompt_with(input("T", "Body"), s("a1"), s("2024-01-01T00:00:00Z")).unwrap();
    let got = store.fetch_prompt(&s("a1")).unwrap();
    assert_eq!(got.title, "T");
    assert_eq!(got.prompt_text, "Body");
    assert_eq!(got.author, Some(s("Ada")));
    assert_eq!(got.category, Some(s("Work")));
    assert_eq!(got.status, "draft");
    assert!(!got.favorite);
    assert_eq!(got.created_at, "2024-01-01T00:00:00Z");
    assert_eq!(got.updated_at, got.created_at);
    assert_eq!(made.id, "a1");
}

#[test]
fn create_with_taken_id_conflicts() {
    let mut store = PromptStore::new();
    store.create_prompt_with(input("T", "B"), s("a1"), s("t1")).unwrap();
    let r = store.create_prompt_with(input("U", "C"), s("a1"), s("t2"));
    assert!(matches!(r, Err(AppError::Conflict)));
    assert_eq!(store.fetch_prompt(&s("a1")).unwrap().title, "T");
}

#[test]
fn create_uses_fresh_id_and_time() {
    let mut store = PromptStore::new();
    let a = store.create_prompt(input("T", "B")).unwrap();
    let b = store.create_prompt(input("T", "B")).unwrap();
    assert_eq!(a.id.len(), 36);
    assert_ne!(a.id, b.id);
    assert!(!a.created_at.is_empty());
    assert_eq!(a.created_at, a.updated_at);
    assert!(store.fetch_prompt(&a.id).is_some());
}

#[test]
fn fetch_missing_is_none() {
    let store = PromptStore::new();
    assert!(store.fetch_prompt(&s("nope")).is_none());
}

#[test]
fn empty_patch_only_touches_updated_at() {
    let mut store = PromptStore::new();
    store.create_prompt_with(input("T", "B"), s("a1"), s("t1")).unwrap();
    let p = store.update_prompt_at(&s("a1"), empty_patch(), s("t2")).unwrap();
    assert_eq!(p.title, "T");
    assert_eq!(p.prompt_text, "B");
    assert_eq!(p.author, Some(s("Ada")));
    assert_eq!(p.created_at, "t1");
    assert_eq!(p.updated_at, "t2");
    assert!(!p.favorite);
}

#[test]
fn favorite_patch_sets_flag_only() {
    let mut store = PromptStore::new();
    store.create_prompt_with(input("T", "B"), s("a1"), s("t1")).unwrap();
    let mut patch = empty_patch();
    patch.favorite = Some(true);
    store.update_prompt_at(&s("a1"), patch, s("t2")).unwrap();
    let p = store.fetch_prompt(&s("a1")).unwrap();
    assert!(p.favorite);
    assert_eq!(p.title, "T");
    assert_eq!(p.status, "draft");
    assert_eq!(p.category, Some(s("Work")));
}

#[test]
fn patch_replaces_present_fields() {
    let mut store = PromptStore::new();
    store.create_prompt_with(input("T", "B"), s("a1"), s("t1")).unwrap();
    let mut patch = empty_patch();
    patch.title = Some(s("New"));
    patch.notes = Some(s("n"));
    patch.status = Some(s("ready"));
    let p = store.update_prompt_at(&s("a1"), patch, s("t2")).unwrap();
    assert_eq!(p.title, "New");
    assert_eq!(p.notes, Some(s("n")));
    assert_eq!(p.status, "ready");
    assert_eq!(p.prompt_text, "B");
}

#[test]
fn update_missing_is_not_found() {
    let mut store = PromptStore::new();
    let r = store.update_prompt_at(&s("x"), empty_patch(), s("t"));
    assert!(matches!(r, Err(AppError::NotFound)));
    assert!(matches!(store.update_prompt(&s("x"), empty_patch()), Err(AppError::NotFound)));
}

#[test]
fn toggle_twice_restores_flag() {
    let mut store = PromptStore::new();
    store.create_prompt_with(input("T", "B"), s("a1"), s("t1")).unwrap();
    let once = store.toggle_favorite_at(&s("a1"), s("t2")).unwrap();
    assert!(once.favorite);
    let twice = store.toggle_favorite_at(&s("a1"), s("t3")).unwrap();
    assert!(!twice.favorite);
    assert_eq!(twice.updated_at, "t3");
    assert!(matches!(store.toggle_favorite(&s("zz")), Err(AppError::NotFound)));
}

#[test]
fn delete_twice_then_absent() {
    let mut store = PromptStore::new();
    store.create_prompt_with(input("T", "B"), s("a1"), s("t1")).unwrap();
    store.create_prompt_with(input("U", "C"), s("a2"), s("t1")).unwrap();
    store.delete_prompt(&s("a1"));
    store.delete_prompt(&s("a1"));
    assert!(store.fetch_prompt(&s("a1")).is_none());
    assert!(store.fetch_prompt(&s("a2")).is_some());
}

#[test]
fn duplicate_marks_title_and_copies_fields() {
    let mut store = PromptStore::new();
    let mut inp = input("Memo", "B");
    inp.favorite = true;
    inp.notes = Some(s("n"));
    inp.status = s("ready");
    store.create_prompt_with(inp, s("a1"), s("t1")).unwrap();
    let d = store.duplicate_prompt_at(&s("a1"), s("a2"), s("t2")).unwrap();
    assert_eq!(d.id, "a2");
    assert_eq!(d.title, "Memo (copy)");
    assert_eq!(d.prompt_text, "B");
    assert_eq!(d.notes, Some(s("n")));
    assert_eq!(d.author, Some(s("Ada")));
    assert!(d.favorite);
    assert_eq!(d.status, "ready");
    assert_eq!(d.created_at, "t2");
    let e = store.duplicate_prompt(&s("a1")).unwrap();
    assert_ne!(e.id, "a1");
    assert_eq!(e.title, "Memo (copy)");
}

#[test]
fn duplicate_errors() {
    let mut store = PromptStore::new();
    assert!(matches!(store.duplicate_prompt_at(&s("a1"), s("a2"), s("t")), Err(AppError::NotFound)));
    store.create_prompt_with(input("T", "B"), s("a1"), s("t1")).unwrap();
    assert!(matches!(store.duplicate_prompt_at(&s("a1"), s("a1"), s("t")), Err(AppError::Conflict)));
}

#[test]
fn use_marks_time_and_ignores_missing() {
    let mut store = PromptStore::new();
    store.create_prompt_with(input("T", "B"), s("a1"), s("t1")).unwrap();
    store.use_prompt_at(&s("a1"), s("t5"));
    store.use_prompt_at(&s("missing"), s("t6"));
    let p = store.fetch_prompt(&s("a1")).unwrap();
    assert_eq!(p.last_used_at, Some(s("t5")));
    assert_eq!(p.updated_at, "t5");
    assert!(store.fetch_prompt(&s("missing")).is_none());
}

#[test]
fn list_query_memo_matches_title_body_notes() {
    let mut store = PromptStore::new();
    store.create_prompt_with(input("Strategy MEMO", "x"), s("a"), s("t1")).unwrap();
    store.create_prompt_with(input("Other", "write a memo"), s("b"), s("t2")).unwrap();
    let mut with_notes = input("Third", "y");
    with_notes.notes = Some(s("see Memo"));
    store.create_prompt_with(with_notes, s("c"), s("t3")).unwrap();
    store.create_prompt_with(input("Nothing", "here"), s("d"), s("t4")).unwrap();
    let r = store.list_prompts(&filter("  memo ", "newest"));
    assert_eq!(ids(&r), vec![s("c"), s("b"), s("a")]);
}

#[test]
fn list_filters_category_status_favorite() {
    let mut store = PromptStore::new();
    let mut a = input("A", "x");
    a.favorite = true;
    store.create_prompt_with(a, s("a"), s("t1")).unwrap();
    let mut b = input("B", "x");
    b.category = Some(s("Home"));
    b.status = s("ready");
    store.create_prompt_with(b, s("b"), s("t2")).unwrap();
    let mut f = filter("", "newest");
    f.category = Some(s("Home"));
    assert_eq!(ids(&store.list_prompts(&f)), vec![s("b")]);
    let mut f = filter("", "newest");
    f.status = s("draft");
    assert_eq!(ids(&store.list_prompts(&f)), vec![s("a")]);
    let mut f = filter("", "newest");
    f.favorite_only = true;
    assert_eq!(ids(&store.list_prompts(&f)), vec![s("a")]);
    assert_eq!(store.list_prompts(&filter("   ", "newest")).len(), 2);
}

#[test]
fn list_recent_puts_unused_last() {
    let mut store = PromptStore::new();
    store.create_prompt_with(input("A", "x"), s("a"), s("t1")).unwrap();
    store.create_prompt_with(input("B", "x"), s("b"), s("t2")).unwrap();
    store.create_prompt_with(input("C", "x"), s("c"), s("t3")).unwrap();
    store.use_prompt_at(&s("a"), s("2024-05-01"));
    store.use_prompt_at(&s("c"), s("2024-03-01"));
    let r = store.list_prompts(&filter("", "recent"));
    assert_eq!(ids(&r), vec![s("a"), s("c"), s("b")]);
}

#[test]
fn list_favorites_then_newest() {
    let mut store = PromptStore::new();
    store.create_prompt_with(input("A", "x"), s("a"), s("2024-01-01")).unwrap();
    store.create_prompt_with(input("B", "x"), s("b"), s("2024-02-01")).unwrap();
    store.create_prompt_with(input("C", "x"), s("c"), s("2024-03-01")).unwrap();
    store.toggle_favorite_at(&s("a"), s("2024-04-01")).unwrap();
    let r = store.list_prompts(&filter("", "favorites"));
    assert_eq!(ids(&r), vec![s("a"), s("c"), s("b")]);
    let r = store.list_prompts(&filter("", "something-else"));
    assert_eq!(ids(&r), vec![s("c"), s("b"), s("a")]);
}

#[test]
fn import_overwrites_existing_and_inserts_new() {
    let mut store = PromptStore::new();
    store.create_prompt_with(input("Old", "x"), s("a"), s("t1")).unwrap();
    let mut item = import_item(Some("a"), "New");
    item.created_at = Some(s("c0"));
    item.updated_at = Some(s("u0"));
    let n = store.import_prompts_with(&vec![item], &vec![s("f1")], &s("now"));
    assert_eq!(n, 1);
    let p = store.fetch_prompt(&s("a")).unwrap();
    assert_eq!(p.title, "New");
    assert_eq!(p.created_at, "c0");
    assert_eq!(p.updated_at, "u0");
    assert_eq!(p.author, None);
    assert_eq!(p.status, "draft");
    let n = store.import_prompts_with(&vec![import_item(Some("b"), "Fresh")], &vec![s("f2")], &s("now"));
    assert_eq!(n, 1);
    let q = store.fetch_prompt(&s("b")).unwrap();
    assert_eq!(q.created_at, "now");
    assert!(!q.favorite);
}

#[test]
fn import_without_id_takes_fresh_one() {
    let mut store = PromptStore::new();
    let n = store.import_prompts_with(&vec![import_item(None, "X")], &vec![s("f1")], &s("now"));
    assert_eq!(n, 1);
    assert_eq!(store.fetch_prompt(&s("f1")).unwrap().title, "X");
    let n = store.import_prompts(&vec![import_item(None, "Y"), import_item(Some("k"), "Z")]);
    assert_eq!(n, 2);
    assert_eq!(store.fetch_prompt(&s("k")).unwrap().title, "Z");
    assert_eq!(store.export_prompts().len(), 3);
}

#[test]
fn export_then_import_round_trips() {
    let mut store = PromptStore::new();
    let mut a = input("A", "x");
    a.notes = Some(s("n"));
    a.last_used_at = Some(s("lu"));
    store.create_prompt_with(a, s("a"), s("t1")).unwrap();
    store.create_prompt_with(input("B", "y"), s("b"), s("t2")).unwrap();
    store.toggle_favorite_at(&s("b"), s("t3")).unwrap();
    let exported = store.export_prompts();
    let items: Vec<PromptImport> = exported.iter().map(|p| p.to_import()).collect();
    let fresh: Vec<String> = items.iter().map(|_| s("unused")).collect();
    let mut other = PromptStore::new();
    assert_eq!(other.import_prompts_with(&items, &fresh, &s("later")), 2);
    for id in ["a", "b"] {
        let x = store.fetch_prompt(&s(id)).unwrap();
        let y = other.fetch_prompt(&s(id)).unwrap();
        assert_eq!(x.title, y.title);
        assert_eq!(x.notes, y.notes);
        assert_eq!(x.created_at, y.created_at);
        assert_eq!(x.updated_at, y.updated_at);
        assert_eq!(x.last_used_at, y.last_used_at);
        assert_eq!(x.favorite, y.favorite);
        assert_eq!(x.status, y.status);
    }
    assert!(other.fetch_prompt(&s("unused")).is_none());
}

#[test]
fn resolve_import_defaults() {
    let p = resolve_import(&import_item(None, "T"), &s("fresh"), &s("now"));
    assert_eq!(p.id, "fresh");
    assert_eq!(p.status, "draft");
    assert_eq!(p.created_at, "now");
    assert_eq!(p.updated_at, "now");
    assert!(!p.favorite);
}

#[test]
fn migration_plan_and_idempotence() {
    let legacy = vec![s("id"), s("title"), s("source")];
    let plan = plan_migration(&legacy);
    assert!(plan.rebuild);
    assert!(!plan.create);
    let missing = plan_migration(&vec![]);
    assert!(missing.create);
    assert!(!missing.rebuild);
    let after = plan_migration(&current_column_names());
    assert!(!after.rebuild);
    assert!(!after.create);
    assert!(plan_migration(&vec![s("source_url")]).rebuild);
    assert_eq!(current_column_names().len(), 12);
}

#[test]
fn backfill_sets_fallback_once() {
    let mut store = PromptStore::new();
    let mut a = input("A", "x");
    a.category = None;
    store.create_prompt_with(a, s("a"), s("t")).unwrap();
    let mut b = input("B", "x");
    b.category = Some(s(""));
    store.create_prompt_with(b, s("b"), s("t")).unwrap();
    store.create_prompt_with(input("C", "x"), s("c"), s("t")).unwrap();
    store.backfill_categories();
    store.backfill_categories();
    assert_eq!(store.fetch_prompt(&s("a")).unwrap().category, Some(s("Writing")));
    assert_eq!(store.fetch_prompt(&s("b")).unwrap().category, Some(s("Writing")));
    assert_eq!(store.fetch_prompt(&s("c")).unwrap().category, Some(s("Work")));
}

#[test]
fn backfill_category_keeps_present_one() {
    let mut store = PromptStore::new();
    let p = store.create_prompt_with(input("A", "x"), s("a"), s("t")).unwrap();
    assert_eq!(backfill_category(p).category, Some(s("Work")));
}

#[test]
fn seed_fills_empty_store_only() {
    let mut store = PromptStore::new();
    store.seed_with(&vec![s("1"), s("2"), s("3")], &s("now")).unwrap();
    assert_eq!(store.export_prompts().len(), 3);
    let first = store.fetch_prompt(&s("1")).unwrap();
    assert_eq!(first.title, "Strategy Memo");
    assert_eq!(first.status, "ready");
    assert_eq!(first.category, None);
    store.seed_with(&vec![s("4"), s("5"), s("6")], &s("later")).unwrap();
    assert_eq!(store.export_prompts().len(), 3);
    store.seed().unwrap();
    assert_eq!(store.export_prompts().len(), 3);
}

#[test]
fn seed_with_equal_ids_conflicts() {
    let mut store = PromptStore::new();
    let r = store.seed_with(&vec![s("1"), s("1"), s("3")], &s("now"));
    assert!(matches!(r, Err(AppError::Conflict)));
    assert!(store.is_empty());
    store.seed().unwrap();
    assert_eq!(store.export_prompts().len(), 3);
}

#[test]
fn text_helpers() {
    let hay = chars_of("Hello World");
    assert!(contains_folded(&hay, &chars_of("WORLD")));
    assert!(!contains_folded(&hay, &chars_of("planet")));
    assert!(contains_folded(&hay, &chars_of("")));
    assert_eq!(trim_chars(&chars_of("  a b\t\n")), chars_of("a b"));
    assert!(trim_chars(&chars_of(" \t ")).is_empty());
    assert!(text_less(&chars_of("2024-01-01"), &chars_of("2024-02-01")));
    assert!(text_less(&chars_of("ab"), &chars_of("abc")));
    assert!(!text_less(&chars_of("abc"), &chars_of("abc")));
}

#[test]
fn sort_names_and_order() {
    assert_eq!(sort_mode(&s("recent")), SortMode::Recent);
    assert_eq!(sort_mode(&s("favorites")), SortMode::Favorites);
    assert_eq!(sort_mode(&s("newest")), SortMode::Newest);
    assert_eq!(sort_mode(&s("bogus")), SortMode::Newest);
    let mut store = PromptStore::new();
    let a = store.create_prompt_with(input("A", "x"), s("a"), s("t1")).unwrap();
    let b = store.create_prompt_with(input("B", "x"), s("b"), s("t2")).unwrap();
    assert!(comes_before(SortMode::Newest, &b, &a));
    assert!(!comes_before(SortMode::Newest, &a, &b));
}

#[test]
fn error_messages() {
    assert_eq!(AppError::NotFound.message(), "Not found");
    assert_eq!(AppError::Conflict.message(), "Conflict");
    assert_eq!(AppError::Io(s("x")).message(), "IO error");
}

#[test]
fn unicode_whitespace_query_is_no_filter() {
    let mut store = PromptStore::new();
    store.create_prompt_with(input("T", "x"), s("a"), s("t1")).unwrap();
    assert_eq!(store.list_prompts(&filter("\u{0B}", "newest")).len(), 1);
    assert_eq!(store.list_prompts(&filter("\u{A0}\u{3000}\u{2009}", "newest")).len(), 1);
    assert_eq!(store.list_prompts(&filter("\u{A0}zzz", "newest")).len(), 0);
    store.create_prompt_with(input("a memo", "x"), s("b"), s("t2")).unwrap();
    assert_eq!(ids(&store.list_prompts(&filter("\u{A0}memo\u{2028}", "newest"))), vec![s("b")]);
}

#[test]
fn trim_matches_std_whitespace() {
    let text = "\u{0B}\u{85}\u{1680} a b \u{202F}\u{205F}\u{2029}";
    assert_eq!(trim_chars(&chars_of(text)), chars_of(text.trim()));
}
