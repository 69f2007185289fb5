use pastoid::models::{AppState, ClipboardItem, Settings};
use pastoid::repository::ClipboardRepository;

/// A fresh random identifier, as the application draws one.
fn fresh_id() -> String {
    uuid::Uuid::new_v4().to_string()
}

fn data_dir() -> String {
    "/tmp/pastoid-data".to_string()
}

fn entry(id: &str, content: &str, created_at: i64, pinned: bool) -> ClipboardItem {
    let mut item = ClipboardItem::from_parts(id.to_string(), content.to_string(), "text", created_at);
    item.is_pinned = pinned;
    item
}

fn contents(items: &[ClipboardItem]) -> Vec<String> {
    items.iter().map(|i| i.content.clone()).collect()
}

#[test]
fn test_repo_add_and_get() {
    let mut repo = ClipboardRepository::new(data_dir(), 100, None);

    let item = ClipboardItem::new("hello".to_string(), "text", fresh_id()).unwrap();
    assert!(repo.add(item.clone()));
    assert_eq!(repo.len(), 1);

    assert!(!repo.add(item.clone()));
    assert_eq!(repo.len(), 1);
}

#[test]
fn test_repo_delete() {
    let mut repo = ClipboardRepository::new(data_dir(), 100, None);

    let item = ClipboardItem::new("hello".to_string(), "text", fresh_id()).unwrap();
    repo.add(item.clone());
    repo.delete(&item.id);

    assert!(repo.is_empty());
}

#[test]
fn test_repo_clear() {
    let mut repo = ClipboardRepository::new(data_dir(), 100, None);

    repo.add(ClipboardItem::new("a".to_string(), "text", fresh_id()).unwrap());
    repo.add(ClipboardItem::new("b".to_string(), "text", fresh_id()).unwrap());
    repo.clear();

    assert!(repo.is_empty());
}

#[test]
fn test_repo_max_items_truncation() {
    let mut repo = ClipboardRepository::new(data_dir(), 100, None);

    repo.add(ClipboardItem::new("a".to_string(), "text", fresh_id()).unwrap());
    repo.add(ClipboardItem::new("b".to_string(), "text", fresh_id()).unwrap());
    repo.add(ClipboardItem::new("c".to_string(), "text", fresh_id()).unwrap());

    repo.set_max_items(2);
    assert_eq!(repo.len(), 2);
}

#[test]
fn test_repo_add_truncates_immediately() {
    let mut repo = ClipboardRepository::new(data_dir(), 2, None);

    repo.add(ClipboardItem::new("a".to_string(), "text", fresh_id()).unwrap());
    repo.add(ClipboardItem::new("b".to_string(), "text", fresh_id()).unwrap());
    repo.add(ClipboardItem::new("c".to_string(), "text", fresh_id()).unwrap());

    assert_eq!(repo.len(), 2);
    assert_eq!(repo.get_items().len(), 2);
}

#[test]
fn test_repo_flush_and_reload() {
    let mut repo = ClipboardRepository::new(data_dir(), 100, None);

    let item = ClipboardItem::new("persist".to_string(), "text", fresh_id()).unwrap();
    repo.add(item);
    let snapshot = repo.flush_now().unwrap();

    let repo2 = ClipboardRepository::new(data_dir(), 100, Some(snapshot));
    assert_eq!(repo2.len(), 1);
    assert_eq!(repo2.get_items()[0].content, "persist");
}

#[test]
fn test_repo_import() {
    let mut repo = ClipboardRepository::new(data_dir(), 100, None);

    let item1 = ClipboardItem::new("existing".to_string(), "text", fresh_id()).unwrap();
    repo.add(item1.clone());

    let item2 = ClipboardItem::new("imported".to_string(), "text", fresh_id()).unwrap();
    repo.import(vec![item1, item2]);

    assert_eq!(repo.len(), 2);
}

#[test]
fn test_repo_get_history_sorted() {
    let mut repo = ClipboardRepository::new(data_dir(), 100, None);

    let mut pinned = ClipboardItem::new("pinned".to_string(), "text", fresh_id()).unwrap();
    pinned.is_pinned = true;
    let normal = ClipboardItem::new("normal".to_string(), "text", fresh_id()).unwrap();

    repo.add(normal);
    repo.add(pinned);

    let history = repo.get_history(10);
    assert!(history[0].is_pinned);
    assert!(!history[1].is_pinned);
}

#[test]
fn add_puts_new_entry_first_and_marks_changed() {
    let mut repo = ClipboardRepository::new(data_dir(), 10, None);
    assert!(repo.flush_now().is_none());
    assert!(repo.add(entry("1", "a", 10, false)));
    assert!(repo.add(entry("2", "b", 20, false)));
    assert_eq!(contents(&repo.get_items()), vec!["b", "a"]);
    let snapshot = repo.flush_now().expect("changed history is flushed");
    assert_eq!(contents(&snapshot), vec!["b", "a"]);
    assert!(repo.flush_now().is_none());
}

#[test]
fn duplicate_needs_same_content_and_type() {
    let mut repo = ClipboardRepository::new(data_dir(), 10, None);
    assert!(repo.add(entry("1", "a", 10, false)));
    let mut image = entry("2", "a", 11, false);
    image.item_type = "image".to_string();
    assert!(repo.add(image));
    assert!(!repo.add(entry("3", "a", 12, false)));
    assert_eq!(repo.len(), 2);
}

#[test]
fn add_keeps_pinned_and_newest_when_full() {
    let mut repo = ClipboardRepository::new(data_dir(), 2, None);
    repo.add(entry("1", "old pinned", 1, true));
    repo.add(entry("2", "middle", 5, false));
    repo.add(entry("3", "newest", 9, false));
    assert_eq!(contents(&repo.get_items()), vec!["old pinned", "newest"]);
}

#[test]
fn find_update_and_delete_by_id() {
    let mut repo = ClipboardRepository::new(data_dir(), 10, None);
    repo.add(entry("x", "first", 1, false));
    repo.add(entry("y", "second", 2, false));
    assert_eq!(repo.find_by_id("x").map(|i| i.content), Some("first".to_string()));
    assert!(repo.find_by_id("z").is_none());

    let mut changed = entry("x", "first", 1, true);
    changed.updated_at = 7;
    repo.update(changed);
    let found = repo.find_by_id("x").unwrap();
    assert!(found.is_pinned);
    assert_eq!(found.updated_at, 7);

    repo.update(entry("missing", "zzz", 3, false));
    assert_eq!(repo.len(), 2);

    repo.delete("x");
    assert!(repo.find_by_id("x").is_none());
    assert_eq!(repo.len(), 1);
}

#[test]
fn import_orders_newest_first_and_skips_known_ids() {
    let mut repo = ClipboardRepository::new(data_dir(), 10, None);
    repo.add(entry("a", "one", 5, false));
    repo.import(vec![
        entry("b", "two", 9, false),
        entry("a", "dup", 1, false),
        entry("c", "three", 7, false),
        entry("b", "again", 3, false),
    ]);
    assert_eq!(contents(&repo.get_items()), vec!["two", "three", "one"]);
}

#[test]
fn history_is_pinned_then_newest_and_limited() {
    let mut repo = ClipboardRepository::new(data_dir(), 10, None);
    repo.add(entry("1", "p-old", 1, true));
    repo.add(entry("2", "n-mid", 5, false));
    repo.add(entry("3", "p-new", 8, true));
    repo.add(entry("4", "n-new", 9, false));
    repo.add(entry("5", "n-old", 2, false));
    let all = repo.get_history(10);
    assert_eq!(contents(&all), vec!["p-new", "p-old", "n-new", "n-mid", "n-old"]);
    let two = repo.get_history(2);
    assert_eq!(contents(&two), vec!["p-new", "p-old"]);
}

#[test]
fn set_max_items_only_flushes_a_changed_history() {
    let mut repo = ClipboardRepository::new(data_dir(), 5, None);
    for (k, c) in ["a", "b", "c"].iter().enumerate() {
        repo.add(entry(&k.to_string(), c, k as i64, false));
    }
    assert!(repo.set_max_items(9).is_none());
    assert_eq!(repo.max_items(), 9);
    let snapshot = repo.set_max_items(2).expect("history had changed");
    assert_eq!(contents(&snapshot), vec!["c", "b"]);
    assert_eq!(repo.len(), 2);
    assert!(repo.set_max_items(1).is_none());
    assert_eq!(repo.len(), 1);
}

#[test]
fn new_cuts_stored_history_to_bound() {
    let stored = vec![entry("1", "a", 1, false), entry("2", "b", 2, false), entry("3", "c", 3, true)];
    let repo = ClipboardRepository::new(data_dir(), 2, Some(stored));
    assert_eq!(contents(&repo.get_items()), vec!["c", "b"]);
    assert_eq!(repo.data_dir(), "/tmp/pastoid-data");
}

#[test]
fn app_state_history_uses_settings_bound() {
    let mut repo = ClipboardRepository::new(data_dir(), 10, None);
    repo.add(entry("1", "a", 1, false));
    repo.add(entry("2", "b", 2, false));
    repo.add(entry("3", "c", 3, false));
    let mut settings = Settings::default();
    settings.max_items = 2;
    let state = AppState { repo, data_dir: data_dir(), settings };
    assert_eq!(contents(&state.history_items()), vec!["c", "b"]);
}

#[test]
fn import_keeps_the_existing_entry_for_a_known_id() {
    let mut repo = ClipboardRepository::new(data_dir(), 10, None);
    repo.add(entry("a", "original", 5, true));
    repo.import(vec![entry("a", "imported copy", 9, false), entry("b", "new", 7, false)]);
    let a = repo.find_by_id("a").unwrap();
    assert_eq!(a.content, "original");
    assert!(a.is_pinned);
    assert_eq!(contents(&repo.get_items()), vec!["new", "original"]);
}

#[test]
fn successful_adds_keep_contents_distinct_and_bounded() {
    let mut repo = ClipboardRepository::new(data_dir(), 2, None);
    for (k, c) in ["x", "y", "x", "z", "y"].iter().enumerate() {
        repo.add(entry(&k.to_string(), c, k as i64, false));
        let items = repo.get_items();
        assert!(items.len() <= 2);
        for i in 0..items.len() {
            for j in i + 1..items.len() {
                assert_ne!(items[i].content, items[j].content);
            }
        }
    }
}
