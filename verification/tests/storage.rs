use pastoid::models::{ClipboardItem, Platform, Settings};
use pastoid::storage::{
    enforce_max_items, get_data_file_path, get_settings_file_path, legacy_data_dir,
    load_clipboard_data, load_settings, log_file_name, rotate_logs_plan, sort_by_recency,
    LogStep, MAX_LOG_SIZE,
};

/// A fresh random identifier, as the application draws one.
fn fresh_id() -> String {
    uuid::Uuid::new_v4().to_string()
}

fn entry(content: &str, created_at: i64, pinned: bool) -> ClipboardItem {
    let mut item = ClipboardItem::from_parts(content.to_string(), content.to_string(), "text", created_at);
    item.is_pinned = pinned;
    item
}

fn contents(items: &[ClipboardItem]) -> Vec<String> {
    items.iter().map(|i| i.content.clone()).collect()
}

/// What saving and then loading does to a history in memory.
fn save_then_load(items: &mut Vec<ClipboardItem>, save_max: u32, load_max: u32) -> Vec<ClipboardItem> {
    enforce_max_items(items, save_max);
    load_clipboard_data(Some(items.clone()), load_max)
}

#[test]
fn test_get_data_file_path() {
    let path = get_data_file_path("/tmp/some-dir", Platform::Linux);
    assert!(std::path::Path::new(&path).ends_with("clipboard_data.json"));
    assert_eq!(path, "/tmp/some-dir/clipboard_data.json");
}

#[test]
fn test_get_settings_file_path() {
    let path = get_settings_file_path("/tmp/some-dir/", Platform::Linux);
    assert!(std::path::Path::new(&path).ends_with("settings.json"));
    assert_eq!(path, "/tmp/some-dir/settings.json");
}

#[test]
fn test_load_clipboard_data_empty_dir() {
    let items = load_clipboard_data(None, 100);
    assert!(items.is_empty());
}

#[test]
fn test_save_and_load_clipboard_data() {
    let mut items = vec![
        ClipboardItem::new("item 1".to_string(), "text", fresh_id()).unwrap(),
        ClipboardItem::new("item 2".to_string(), "text", fresh_id()).unwrap(),
    ];

    let loaded = save_then_load(&mut items, 100, 100);
    assert_eq!(loaded.len(), 2);
    assert_eq!(loaded[0].content, "item 1");
    assert_eq!(loaded[1].content, "item 2");
}

#[test]
fn test_load_settings_default() {
    let settings = load_settings(None, Platform::Linux);
    assert_eq!(settings.language, "zh");
    assert_eq!(settings.theme, "system");
    assert_eq!(settings.shortcut, "Ctrl+Shift+V");
    let mac = load_settings(None, Platform::MacOs);
    assert_eq!(mac.shortcut, "Cmd+Shift+V");
}

#[test]
fn test_save_and_load_settings() {
    let settings = Settings {
        language: "en".to_string(),
        theme: "dark".to_string(),
        autostart: true,
        max_items: 50,
        shortcut: "Ctrl+Alt+K".to_string(),
    };

    let loaded = load_settings(Some(settings), Platform::Linux);
    assert_eq!(loaded.language, "en");
    assert_eq!(loaded.theme, "dark");
    assert!(loaded.autostart);
    assert_eq!(loaded.max_items, 50);
    assert_eq!(loaded.shortcut, "Ctrl+Alt+K");
}

#[test]
fn test_load_settings_invalid_file() {
    // An unparsable settings file reads as nothing.
    let settings = load_settings(None, Platform::Linux);
    assert_eq!(settings.language, "zh");
}

#[test]
fn test_save_clipboard_data_empty() {
    let mut items: Vec<ClipboardItem> = vec![];
    let loaded = save_then_load(&mut items, 100, 100);
    assert!(loaded.is_empty());
}

#[test]
fn test_save_clipboard_data_trims_to_max() {
    let mut items = vec![
        ClipboardItem::new("item 1".to_string(), "text", fresh_id()).unwrap(),
        ClipboardItem::new("item 2".to_string(), "text", fresh_id()).unwrap(),
        ClipboardItem::new("item 3".to_string(), "text", fresh_id()).unwrap(),
    ];

    let loaded = save_then_load(&mut items, 2, 2);
    assert_eq!(loaded.len(), 2);
}

#[test]
fn test_load_clipboard_data_trims_excess() {
    let mut items = vec![
        ClipboardItem::new("item 1".to_string(), "text", fresh_id()).unwrap(),
        ClipboardItem::new("item 2".to_string(), "text", fresh_id()).unwrap(),
        ClipboardItem::new("item 3".to_string(), "text", fresh_id()).unwrap(),
    ];

    let loaded = save_then_load(&mut items, 100, 2);
    assert_eq!(loaded.len(), 2);
}

#[test]
fn test_save_clipboard_data_keeps_pinned() {
    let mut item1 = ClipboardItem::new("item 1".to_string(), "text", fresh_id()).unwrap();
    item1.is_pinned = true;
    let item2 = ClipboardItem::new("item 2".to_string(), "text", fresh_id()).unwrap();
    let item3 = ClipboardItem::new("item 3".to_string(), "text", fresh_id()).unwrap();
    let mut items = vec![item3.clone(), item2.clone(), item1.clone()];

    let loaded = save_then_load(&mut items, 2, 2);
    assert_eq!(loaded.len(), 2);
    assert!(loaded.iter().any(|i| i.content == "item 1"));
}

#[test]
fn enforce_leaves_a_fitting_history_alone() {
    let mut items = vec![entry("b", 1, false), entry("a", 5, false)];
    enforce_max_items(&mut items, 2);
    assert_eq!(contents(&items), vec!["b", "a"]);
}

#[test]
fn enforce_keeps_pinned_first_then_newest() {
    let mut items = vec![
        entry("n1", 1, false),
        entry("p1", 0, true),
        entry("n3", 3, false),
        entry("n2", 2, false),
        entry("p2", 9, true),
    ];
    enforce_max_items(&mut items, 3);
    assert_eq!(contents(&items), vec!["p1", "p2", "n3"]);
    enforce_max_items(&mut items, 3);
    assert_eq!(contents(&items), vec!["p1", "p2", "n3"]);
}

#[test]
fn enforce_keeps_every_pinned_entry_over_the_bound() {
    let mut items = vec![entry("p1", 1, true), entry("n", 5, false), entry("p2", 2, true)];
    enforce_max_items(&mut items, 1);
    assert_eq!(contents(&items), vec!["p1", "p2"]);
    enforce_max_items(&mut items, 0);
    assert_eq!(contents(&items), vec!["p1", "p2"]);
}

#[test]
fn sort_is_newest_first_and_stable() {
    let items = vec![entry("a", 1, false), entry("b", 3, true), entry("c", 1, false), entry("d", 3, false)];
    let sorted = sort_by_recency(&items);
    assert_eq!(contents(&sorted), vec!["b", "d", "a", "c"]);
}

#[test]
fn rotation_plan_leaves_small_logs() {
    assert!(rotate_logs_plan(None).is_empty());
    assert!(rotate_logs_plan(Some(1024)).is_empty());
    assert!(rotate_logs_plan(Some(MAX_LOG_SIZE - 1)).is_empty());
}

#[test]
fn rotation_plan_shifts_backups() {
    let plan = rotate_logs_plan(Some(MAX_LOG_SIZE + 1024));
    let described: Vec<String> = plan
        .iter()
        .map(|s| match s {
            LogStep::RemoveIfExists(a) => format!("rm {}", a),
            LogStep::RenameIfExists(a, b) => format!("mv {} {}", a, b),
        })
        .collect();
    assert_eq!(
        described,
        vec![
            "rm pastoid.log.3",
            "mv pastoid.log.2 pastoid.log.3",
            "mv pastoid.log.1 pastoid.log.2",
            "mv pastoid.log pastoid.log.1",
        ]
    );
    assert_eq!(rotate_logs_plan(Some(MAX_LOG_SIZE)).len(), 4);
}

#[test]
fn log_file_names() {
    assert_eq!(log_file_name(0), "pastoid.log");
    assert_eq!(log_file_name(7), "pastoid.log.7");
    assert_eq!(log_file_name(12), "pastoid.log.12");
    assert_eq!(log_file_name(305), "pastoid.log.305");
}

#[test]
fn windows_bare_drive_gets_no_separator() {
    assert_eq!(get_data_file_path("C:", Platform::Windows), "C:clipboard_data.json");
    assert_eq!(get_settings_file_path("d:", Platform::Windows), "d:settings.json");
    assert_eq!(get_settings_file_path("\\\\?\\C:", Platform::Windows), "\\\\?\\C:settings.json");
    assert_eq!(get_settings_file_path("C:\\data", Platform::Windows), "C:\\data\\settings.json");
    assert_eq!(get_settings_file_path("C:", Platform::Linux), "C:/settings.json");
    assert_eq!(get_settings_file_path("1:", Platform::Windows), "1:\\settings.json");
}

#[test]
fn legacy_dirs_per_platform() {
    assert_eq!(
        legacy_data_dir(Some("/home/u/.local/share".to_string()), Platform::Linux),
        "/home/u/.local/share/com.pastoid.app"
    );
    assert_eq!(legacy_data_dir(None, Platform::Linux), "~/.local/share/com.pastoid.app");
    assert_eq!(
        legacy_data_dir(Some("/Users/u/Library/Application Support".to_string()), Platform::MacOs),
        "/Users/u/Library/Application Support/com.pastoid.app"
    );
    assert_eq!(
        legacy_data_dir(None, Platform::MacOs),
        "~/Library/Application Support/com.pastoid.app"
    );
    assert_eq!(legacy_data_dir(None, Platform::Windows), "%APPDATA%\\com.pastoid.app");
    assert_eq!(
        legacy_data_dir(Some("C:\\Users\\u\\AppData\\Roaming\\".to_string()), Platform::Windows),
        "C:\\Users\\u\\AppData\\Roaming\\com.pastoid.app"
    );
}

#[test]
fn join_with_empty_dir_is_the_name() {
    assert_eq!(get_data_file_path("", Platform::Linux), "clipboard_data.json");
}
