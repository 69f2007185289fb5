use pastoid::models::{settings_changes, ClipboardItem, Platform, Settings};

/// A fresh random identifier, as the application draws one.
fn fresh_id() -> String {
    uuid::Uuid::new_v4().to_string()
}

#[test]
fn test_clipboard_item_new() {
    let item = ClipboardItem::new("test content".to_string(), "text", fresh_id()).unwrap();

    assert!(!item.id.is_empty());
    assert_eq!(item.content, "test content");
    assert_eq!(item.item_type, "text");
    assert!(!item.is_pinned);
    assert!(item.tags.is_none());
    assert!(item.source.is_none());
}

#[test]
fn test_clipboard_item_created_at_and_updated_at() {
    let before = chrono::Utc::now().timestamp_millis();
    let item = ClipboardItem::new("test".to_string(), "text", fresh_id()).unwrap();
    let after = chrono::Utc::now().timestamp_millis();

    assert!(item.created_at >= before);
    assert!(item.created_at <= after);
    assert_eq!(item.created_at, item.updated_at);
}

#[test]
fn test_clipboard_item_clone() {
    let item1 = ClipboardItem::new("test".to_string(), "text", fresh_id()).unwrap();
    let item2 = item1.clone();

    assert_eq!(item1.id, item2.id);
    assert_eq!(item1.content, item2.content);
}

#[test]
fn test_settings_default() {
    let settings = Settings::default();

    assert_eq!(settings.language, "zh");
    assert_eq!(settings.theme, "system");
    assert!(!settings.autostart);
    assert_eq!(settings.max_items, 20);
    assert_eq!(settings.shortcut, "Ctrl+Shift+V");
    assert_eq!(Settings::default_for(Platform::MacOs).shortcut, "Cmd+Shift+V");
}

#[test]
fn test_settings_clone() {
    let settings1 = Settings {
        language: "en".to_string(),
        theme: "dark".to_string(),
        autostart: true,
        max_items: 50,
        shortcut: "Ctrl+Alt+K".to_string(),
    };
    let settings2 = settings1.clone();

    assert_eq!(settings1.language, settings2.language);
    assert_eq!(settings1.theme, settings2.theme);
    assert_eq!(settings1.autostart, settings2.autostart);
    assert_eq!(settings1.max_items, settings2.max_items);
    assert_eq!(settings1.shortcut, settings2.shortcut);
}

#[test]
fn settings_default_on_macos_uses_cmd() {
    let settings = Settings::default_for(Platform::MacOs);
    assert_eq!(settings.shortcut, "Cmd+Shift+V");
    assert_eq!(settings.language, "zh");
    assert_eq!(settings.max_items, 20);
    let windows = Settings::default_for(Platform::Windows);
    assert_eq!(windows.shortcut, "Ctrl+Shift+V");
}

#[test]
fn new_item_takes_the_given_id_and_the_current_time() {
    let before = pastoid::models::now_millis().unwrap();
    let item = ClipboardItem::new("x".to_string(), "text", "my-id".to_string()).unwrap();
    assert_eq!(item.id, "my-id");
    assert!(item.created_at >= before && before > 0);
}

#[test]
fn from_parts_sets_every_field() {
    let item = ClipboardItem::from_parts("abc".to_string(), "hello".to_string(), "text", 42);
    assert_eq!(item.id, "abc");
    assert_eq!(item.content, "hello");
    assert_eq!(item.item_type, "text");
    assert_eq!(item.created_at, 42);
    assert_eq!(item.updated_at, 42);
    assert!(!item.is_pinned);
    assert!(item.tags.is_none() && item.source.is_none());
}

#[test]
fn clone_copies_tags_and_source() {
    let mut item = ClipboardItem::from_parts("a".to_string(), "b".to_string(), "text", 1);
    item.tags = Some(vec!["t1".to_string(), "t2".to_string()]);
    item.source = Some("app".to_string());
    let copy = item.clone();
    assert_eq!(copy.tags, Some(vec!["t1".to_string(), "t2".to_string()]));
    assert_eq!(copy.source, Some("app".to_string()));
}

#[test]
fn settings_changes_reports_each_difference() {
    let a = Settings::default();
    let mut b = Settings::default();
    let none = settings_changes(&a, &b);
    assert!(!none.max_items && !none.shortcut && !none.theme);
    b.max_items = 5;
    b.theme = "dark".to_string();
    let some = settings_changes(&a, &b);
    assert!(some.max_items && !some.shortcut && some.theme);
    b.shortcut = "Ctrl+K".to_string();
    assert!(settings_changes(&a, &b).shortcut);
}
