use pastoid::tray::{menu_action, tray_item_label, tray_menu_id, MenuAction};

#[test]
fn short_labels_are_kept_on_one_line() {
    assert_eq!(tray_item_label("hello\nworld\r\n", false), "hello world ");
    assert_eq!(tray_item_label("note", true), "\u{1F4CC} note");
}

#[test]
fn long_labels_are_cut_at_35_characters() {
    let content = "0123456789012345678901234567890123456789";
    assert_eq!(tray_item_label(content, false), "01234567890123456789012345678901234...");
    let exactly = "01234567890123456789012345678901234";
    assert_eq!(tray_item_label(exactly, false), exactly);
    let wide = "剪".repeat(40);
    assert_eq!(tray_item_label(&wide, false), format!("{}...", "剪".repeat(35)));
}

#[test]
fn menu_ids_and_actions() {
    assert_eq!(tray_menu_id("abc"), "clip_abc");
    assert!(matches!(menu_action("preferences"), MenuAction::ShowPreferences));
    assert!(matches!(menu_action("clear"), MenuAction::ClearHistory));
    assert!(matches!(menu_action("quit"), MenuAction::Quit));
    match menu_action("clip_abc") {
        MenuAction::CopyItem(id) => assert_eq!(id, "abc"),
        _ => panic!("expected a copy action"),
    }
    match menu_action("clip_") {
        MenuAction::CopyItem(id) => assert_eq!(id, ""),
        _ => panic!("expected a copy action"),
    }
    assert!(matches!(menu_action("history_title"), MenuAction::Ignore));
    assert!(matches!(menu_action("clip"), MenuAction::Ignore));
}

use pastoid::models::ClipboardItem;
use pastoid::tray::{tray_menu_entries, MenuEntry};

fn describe(entries: &[MenuEntry]) -> Vec<String> {
    entries
        .iter()
        .map(|e| match e {
            MenuEntry::HistoryTitle => "title".to_string(),
            MenuEntry::HistoryItem(id, text) => format!("{}={}", id, text),
            MenuEntry::NoHistory => "empty".to_string(),
            MenuEntry::Separator => "-".to_string(),
            MenuEntry::Preferences => "preferences".to_string(),
            MenuEntry::ClearHistory => "clear".to_string(),
            MenuEntry::Quit => "quit".to_string(),
        })
        .collect()
}

#[test]
fn menu_layout_with_and_without_history() {
    assert_eq!(describe(&tray_menu_entries(&vec![])), vec!["empty", "-", "preferences", "-", "clear", "quit"]);
    let mut pinned = ClipboardItem::from_parts("p".to_string(), "a\nb".to_string(), "text", 1);
    pinned.is_pinned = true;
    let plain = ClipboardItem::from_parts("q".to_string(), "c".to_string(), "text", 2);
    assert_eq!(
        describe(&tray_menu_entries(&vec![pinned, plain])),
        vec!["title", "clip_p=\u{1F4CC} a b", "clip_q=c", "-", "preferences", "-", "clear", "quit"]
    );
}
