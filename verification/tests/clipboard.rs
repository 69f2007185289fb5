use pastoid::clipboard::{
    check_clipboard, is_blank_text, should_capture, stop_clipboard_monitor, ClipboardMonitor,
};
use pastoid::repository::ClipboardRepository;

#[test]
fn blank_text_is_not_captured() {
    assert!(is_blank_text(""));
    assert!(is_blank_text(" \t\n\u{3000}"));
    assert!(!is_blank_text(" a "));
    assert!(!should_capture(&None, "   "));
    assert!(should_capture(&None, "x"));
    assert!(!should_capture(&Some("x".to_string()), "x"));
    assert!(should_capture(&Some("x".to_string()), "y"));
}

#[test]
fn check_clipboard_adds_new_text_once() {
    let mut repo = ClipboardRepository::new("/tmp/p".to_string(), 10, None);
    let mut last = None;
    let first = check_clipboard(&mut repo, &mut last, Some("copied".to_string()), "id-1".to_string());
    let item = first.unwrap().expect("new text is captured");
    assert_eq!(item.id, "id-1");
    assert_eq!(item.content, "copied");
    assert_eq!(item.item_type, "text");
    assert_eq!(last.as_deref(), Some("copied"));
    assert_eq!(repo.len(), 1);
    assert!(check_clipboard(&mut repo, &mut last, Some("copied".to_string()), "id-2".to_string()).unwrap().is_none());
    assert!(check_clipboard(&mut repo, &mut last, None, "id-3".to_string()).unwrap().is_none());
    assert_eq!(repo.len(), 1);
    // Seen before, then something else, then the old text again: a duplicate.
    assert!(check_clipboard(&mut repo, &mut last, Some("other".to_string()), "id-4".to_string()).unwrap().is_some());
    assert!(check_clipboard(&mut repo, &mut last, Some("copied".to_string()), "id-2".to_string()).unwrap().is_none());
    assert_eq!(last.as_deref(), Some("copied"));
    assert_eq!(repo.len(), 2);
}

#[test]
fn monitor_backs_off_and_stops() {
    let mut m = ClipboardMonitor::new();
    assert_eq!(m.sleep_secs(), 1);
    assert!(!m.record_check(false));
    assert_eq!(m.sleep_secs(), 2);
    m.record_check(false);
    assert_eq!(m.sleep_secs(), 5);
    m.record_check(false);
    assert_eq!(m.sleep_secs(), 10);
    assert!(!m.record_check(false));
    assert!(m.record_check(false));
    assert!(!m.record_check(true));
    assert_eq!(m.sleep_secs(), 1);
    stop_clipboard_monitor(&mut m);
    assert!(!m.running);
}
