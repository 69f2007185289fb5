use pastoid::models::Platform;
use pastoid::shortcut::{normalize_shortcut, normalize_shortcut_for};

#[test]
fn test_normalize_shortcut() {
    assert_eq!(normalize_shortcut("Cmd+Shift+V"), "Ctrl+Shift+V");
    assert_eq!(normalize_shortcut("Option+K"), "Alt+K");
    assert_eq!(normalize_shortcut("Ctrl+Alt+K"), "Ctrl+Alt+K");
}

#[test]
fn test_toggle_quick_paste_does_not_crash_without_window() {
}

#[test]
fn normalize_on_macos_keeps_names() {
    assert_eq!(normalize_shortcut_for("Cmd+Shift+V", Platform::MacOs), "Cmd+Shift+V");
    assert_eq!(normalize_shortcut_for("Option+K", Platform::MacOs), "Option+K");
    assert_eq!(normalize_shortcut_for("Cmd+Option+X", Platform::Windows), "Ctrl+Alt+X");
}

#[test]
fn normalize_replaces_every_occurrence() {
    assert_eq!(normalize_shortcut("CmdCmd+OptionOption"), "CtrlCtrl+AltAlt");
    assert_eq!(normalize_shortcut(""), "");
    assert_eq!(normalize_shortcut("Cm"), "Cm");
}

#[test]
fn normalizing_twice_is_normalizing_once() {
    for s in ["Cmd+Option+Cmd", "CCmdmd", "OpOptiontion+K", "Ctrl+Alt+K"] {
        let once = normalize_shortcut(s);
        assert_eq!(normalize_shortcut(&once), once);
        assert!(!once.contains("Cmd") && !once.contains("Option"));
    }
}

use pastoid::shortcut::{ShortcutSwitch, SwitchAction, SwitchStage};

#[test]
fn shortcut_switch_succeeds() {
    let mut sw = ShortcutSwitch::new("Cmd+Shift+V".to_string(), "Ctrl+K".to_string());
    assert!(matches!(sw.step(true), SwitchAction::UnregisterOld(s) if s == "Cmd+Shift+V"));
    assert!(matches!(sw.step(false), SwitchAction::RegisterNew(s) if s == "Ctrl+K"));
    assert!(matches!(sw.step(true), SwitchAction::Done));
    assert_eq!(sw.stage, SwitchStage::Done);
}

#[test]
fn shortcut_switch_rolls_back_on_failure() {
    let mut sw = ShortcutSwitch::new("A+B".to_string(), "C+D".to_string());
    assert!(matches!(sw.step(true), SwitchAction::UnregisterOld(_)));
    assert!(matches!(sw.step(true), SwitchAction::RegisterNew(_)));
    assert!(matches!(sw.step(false), SwitchAction::RestoreOld(s) if s == "A+B"));
    assert!(matches!(sw.step(true), SwitchAction::Failed(s) if s == "C+D"));
    assert_eq!(sw.stage, SwitchStage::Failed);
}
