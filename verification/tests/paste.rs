use pastoid::models::Platform;
use pastoid::paste::{paste_steps, PasteKey, PasteStep};

#[test]
fn paste_steps_per_platform() {
    assert_eq!(
        paste_steps(Platform::MacOs),
        vec![
            PasteStep::Press(PasteKey::Meta),
            PasteStep::Click(PasteKey::Tab),
            PasteStep::Release(PasteKey::Meta),
            PasteStep::SleepMillis(300),
            PasteStep::Press(PasteKey::Meta),
            PasteStep::Click(PasteKey::V),
            PasteStep::Release(PasteKey::Meta),
        ]
    );
    assert_eq!(
        paste_steps(Platform::Linux),
        vec![
            PasteStep::SleepMillis(150),
            PasteStep::Press(PasteKey::Control),
            PasteStep::Click(PasteKey::V),
            PasteStep::Release(PasteKey::Control),
        ]
    );
    assert_eq!(paste_steps(Platform::Windows), paste_steps(Platform::Linux));
}
