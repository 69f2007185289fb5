use vstd::prelude::*;
use crate::models::Platform;

verus! {

/// A key that the paste sequence presses.
#[derive(Clone, Copy, Debug, PartialEq, Eq, Structural)]
pub enum PasteKey {
    Meta,
    Control,
    Tab,
    V,
}

/// One step of the keystrokes that paste into the application in front.
#[derive(Clone, Copy, Debug, PartialEq, Eq, Structural)]
pub enum PasteStep {
    Press(PasteKey),
    Click(PasteKey),
    Release(PasteKey),
    SleepMillis(u64),
}

/// The keystrokes that paste on `platform`. On macOS: Cmd+Tab back to the
/// previous application, a pause of 300 ms, then Cmd+V. Elsewhere: a pause of
/// 150 ms for the panel to hide, then Ctrl+V.
pub open spec fn paste_plan(platform: Platform) -> Seq<PasteStep> {
    if platform == Platform::MacOs {
        seq![
            PasteStep::Press(PasteKey::Meta),
            PasteStep::Click(PasteKey::Tab),
            PasteStep::Release(PasteKey::Meta),
            PasteStep::SleepMillis(300),
            PasteStep::Press(PasteKey::Meta),
            PasteStep::Click(PasteKey::V),
            PasteStep::Release(PasteKey::Meta),
        ]
    } else {
        seq![
            PasteStep::SleepMillis(150),
            PasteStep::Press(PasteKey::Control),
            PasteStep::Click(PasteKey::V),
            PasteStep::Release(PasteKey::Control),
        ]
    }
}

/// The keystrokes that paste the clipboard into the application in front.
pub fn paste_steps(platform: Platform) -> (res: Vec<PasteStep>)
    ensures
        res@ == paste_plan(platform),
{
    let mut steps: Vec<PasteStep> = Vec::new();
    match platform {
        Platform::MacOs => {
            steps.push(PasteStep::Press(PasteKey::Meta));
            steps.push(PasteStep::Click(PasteKey::Tab));
            steps.push(PasteStep::Release(PasteKey::Meta));
            steps.push(PasteStep::SleepMillis(300));
            steps.push(PasteStep::Press(PasteKey::Meta));
            steps.push(PasteStep::Click(PasteKey::V));
            steps.push(PasteStep::Release(PasteKey::Meta));
        },
        _ => {
            steps.push(PasteStep::SleepMillis(150));
            steps.push(PasteStep::Press(PasteKey::Control));
            steps.push(PasteStep::Click(PasteKey::V));
            steps.push(PasteStep::Release(PasteKey::Control));
        },
    }
    assert(steps@ =~= paste_plan(platform));
    steps
}

} // verus!
