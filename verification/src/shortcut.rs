use vstd::prelude::*;
use crate::models::Platform;
use crate::text::{
    free_of, lemma_replace_all_absent, lemma_replace_all_keeps_free, lemma_replace_all_removes, replace_all, replace_str,
};

verus! {

/// A shortcut written with macOS key names, in the names that Windows and
/// Linux use: `Cmd` becomes `Ctrl` and `Option` becomes `Alt`.
pub open spec fn normalized_shortcut(s: Seq<char>) -> Seq<char> {
    replace_all(replace_all(s, "Cmd"@, "Ctrl"@), "Option"@, "Alt"@)
}

/// The shortcut in the key names of Windows and Linux: every `Cmd` becomes
/// `Ctrl`, then every `Option` becomes `Alt`. This is the rewrite for those
/// platforms; `normalize_shortcut_for` picks by platform and leaves the
/// shortcut unchanged on macOS.
pub fn normalize_shortcut(shortcut: &str) -> (res: String)
    ensures
        res@ == normalized_shortcut(shortcut@),
{
    proof {
        reveal_strlit("Cmd");
        reveal_strlit("Option");
    }
    let step = replace_str(shortcut, "Cmd", "Ctrl");
    replace_str(step.as_str(), "Option", "Alt")
}

/// The shortcut in the key names of `platform`: unchanged on macOS,
/// normalized elsewhere.
pub fn normalize_shortcut_for(shortcut: &str, platform: Platform) -> (res: String)
    ensures
        res@ == (if platform == Platform::MacOs {
            shortcut@
        } else {
            normalized_shortcut(shortcut@)
        }),
{
    match platform {
        Platform::MacOs => shortcut.to_owned(),
        _ => normalize_shortcut(shortcut),
    }
}

/// A shortcut normalized for Windows and Linux holds no macOS key name:
/// neither `Cmd` nor `Option` occurs in it.
pub proof fn lemma_normalized_has_no_macos_names(s: Seq<char>)
    ensures
        free_of(normalized_shortcut(s), "Cmd"@),
        free_of(normalized_shortcut(s), "Option"@),
{
    reveal_strlit("Cmd");
    reveal_strlit("Ctrl");
    reveal_strlit("Option");
    reveal_strlit("Alt");
    let cmd = "Cmd"@;
    let ctrl = "Ctrl"@;
    let option = "Option"@;
    let alt = "Alt"@;
    assert(cmd.len() == 3 && ctrl.len() == 4 && option.len() == 6 && alt.len() == 3);
    assert(cmd[0] == 'C' && cmd[1] == 'm' && cmd[2] == 'd');
    assert(ctrl[0] == 'C' && ctrl[1] == 't' && ctrl[2] == 'r' && ctrl[3] == 'l');
    assert(option[0] == 'O' && option[1] == 'p' && option[2] == 't' && option[3] == 'i'
        && option[4] == 'o' && option[5] == 'n');
    assert(alt[0] == 'A' && alt[1] == 'l' && alt[2] == 't');
    assert(ctrl[1] != cmd[1]);
    lemma_replace_all_removes(s, cmd, ctrl);
    let step = replace_all(s, cmd, ctrl);
    lemma_replace_all_keeps_free(step, option, alt, cmd);
    lemma_replace_all_removes(step, option, alt);
}

/// Normalizing a normalized shortcut changes nothing.
pub proof fn lemma_normalize_idempotent(s: Seq<char>)
    ensures
        normalized_shortcut(normalized_shortcut(s)) == normalized_shortcut(s),
{
    reveal_strlit("Cmd");
    reveal_strlit("Option");
    let n = normalized_shortcut(s);
    lemma_normalized_has_no_macos_names(s);
    lemma_replace_all_absent(n, "Cmd"@, "Ctrl"@);
    lemma_replace_all_absent(n, "Option"@, "Alt"@);
}

/// Where a change of the quick-paste shortcut stands.
#[derive(Clone, Copy, Debug, PartialEq, Eq, Structural)]
pub enum SwitchStage {
    Start,
    Unregistering,
    Registering,
    RollingBack,
    Done,
    Failed,
}

/// What the application is to do next when changing the shortcut.
#[derive(Debug)]
pub enum SwitchAction {
    /// Unregister the old shortcut (a failure is only reported).
    UnregisterOld(String),
    /// Register the new shortcut.
    RegisterNew(String),
    /// Registering the new shortcut failed: register the old one again.
    RestoreOld(String),
    /// The new shortcut is in place.
    Done,
    /// The new shortcut could not be registered; the old one was restored.
    Failed(String),
}

/// A change of the quick-paste shortcut from `old` to `new`, driven step by
/// step: unregister the old shortcut, register the new one, and when that
/// fails register the old one again and report the failure.
pub struct ShortcutSwitch {
    pub old: String,
    pub new: String,
    pub stage: SwitchStage,
}

impl ShortcutSwitch {
    /// A change that has not started.
    pub fn new(old: String, new: String) -> (res: Self)
        ensures
            res.old@ == old@,
            res.new@ == new@,
            res.stage == SwitchStage::Start,
    {
        ShortcutSwitch { old, new, stage: SwitchStage::Start }
    }

    /// The next action, given whether the previous action succeeded (the
    /// outcome of an unregistration or of a restoration does not matter).
    pub fn step(&mut self, succeeded: bool) -> (res: SwitchAction)
        ensures
            final(self).old@ == old(self).old@,
            final(self).new@ == old(self).new@,
            match old(self).stage {
                SwitchStage::Start => final(self).stage == SwitchStage::Unregistering && (res matches SwitchAction::UnregisterOld(s) && s@ == old(self).old@),
                SwitchStage::Unregistering => final(self).stage == SwitchStage::Registering && (res matches SwitchAction::RegisterNew(s) && s@ == old(self).new@),
                SwitchStage::Registering => if succeeded {
                    final(self).stage == SwitchStage::Done && (res is Done)
                } else {
                    final(self).stage == SwitchStage::RollingBack && (res matches SwitchAction::RestoreOld(s) && s@ == old(self).old@)
                },
                SwitchStage::RollingBack | SwitchStage::Failed => final(self).stage == SwitchStage::Failed && (res matches SwitchAction::Failed(s) && s@ == old(self).new@),
                SwitchStage::Done => final(self).stage == SwitchStage::Done && (res is Done),
            },
    {
        match self.stage {
            SwitchStage::Start => {
                self.stage = SwitchStage::Unregistering;
                SwitchAction::UnregisterOld(self.old.clone())
            },
            SwitchStage::Unregistering => {
                self.stage = SwitchStage::Registering;
                SwitchAction::RegisterNew(self.new.clone())
            },
            SwitchStage::Registering => {
                if succeeded {
                    self.stage = SwitchStage::Done;
                    SwitchAction::Done
                } else {
                    self.stage = SwitchStage::RollingBack;
                    SwitchAction::RestoreOld(self.old.clone())
                }
            },
            SwitchStage::RollingBack | SwitchStage::Failed => {
                self.stage = SwitchStage::Failed;
                SwitchAction::Failed(self.new.clone())
            },
            SwitchStage::Done => SwitchAction::Done,
        }
    }
}

} // verus!
