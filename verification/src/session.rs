//! The browsing state machine: one keypress in the editor session becomes
//! a selection move, an in-place cycle or toggle, a request to open a
//! modal editor, a status hint, a save request, or the end of the session.
//! The surrounding terminal loop performs what is requested and hands the
//! next key back.

use vstd::prelude::*;

use crate::edit::spec_cycle_value;
use crate::model::Config;
use crate::model::ConfigModel;
use crate::model::Value;
use crate::model::ValueModel;
use crate::nav::spec_move_down;
use crate::nav::spec_move_up;
use crate::store::spec_update_value;

verus! {

use vstd::string::StringExecFns;

/// A key as the browsing session sees it.
#[derive(Clone, Copy, Debug, PartialEq, Eq, Structural)]
pub enum SessionKey {
    Up,
    Down,
    /// Enter and Space act alike: cycle, toggle, or open the modal editor.
    Enter,
    Space,
    Left,
    Right,
    /// The explicit edit command: always routes toward the modal path.
    Edit,
    /// The explicit save command.
    Save,
    /// Ends the session.
    Quit,
    /// Anything unrecognized.
    Other,
}

/// What the session asks its surroundings to do after a keypress.
#[derive(Clone, Copy, Debug, PartialEq, Eq, Structural)]
pub enum SessionAction {
    /// Redraw the list.
    Redraw,
    /// Open the modal text editor on the selected entry.
    OpenTextEditor,
    /// Open the modal integer editor on the selected entry.
    OpenIntEditor,
    /// Hint that a choice is changed with the arrow keys.
    HintChoice,
    /// Hint that a color is changed with the arrow keys.
    HintColor,
    /// Hint that a boolean is toggled with the arrow keys.
    HintBoolean,
    /// Hint that a header is not editable.
    HintCategory,
    /// Persist now and report the result.
    SaveRequested,
    /// End the session.
    Quit,
    /// Nothing recognized: skip the redraw and idle briefly.
    Idle,
}

/// What one keypress leaves behind.
pub struct SessionOutcome {
    pub selected: usize,
    pub action: SessionAction,
    /// Persist once the action (a modal edit included) has finished.
    pub save: bool,
}

/// Where the selection stands after the keypress.
pub open spec fn spec_step_selected(m: ConfigModel, sel: int, key: SessionKey) -> int {
    match key {
        SessionKey::Up => if 0 <= sel < m.entries.len() {
            spec_move_up(m.entries, sel)
        } else {
            sel
        },
        SessionKey::Down => if 0 <= sel < m.entries.len() {
            spec_move_down(m.entries, sel)
        } else {
            sel
        },
        _ => sel,
    }
}

/// The configuration after the keypress: Enter, Space and Right cycle the
/// selected entry forward (toggling a boolean), Left cycles it backward;
/// every other key leaves the store alone, the modal paths included.
pub open spec fn spec_step_config(m: ConfigModel, sel: int, key: SessionKey) -> ConfigModel {
    match key {
        SessionKey::Enter | SessionKey::Space | SessionKey::Right => if 0 <= sel
            < m.entries.len() {
            spec_update_value(m, sel, spec_cycle_value(m.entries[sel].value, true))
        } else {
            m
        },
        SessionKey::Left => if 0 <= sel < m.entries.len() {
            spec_update_value(m, sel, spec_cycle_value(m.entries[sel].value, false))
        } else {
            m
        },
        _ => m,
    }
}

/// What the session asks for after the keypress.
pub open spec fn spec_step_action(m: ConfigModel, sel: int, key: SessionKey) -> SessionAction {
    match key {
        SessionKey::Up | SessionKey::Down => SessionAction::Redraw,
        SessionKey::Enter | SessionKey::Space => if 0 <= sel < m.entries.len() {
            match m.entries[sel].value {
                ValueModel::Text { .. } => SessionAction::OpenTextEditor,
                ValueModel::Integer { .. } => SessionAction::OpenIntEditor,
                ValueModel::Category => SessionAction::HintCategory,
                _ => SessionAction::Redraw,
            }
        } else {
            SessionAction::Redraw
        },
        SessionKey::Left | SessionKey::Right => SessionAction::Redraw,
        SessionKey::Edit => if 0 <= sel < m.entries.len() {
            match m.entries[sel].value {
                ValueModel::Text { .. } => SessionAction::OpenTextEditor,
                ValueModel::Integer { .. } => SessionAction::OpenIntEditor,
                ValueModel::Choice { .. } => SessionAction::HintChoice,
                ValueModel::Color { .. } => SessionAction::HintColor,
                ValueModel::Boolean { .. } => SessionAction::HintBoolean,
                ValueModel::Category => SessionAction::HintCategory,
            }
        } else {
            SessionAction::Redraw
        },
        SessionKey::Save => SessionAction::SaveRequested,
        SessionKey::Quit => SessionAction::Quit,
        SessionKey::Other => SessionAction::Idle,
    }
}

/// Whether the keypress asks for a persist under autosave: Enter and Space
/// do, once whatever they started has finished — except on a choice-like
/// entry with no options, where nothing happened at all.
pub open spec fn spec_step_save(
    m: ConfigModel,
    sel: int,
    key: SessionKey,
    autosave: bool,
) -> bool {
    match key {
        SessionKey::Enter | SessionKey::Space => autosave && !(0 <= sel < m.entries.len()
            && match m.entries[sel].value {
            ValueModel::Choice { options, .. } => options.len() == 0,
            ValueModel::Color { options, .. } => options.len() == 0,
            _ => false,
        }),
        _ => false,
    }
}

impl Config {
    /// One keypress in the browsing state.
    pub fn session_step(&mut self, selected: usize, key: SessionKey, autosave: bool) -> (out:
        SessionOutcome)
        ensures
            out.selected as int == spec_step_selected(old(self)@, selected as int, key),
            final(self)@ == spec_step_config(old(self)@, selected as int, key),
            out.action == spec_step_action(old(self)@, selected as int, key),
            out.save == spec_step_save(old(self)@, selected as int, key, autosave),
            old(self)@.wf() ==> final(self)@.wf(),
    {
        let n = self.entries.len();
        match key {
            SessionKey::Up => {
                let s = if selected < n {
                    self.move_up(selected)
                } else {
                    selected
                };
                SessionOutcome { selected: s, action: SessionAction::Redraw, save: false }
            },
            SessionKey::Down => {
                let s = if selected < n {
                    self.move_down(selected)
                } else {
                    selected
                };
                SessionOutcome { selected: s, action: SessionAction::Redraw, save: false }
            },
            SessionKey::Enter | SessionKey::Space => {
                let action = self.modal_or_redraw_action(selected);
                let skip_save = self.empty_options_at(selected);
                let _ = self.cycle_at(selected, true);
                SessionOutcome {
                    selected,
                    action,
                    save: autosave && !skip_save,
                }
            },
            SessionKey::Left => {
                let _ = self.cycle_at(selected, false);
                SessionOutcome { selected, action: SessionAction::Redraw, save: false }
            },
            SessionKey::Right => {
                let _ = self.cycle_at(selected, true);
                SessionOutcome { selected, action: SessionAction::Redraw, save: false }
            },
            SessionKey::Edit => {
                let action = if selected < n {
                    proof {
                        assert(self@.entries[selected as int] == self.entries@[selected as int]@);
                    }
                    match &self.entries[selected].value {
                        Value::Text { .. } => SessionAction::OpenTextEditor,
                        Value::Integer { .. } => SessionAction::OpenIntEditor,
                        Value::Choice { .. } => SessionAction::HintChoice,
                        Value::Color { .. } => SessionAction::HintColor,
                        Value::Boolean { .. } => SessionAction::HintBoolean,
                        Value::Category => SessionAction::HintCategory,
                    }
                } else {
                    SessionAction::Redraw
                };
                SessionOutcome { selected, action, save: false }
            },
            SessionKey::Save => {
                SessionOutcome { selected, action: SessionAction::SaveRequested, save: false }
            },
            SessionKey::Quit => {
                SessionOutcome { selected, action: SessionAction::Quit, save: false }
            },
            SessionKey::Other => {
                SessionOutcome { selected, action: SessionAction::Idle, save: false }
            },
        }
    }

    /// The action Enter or Space asks for, read off the selected entry's
    /// kind before the cycling step runs.
    fn modal_or_redraw_action(&self, selected: usize) -> (action: SessionAction)
        ensures
            action == spec_step_action(self@, selected as int, SessionKey::Enter),
    {
        if selected < self.entries.len() {
            proof {
                assert(self@.entries[selected as int] == self.entries@[selected as int]@);
            }
            match &self.entries[selected].value {
                Value::Text { .. } => SessionAction::OpenTextEditor,
                Value::Integer { .. } => SessionAction::OpenIntEditor,
                Value::Category => SessionAction::HintCategory,
                _ => SessionAction::Redraw,
            }
        } else {
            SessionAction::Redraw
        }
    }

    /// Whether the selected entry is a choice-like field with no options,
    /// on which Enter and Space do nothing at all.
    fn empty_options_at(&self, selected: usize) -> (r: bool)
        ensures
            r == (selected < self@.entries.len() && match self@.entries[selected as int].value {
                ValueModel::Choice { options, .. } => options.len() == 0,
                ValueModel::Color { options, .. } => options.len() == 0,
                _ => false,
            }),
    {
        if selected < self.entries.len() {
            proof {
                assert(self@.entries[selected as int] == self.entries@[selected as int]@);
            }
            match &self.entries[selected].value {
                Value::Choice { options, .. } => options.len() == 0,
                Value::Color { options, .. } => options.len() == 0,
                _ => false,
            }
        } else {
            false
        }
    }
}

/// The status hint a hint action shows, word for word.
pub fn hint_message(action: SessionAction) -> (r: Option<String>)
    ensures
        match action {
            SessionAction::HintChoice => r matches Some(s) && s@
                == "Use \u{2190}/\u{2192} or Enter to change this choice."@,
            SessionAction::HintColor => r matches Some(s) && s@
                == "Use \u{2190}/\u{2192} or Enter to change this color."@,
            SessionAction::HintBoolean => r matches Some(s) && s@
                == "Use \u{2190}/\u{2192} or Enter to toggle this boolean."@,
            SessionAction::HintCategory => r matches Some(s) && s@
                == "Category header (not editable)."@,
            _ => r is None,
        },
{
    match action {
        SessionAction::HintChoice => Some(
            String::from_str("Use \u{2190}/\u{2192} or Enter to change this choice."),
        ),
        SessionAction::HintColor => Some(
            String::from_str("Use \u{2190}/\u{2192} or Enter to change this color."),
        ),
        SessionAction::HintBoolean => Some(
            String::from_str("Use \u{2190}/\u{2192} or Enter to toggle this boolean."),
        ),
        SessionAction::HintCategory => Some(String::from_str("Category header (not editable).")),
        _ => None,
    }
}

} // verus!
