//! The keyboard-shortcut setup as a sequence of decisions: each answer from
//! the desktop or the user moves the wizard on and says what to do next.
use vstd::prelude::*;
use crate::shortcut::{
    combo_from_input, desktop_name, fallback_specs, first_free, normalized_of, parse_combo,
    reload_hint, reload_hint_for, resolve_conflict, title_of, ConflictResolution, DesktopEnv,
    KeyCombo,
};
use crate::text::{concat, owned};

verus! {

/// Where the shortcut setup stands.
#[derive(Debug)]
pub enum ShortcutWizard {
    /// Nothing asked yet: the desktop environment is to be detected.
    Start,
    /// The user is asked whether to set up a shortcut.
    Confirming(DesktopEnv),
    /// The user is asked for a key combo.
    Choosing(DesktopEnv),
    /// The desktop is asked whether the combo is already bound.
    Checking(DesktopEnv, KeyCombo),
    /// The user is offered a free fallback combo.
    Offering(DesktopEnv, KeyCombo),
    /// The shortcut is being written.
    Writing(DesktopEnv, KeyCombo),
    /// The setup is over.
    Done,
}

/// What the outside world answered.
#[derive(Debug)]
pub enum ShortcutEvent {
    /// The desktop environment was detected.
    Detected(DesktopEnv),
    /// The user answered a yes/no question.
    Confirmed(bool),
    /// The user typed a key combo (possibly nothing).
    Typed(String),
    /// The conflict check found the combo bound by this name, or free.
    ConflictFound(Option<String>),
    /// The shortcut was written, to this file when it went to a file.
    Written(Option<String>),
}

/// What to do next.
#[derive(Debug)]
pub enum ShortcutAction {
    /// Say that the desktop environment is not supported, and stop.
    ReportUnknownDesktop,
    /// Show the desktop environment and ask whether to set up a shortcut.
    AskToSetUp(DesktopEnv),
    /// Ask for a key combo; `retry` after an invalid one.
    AskForCombo { retry: bool },
    /// Ask the desktop whether the combo is already bound.
    CheckConflict(DesktopEnv, KeyCombo),
    /// Tell which binding holds `combo` and offer `suggestion` instead.
    OfferSuggestion { combo: String, taken_by: String, suggestion: String },
    /// Suggest running the setup again with another combo, and stop.
    SuggestRerun,
    /// Say that every fallback combo is taken, and stop.
    ReportAllTaken,
    /// Write the shortcut for the combo.
    Write(DesktopEnv, KeyCombo),
    /// Report the shortcut set up, where it went, and how to activate it.
    ReportSuccess { desktop: String, combo: String, details: String, hint: String },
    /// Stop without doing anything more.
    Stop,
}

/// What the line describing where a shortcut went says.
pub open spec fn written_details(file: Option<Seq<char>>) -> Seq<char> {
    match file {
        Some(p) => "Added to "@ + p,
        None => "Added to GNOME custom keybindings."@,
    }
}

/// The combo that the typed text asks for: "Super+Shift+T" when nothing
/// was typed.
pub open spec fn requested_combo(input: Seq<char>) -> Option<(Seq<Seq<char>>, Seq<char>)> {
    parse_combo(
        if input.len() == 0 {
            "Super+Shift+T"@
        } else {
            input
        },
    )
}

impl KeyCombo {
    /// A copy of this combo.
    pub fn duplicate(&self) -> (r: KeyCombo)
        ensures
            r@ == self@,
    {
        KeyCombo { modifiers: self.modifiers.clone(), key: self.key.clone() }
    }
}

/// Moves the shortcut setup on: from where it stands and what the outside
/// world answered, where it stands next and what to do. An answer that does
/// not fit the step ends the setup.
pub fn shortcut_step(state: ShortcutWizard, event: ShortcutEvent) -> (r: (ShortcutWizard, ShortcutAction))
    ensures
        match (state, event) {
            (ShortcutWizard::Start, ShortcutEvent::Detected(de)) => if de == DesktopEnv::Unknown {
                r.0 is Done && r.1 is ReportUnknownDesktop
            } else {
                r.0 == ShortcutWizard::Confirming(de) && r.1 == ShortcutAction::AskToSetUp(de)
            },
            (ShortcutWizard::Confirming(de), ShortcutEvent::Confirmed(yes)) => if yes {
                r.0 == ShortcutWizard::Choosing(de) && r.1 == (ShortcutAction::AskForCombo { retry: false })
            } else {
                r.0 is Done && r.1 is Stop
            },
            (ShortcutWizard::Choosing(de), ShortcutEvent::Typed(input)) => match requested_combo(
                input@,
            ) {
                Some(c) => (r.0 matches ShortcutWizard::Checking(d, k) && d == de && k@ == c) && (
                r.1 matches ShortcutAction::CheckConflict(d, k) && d == de && k@ == c),
                None => r.0 == ShortcutWizard::Choosing(de) && r.1 == (ShortcutAction::AskForCombo { retry: true }),
            },
            (ShortcutWizard::Checking(de, k), ShortcutEvent::ConflictFound(conflict)) => match conflict {
                None => (r.0 matches ShortcutWizard::Writing(d, w) && d == de && w@ == k@) && (
                r.1 matches ShortcutAction::Write(d, w) && d == de && w@ == k@),
                Some(t) => match first_free(fallback_specs(), seq![normalized_of(k@)]) {
                    Some(s) => (r.0 matches ShortcutWizard::Offering(d, w) && d == de && w@ == s)
                        && (r.1 matches ShortcutAction::OfferSuggestion {
                        combo,
                        taken_by,
                        suggestion,
                    } && combo@ == title_of(k@) && taken_by@ == t@ && suggestion@ == title_of(s)),
                    None => r.0 is Done && r.1 is ReportAllTaken,
                },
            },
            (ShortcutWizard::Offering(de, s), ShortcutEvent::Confirmed(yes)) => if yes {
                (r.0 matches ShortcutWizard::Writing(d, w) && d == de && w@ == s@) && (
                r.1 matches ShortcutAction::Write(d, w) && d == de && w@ == s@)
            } else {
                r.0 is Done && r.1 is SuggestRerun
            },
            (ShortcutWizard::Writing(de, k), ShortcutEvent::Written(file)) => r.0 is Done && (
            r.1 matches ShortcutAction::ReportSuccess { desktop, combo, details, hint }
                && desktop@ == desktop_name(de) && combo@ == title_of(k@) && details@
                == written_details(crate::session::opt_view(file)) && hint@ == reload_hint_for(
                de,
            )),
            _ => r.0 is Done && r.1 is Stop,
        },
{
    match (state, event) {
        (ShortcutWizard::Start, ShortcutEvent::Detected(de)) => {
            if de == DesktopEnv::Unknown {
                (ShortcutWizard::Done, ShortcutAction::ReportUnknownDesktop)
            } else {
                (ShortcutWizard::Confirming(de), ShortcutAction::AskToSetUp(de))
            }
        },
        (ShortcutWizard::Confirming(de), ShortcutEvent::Confirmed(yes)) => {
            if yes {
                (ShortcutWizard::Choosing(de), ShortcutAction::AskForCombo { retry: false })
            } else {
                (ShortcutWizard::Done, ShortcutAction::Stop)
            }
        },
        (ShortcutWizard::Choosing(de), ShortcutEvent::Typed(input)) => {
            match combo_from_input(input.as_str()) {
                Some(c) => {
                    let k = c.duplicate();
                    (ShortcutWizard::Checking(de, c), ShortcutAction::CheckConflict(de, k))
                },
                None => (ShortcutWizard::Choosing(de), ShortcutAction::AskForCombo { retry: true }),
            }
        },
        (ShortcutWizard::Checking(de, k), ShortcutEvent::ConflictFound(conflict)) => {
            let combo = k.to_string();
            let w = k.duplicate();
            match resolve_conflict(k, conflict) {
                ConflictResolution::Free(c) => (ShortcutWizard::Writing(de, c), ShortcutAction::Write(de, w)),
                ConflictResolution::Suggest { taken_by, suggestion: s } => {
                    let suggestion = s.to_string();
                    (
                        ShortcutWizard::Offering(de, s),
                        ShortcutAction::OfferSuggestion { combo, taken_by, suggestion },
                    )
                },
                ConflictResolution::NoFallback => (ShortcutWizard::Done, ShortcutAction::ReportAllTaken),
            }
        },
        (ShortcutWizard::Offering(de, s), ShortcutEvent::Confirmed(yes)) => {
            if yes {
                let w = s.duplicate();
                (ShortcutWizard::Writing(de, s), ShortcutAction::Write(de, w))
            } else {
                (ShortcutWizard::Done, ShortcutAction::SuggestRerun)
            }
        },
        (ShortcutWizard::Writing(de, k), ShortcutEvent::Written(file)) => {
            let details = match file {
                Some(p) => concat("Added to ", p.as_str()),
                None => owned("Added to GNOME custom keybindings."),
            };
            (
                ShortcutWizard::Done,
                ShortcutAction::ReportSuccess {
                    desktop: de.to_string(),
                    combo: k.to_string(),
                    details,
                    hint: owned(reload_hint(de)),
                },
            )
        },
        _ => (ShortcutWizard::Done, ShortcutAction::Stop),
    }
}

/// The combo offered in place of a taken one is never the taken combo
/// itself (compared in normalized form), and it is one of the fallback
/// combos.
pub proof fn law_suggestion_differs(k: (Seq<Seq<char>>, Seq<char>))
    ensures
        match first_free(fallback_specs(), seq![normalized_of(k)]) {
            Some(s) => normalized_of(s) != normalized_of(k) && exists|i: int|
                0 <= i < fallback_specs().len() && #[trigger] parse_combo(fallback_specs()[i])
                    == Some(s),
            None => true,
        },
{
    crate::shortcut::law_first_free_is_free(fallback_specs(), seq![normalized_of(k)]);
    match first_free(fallback_specs(), seq![normalized_of(k)]) {
        Some(s) => {
            assert(seq![normalized_of(k)][0] == normalized_of(k));
            assert(seq![normalized_of(k)].contains(normalized_of(k)));
        },
        None => {},
    }
}

} // verus!
