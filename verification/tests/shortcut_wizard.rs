use tmuxido::shortcut::DesktopEnv;
use tmuxido::shortcut_wizard::{shortcut_step, ShortcutAction, ShortcutEvent, ShortcutWizard};

#[test]
fn unknown_desktop_stops_the_setup() {
    let (s, a) = shortcut_step(ShortcutWizard::Start, ShortcutEvent::Detected(DesktopEnv::Unknown));
    assert!(matches!(s, ShortcutWizard::Done));
    assert!(matches!(a, ShortcutAction::ReportUnknownDesktop));
}

#[test]
fn declining_the_setup_stops() {
    let (s, a) = shortcut_step(ShortcutWizard::Start, ShortcutEvent::Detected(DesktopEnv::Kde));
    assert!(matches!(s, ShortcutWizard::Confirming(DesktopEnv::Kde)));
    assert!(matches!(a, ShortcutAction::AskToSetUp(DesktopEnv::Kde)));
    let (s, a) = shortcut_step(s, ShortcutEvent::Confirmed(false));
    assert!(matches!(s, ShortcutWizard::Done));
    assert!(matches!(a, ShortcutAction::Stop));
}

#[test]
fn free_combo_is_written_and_reported() {
    let (s, _) = shortcut_step(ShortcutWizard::Start, ShortcutEvent::Detected(DesktopEnv::Hyprland));
    let (s, a) = shortcut_step(s, ShortcutEvent::Confirmed(true));
    assert!(matches!(a, ShortcutAction::AskForCombo { retry: false }));
    let (s, a) = shortcut_step(s, ShortcutEvent::Typed("bogus".to_string()));
    assert!(matches!(a, ShortcutAction::AskForCombo { retry: true }));
    let (s, a) = shortcut_step(s, ShortcutEvent::Typed(String::new()));
    match a {
        ShortcutAction::CheckConflict(DesktopEnv::Hyprland, c) => {
            assert_eq!(c.normalized(), "SUPER+SHIFT+T")
        }
        _ => panic!("expected a conflict check"),
    }
    let (s, a) = shortcut_step(s, ShortcutEvent::ConflictFound(None));
    match a {
        ShortcutAction::Write(DesktopEnv::Hyprland, c) => assert_eq!(c.to_hyprland(), "SUPER SHIFT, T"),
        _ => panic!("expected a write"),
    }
    let (s, a) = shortcut_step(s, ShortcutEvent::Written(Some("/h/hypr/bindings.conf".to_string())));
    assert!(matches!(s, ShortcutWizard::Done));
    match a {
        ShortcutAction::ReportSuccess { desktop, combo, details, hint } => {
            assert_eq!(desktop, "Hyprland");
            assert_eq!(combo, "Super+Shift+T");
            assert_eq!(details, "Added to /h/hypr/bindings.conf");
            assert_eq!(hint, "Reload Hyprland with Super+Shift+R to activate.");
        }
        _ => panic!("expected a success report"),
    }
}

#[test]
fn taken_combo_offers_a_fallback() {
    let (s, _) = shortcut_step(ShortcutWizard::Start, ShortcutEvent::Detected(DesktopEnv::Gnome));
    let (s, _) = shortcut_step(s, ShortcutEvent::Confirmed(true));
    let (s, _) = shortcut_step(s, ShortcutEvent::Typed("super+shift+t".to_string()));
    let (s, a) = shortcut_step(s, ShortcutEvent::ConflictFound(Some("Terminal".to_string())));
    match a {
        ShortcutAction::OfferSuggestion { combo, taken_by, suggestion } => {
            assert_eq!(combo, "Super+Shift+T");
            assert_eq!(taken_by, "Terminal");
            assert_eq!(suggestion, "Super+Shift+P");
        }
        _ => panic!("expected a suggestion"),
    }
    let (s, a) = shortcut_step(s, ShortcutEvent::Confirmed(true));
    match a {
        ShortcutAction::Write(DesktopEnv::Gnome, c) => assert_eq!(c.normalized(), "SUPER+SHIFT+P"),
        _ => panic!("expected a write"),
    }
    let (_, a) = shortcut_step(s, ShortcutEvent::Written(None));
    match a {
        ShortcutAction::ReportSuccess { details, hint, .. } => {
            assert_eq!(details, "Added to GNOME custom keybindings.");
            assert_eq!(hint, "The shortcut is active immediately.");
        }
        _ => panic!("expected a success report"),
    }
}

#[test]
fn refusing_the_fallback_suggests_a_rerun() {
    let (s, _) = shortcut_step(ShortcutWizard::Start, ShortcutEvent::Detected(DesktopEnv::Kde));
    let (s, _) = shortcut_step(s, ShortcutEvent::Confirmed(true));
    let (s, _) = shortcut_step(s, ShortcutEvent::Typed("Super+Ctrl+K".to_string()));
    let (s, a) = shortcut_step(s, ShortcutEvent::ConflictFound(Some("myapp".to_string())));
    match a {
        ShortcutAction::OfferSuggestion { suggestion, .. } => assert_eq!(suggestion, "Super+Shift+T"),
        _ => panic!("expected a suggestion"),
    }
    let (s, a) = shortcut_step(s, ShortcutEvent::Confirmed(false));
    assert!(matches!(s, ShortcutWizard::Done));
    assert!(matches!(a, ShortcutAction::SuggestRerun));
}

#[test]
fn an_answer_out_of_turn_ends_the_setup() {
    let (s, a) = shortcut_step(ShortcutWizard::Start, ShortcutEvent::Confirmed(true));
    assert!(matches!(s, ShortcutWizard::Done));
    assert!(matches!(a, ShortcutAction::Stop));
}
