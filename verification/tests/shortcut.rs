use tmuxido::shortcut::{
    combo_from_input, detect_from, fallback_combos, find_free_combo, first_free_slot,
    gnome_binding_matches, gnome_conflict_name, gnome_shortcut_calls, gnome_slot_path,
    gnome_slot_schema_of, gsettings_list_value, has_tmuxido_section, hyprland_binding_line,
    hyprland_conflict_in, hyprland_conflict_in_json, hyprland_launch_command, hyprland_modmask, icon_download_args,
    icon_install_path_from, kde_conflict_in, kde_shortcut_entry, kde_shortcuts_path_from,
    mentions_tmuxido, parse_gsettings_list, reload_hint, resolve_conflict, theme_dir,
    desktop_file_path_from, hyprland_bindings_path_from, ConflictResolution, DesktopEnv, HyprBind,
    KeyCombo, DESKTOP_CONTENT, ICON_URL,
};
use tmuxido::config::DirError;

// --- detect_desktop ---

#[test]
fn should_detect_hyprland_from_xdg_var() {
    assert_eq!(detect_from("Hyprland", false), DesktopEnv::Hyprland);
    assert_eq!(detect_from("hyprland", false), DesktopEnv::Hyprland);
    assert_eq!(detect_from("HYPRLAND", false), DesktopEnv::Hyprland);
}

#[test]
fn should_detect_hyprland_from_signature_even_without_xdg() {
    assert_eq!(detect_from("", true), DesktopEnv::Hyprland);
    assert_eq!(detect_from("somethingelse", true), DesktopEnv::Hyprland);
}

#[test]
fn should_detect_gnome() {
    assert_eq!(detect_from("GNOME", false), DesktopEnv::Gnome);
    assert_eq!(detect_from("gnome", false), DesktopEnv::Gnome);
    assert_eq!(detect_from("ubuntu:GNOME", false), DesktopEnv::Gnome);
}

#[test]
fn should_detect_kde_from_kde_xdg() {
    assert_eq!(detect_from("KDE", false), DesktopEnv::Kde);
    assert_eq!(detect_from("kde", false), DesktopEnv::Kde);
}

#[test]
fn should_detect_kde_from_plasma_xdg() {
    assert_eq!(detect_from("Plasma", false), DesktopEnv::Kde);
    assert_eq!(detect_from("plasma", false), DesktopEnv::Kde);
}

#[test]
fn should_return_unknown_for_unrecognized_de() {
    assert_eq!(detect_from("", false), DesktopEnv::Unknown);
    assert_eq!(detect_from("i3", false), DesktopEnv::Unknown);
    assert_eq!(detect_from("sway", false), DesktopEnv::Unknown);
}

#[test]
fn desktop_names_are_shown_as_written() {
    assert_eq!(DesktopEnv::Hyprland.to_string(), "Hyprland");
    assert_eq!(DesktopEnv::Gnome.to_string(), "GNOME");
    assert_eq!(DesktopEnv::Kde.to_string(), "KDE");
    assert_eq!(DesktopEnv::Unknown.to_string(), "Unknown");
}

// --- KeyCombo::parse ---

#[test]
fn should_parse_title_case_combo() {
    let c = KeyCombo::parse("Super+Shift+T").unwrap();
    assert_eq!(c.modifiers, vec!["SUPER", "SHIFT"]);
    assert_eq!(c.key, "T");
}

#[test]
fn should_parse_lowercase_combo() {
    let c = KeyCombo::parse("super+shift+t").unwrap();
    assert_eq!(c.modifiers, vec!["SUPER", "SHIFT"]);
    assert_eq!(c.key, "T");
}

#[test]
fn should_parse_uppercase_combo() {
    let c = KeyCombo::parse("SUPER+SHIFT+T").unwrap();
    assert_eq!(c.modifiers, vec!["SUPER", "SHIFT"]);
    assert_eq!(c.key, "T");
}

#[test]
fn should_parse_three_modifier_combo() {
    let c = KeyCombo::parse("Super+Ctrl+Alt+F").unwrap();
    assert_eq!(c.modifiers, vec!["SUPER", "CTRL", "ALT"]);
    assert_eq!(c.key, "F");
}

#[test]
fn should_return_none_for_key_only() {
    assert!(KeyCombo::parse("T").is_none());
}

#[test]
fn should_return_none_for_empty_input() {
    assert!(KeyCombo::parse("").is_none());
    assert!(KeyCombo::parse("   ").is_none());
}

#[test]
fn should_trim_whitespace_in_parts() {
    let c = KeyCombo::parse(" Super + Shift + T ").unwrap();
    assert_eq!(c.modifiers, vec!["SUPER", "SHIFT"]);
    assert_eq!(c.key, "T");
}

#[test]
fn parse_drops_empty_modifiers_and_rejects_empty_key() {
    let c = KeyCombo::parse("Super++T").unwrap();
    assert_eq!(c.modifiers, vec!["SUPER"]);
    assert_eq!(c.key, "T");
    assert!(KeyCombo::parse("Super+").is_none());
    assert!(KeyCombo::parse("+T").is_none());
}

// --- KeyCombo formatting ---

#[test]
fn should_format_for_hyprland() {
    let c = KeyCombo::parse("Super+Shift+T").unwrap();
    assert_eq!(c.to_hyprland(), "SUPER SHIFT, T");
}

#[test]
fn should_format_single_modifier_for_hyprland() {
    let c = KeyCombo::parse("Super+T").unwrap();
    assert_eq!(c.to_hyprland(), "SUPER, T");
}

#[test]
fn should_format_for_gnome() {
    let c = KeyCombo::parse("Super+Shift+T").unwrap();
    assert_eq!(c.to_gnome(), "<Super><Shift>t");
}

#[test]
fn should_format_ctrl_for_gnome() {
    let c = KeyCombo::parse("Super+Ctrl+P").unwrap();
    assert_eq!(c.to_gnome(), "<Super><Ctrl>p");
}

#[test]
fn should_format_for_kde() {
    let c = KeyCombo::parse("Super+Shift+T").unwrap();
    assert_eq!(c.to_kde(), "Meta+Shift+T");
}

#[test]
fn should_map_super_to_meta_for_kde() {
    let c = KeyCombo::parse("Super+Ctrl+P").unwrap();
    assert_eq!(c.to_kde(), "Meta+Ctrl+P");
}

#[test]
fn should_display_in_title_case() {
    let c = KeyCombo::parse("SUPER+SHIFT+T").unwrap();
    assert_eq!(c.to_string(), "Super+Shift+T");
}

// --- hyprland_modmask ---

#[test]
fn should_calculate_modmask_for_super_shift() {
    let c = KeyCombo::parse("Super+Shift+T").unwrap();
    assert_eq!(hyprland_modmask(&c), 64 + 1);
}

#[test]
fn should_calculate_modmask_for_super_only() {
    let c = KeyCombo::parse("Super+T").unwrap();
    assert_eq!(hyprland_modmask(&c), 64);
}

#[test]
fn should_calculate_modmask_for_ctrl_alt() {
    let c = KeyCombo::parse("Ctrl+Alt+T").unwrap();
    assert_eq!(hyprland_modmask(&c), 4 + 8);
}

#[test]
fn modmask_ignores_unknown_and_counts_repeats_once() {
    let c = KeyCombo::parse("Hyper+Super+Super+T").unwrap();
    assert_eq!(hyprland_modmask(&c), 64);
}

// --- find_free_combo ---

#[test]
fn should_return_first_fallback_when_nothing_taken() {
    let combo = find_free_combo(&[]).unwrap();
    assert_eq!(combo.normalized(), "SUPER+SHIFT+T");
}

#[test]
fn should_skip_taken_combos() {
    let taken = vec!["SUPER+SHIFT+T".to_string(), "SUPER+SHIFT+P".to_string()];
    let combo = find_free_combo(&taken).unwrap();
    assert_eq!(combo.normalized(), "SUPER+CTRL+T");
}

#[test]
fn should_return_none_when_all_fallbacks_taken() {
    let taken: Vec<String> = fallback_combos()
        .iter()
        .map(|s| KeyCombo::parse(s).unwrap().normalized())
        .collect();
    assert!(find_free_combo(&taken).is_none());
}

// --- parse_gsettings_list ---

#[test]
fn should_parse_empty_gsettings_list() {
    assert!(parse_gsettings_list("[]").is_empty());
    assert!(parse_gsettings_list("@as []").is_empty());
    assert!(parse_gsettings_list("  [ ]  ").is_empty());
}

#[test]
fn should_parse_gsettings_list_with_one_entry() {
    let result =
        parse_gsettings_list("['/org/gnome/settings-daemon/plugins/media-keys/custom0/']");
    assert_eq!(
        result,
        vec!["/org/gnome/settings-daemon/plugins/media-keys/custom0/"]
    );
}

#[test]
fn should_parse_gsettings_list_with_multiple_entries() {
    let result = parse_gsettings_list("['/org/gnome/.../custom0/', '/org/gnome/.../custom1/']");
    assert_eq!(result.len(), 2);
    assert_eq!(result[0], "/org/gnome/.../custom0/");
    assert_eq!(result[1], "/org/gnome/.../custom1/");
}

#[test]
fn gsettings_list_reads_back_what_was_written() {
    let items = vec!["/a/custom0/".to_string(), "/a/custom1/".to_string()];
    let value = gsettings_list_value(&items);
    assert_eq!(value, "['/a/custom0/', '/a/custom1/']");
    assert_eq!(parse_gsettings_list(&value), items);
    assert_eq!(gsettings_list_value(&[]), "[]");
}

// --- normalized ---

#[test]
fn should_normalize_to_uppercase_plus_separated() {
    let c = KeyCombo::parse("super+shift+t").unwrap();
    assert_eq!(c.normalized(), "SUPER+SHIFT+T");
}

// --- KDE ---

#[test]
fn kde_conflict_names_the_section_that_binds_the_combo() {
    let content = "[myapp]\nLaunch Something=Meta+Shift+T,none,Launch Something\n";
    let combo = KeyCombo::parse("Super+Shift+T").unwrap();
    assert_eq!(kde_conflict_in(content, &combo), Some("myapp".to_string()));
}

#[test]
fn kde_conflict_is_none_for_free_binding() {
    let content = "[myapp]\nLaunch Something=Meta+Ctrl+T,none,Launch Something\n";
    let combo = KeyCombo::parse("Super+Shift+T").unwrap();
    assert!(kde_conflict_in(content, &combo).is_none());
    assert!(kde_conflict_in("", &combo).is_none());
}

#[test]
fn kde_entry_has_section_combo_and_description() {
    let combo = KeyCombo::parse("Super+Shift+T").unwrap();
    let entry = kde_shortcut_entry(&combo);
    assert_eq!(
        entry,
        "\n[tmuxido]\nLaunch Tmuxido=Meta+Shift+T,none,Launch Tmuxido\n"
    );
    assert!(has_tmuxido_section(&entry));
    assert!(!has_tmuxido_section("[myapp]\n"));
    assert_eq!(kde_conflict_in(&entry, &combo), Some("tmuxido".to_string()));
}

// --- Hyprland ---

#[test]
fn hyprland_line_starts_with_bindd_and_mentions_tmuxido() {
    let combo = KeyCombo::parse("Super+Shift+T").unwrap();
    let line = hyprland_binding_line(&combo, hyprland_launch_command(false));
    assert_eq!(
        line,
        "bindd = SUPER SHIFT, T, Tmuxido, exec, xdg-terminal-exec -e tmuxido\n"
    );
    assert!(mentions_tmuxido(&line));
    assert!(!mentions_tmuxido("bind = SUPER, Q, killactive\n"));
    assert_eq!(hyprland_launch_command(true), "omarchy-launch-tui tmuxido");
}

fn bind(modmask: u64, key: &str, desc: Option<&str>, dispatcher: &str) -> HyprBind {
    HyprBind {
        modmask: Some(modmask),
        key: Some(key.to_string()),
        has_description: Some(desc.is_some()),
        description: desc.map(|d| d.to_string()),
        dispatcher: Some(dispatcher.to_string()),
    }
}

#[test]
fn hyprland_conflict_uses_description_or_dispatcher() {
    let combo = KeyCombo::parse("Super+Shift+T").unwrap();
    let binds = vec![
        bind(64, "Q", Some("Close"), "killactive"),
        bind(65, "t", Some("Terminal"), "exec"),
    ];
    assert_eq!(hyprland_conflict_in(&binds, &combo), Some("Terminal".to_string()));
    let binds = vec![bind(65, "T", None, "exec")];
    assert_eq!(hyprland_conflict_in(&binds, &combo), Some("exec".to_string()));
    let binds = vec![bind(64, "T", None, "exec")];
    assert_eq!(hyprland_conflict_in(&binds, &combo), None);
}

#[test]
fn hyprland_conflict_passes_over_malformed_entries() {
    let combo = KeyCombo::parse("Super+Shift+T").unwrap();
    let mut malformed = bind(65, "T", Some("Broken"), "exec");
    malformed.modmask = None;
    let binds = vec![malformed, bind(65, "T", Some("Terminal"), "exec")];
    assert_eq!(hyprland_conflict_in(&binds, &combo), Some("Terminal".to_string()));
    let mut keyless = bind(65, "T", Some("Keyless"), "exec");
    keyless.key = None;
    assert_eq!(hyprland_conflict_in(&[keyless], &combo), None);
}

#[test]
fn hyprland_conflict_read_from_hyprctl_json() {
    let combo = KeyCombo::parse("Super+Shift+T").unwrap();
    let json = r#"[
        {"key": "Q", "dispatcher": "killactive"},
        {"modmask": 64, "key": "Q", "has_description": true, "description": "Close", "dispatcher": "killactive"},
        {"modmask": 65, "key": "t", "has_description": false, "description": "", "dispatcher": "exec"}
    ]"#;
    assert_eq!(hyprland_conflict_in_json(json, &combo), Some("exec".to_string()));
    let described = r#"[{"modmask": 65, "key": "T", "has_description": true, "description": "Terminal", "dispatcher": "exec"}]"#;
    assert_eq!(hyprland_conflict_in_json(described, &combo), Some("Terminal".to_string()));
    let other = r#"[{"modmask": 64, "key": "T", "dispatcher": "exec"}]"#;
    assert_eq!(hyprland_conflict_in_json(other, &combo), None);
    assert_eq!(hyprland_conflict_in_json("not json", &combo), None);
    assert_eq!(hyprland_conflict_in_json("{}", &combo), None);
}

// --- GNOME ---

#[test]
fn gnome_slots_and_schema() {
    assert_eq!(
        gnome_slot_path(3),
        "/org/gnome/settings-daemon/plugins/media-keys/custom-keybindings/custom3/"
    );
    assert_eq!(
        gnome_slot_schema_of("/p/custom0/"),
        "org.gnome.settings-daemon.plugins.media-keys.custom-keybindings:/p/custom0/"
    );
    assert_eq!(first_free_slot(&[]), 0);
    let taken = vec![gnome_slot_path(0), gnome_slot_path(2)];
    assert_eq!(first_free_slot(&taken), 1);
}

#[test]
fn gnome_calls_register_the_first_free_slot() {
    let combo = KeyCombo::parse("Super+Shift+T").unwrap();
    let calls = gnome_shortcut_calls(None, &combo);
    assert_eq!(calls.len(), 4);
    let schema =
        "org.gnome.settings-daemon.plugins.media-keys.custom-keybindings:/org/gnome/settings-daemon/plugins/media-keys/custom-keybindings/custom0/";
    assert_eq!(calls[0].args, vec!["set", schema, "name", "Tmuxido"]);
    assert_eq!(calls[1].args, vec!["set", schema, "binding", "<Super><Shift>t"]);
    assert_eq!(
        calls[2].args,
        vec!["set", schema, "command", "xdg-terminal-exec -e tmuxido"]
    );
    assert_eq!(
        calls[3].args,
        vec![
            "set",
            "org.gnome.settings-daemon.plugins.media-keys",
            "custom-keybindings",
            "['/org/gnome/settings-daemon/plugins/media-keys/custom-keybindings/custom0/']"
        ]
    );
    assert_eq!(calls[3].context, "Failed to update GNOME custom keybindings list");
}

#[test]
fn gnome_binding_and_name() {
    let combo = KeyCombo::parse("Super+Shift+T").unwrap();
    assert!(gnome_binding_matches("'<Super><Shift>t'", &combo));
    assert!(!gnome_binding_matches("'<Super>t'", &combo));
    assert_eq!(gnome_conflict_name(Some("'Terminal'")), "Terminal");
    assert_eq!(gnome_conflict_name(None), "unknown");
}

// --- conflicts ---

#[test]
fn combo_from_input_defaults_to_super_shift_t() {
    assert_eq!(combo_from_input("").unwrap().normalized(), "SUPER+SHIFT+T");
    assert_eq!(combo_from_input("ctrl+k").unwrap().normalized(), "CTRL+K");
    assert!(combo_from_input("k").is_none());
}

#[test]
fn resolve_conflict_suggests_the_next_free_combo() {
    let combo = KeyCombo::parse("Super+Shift+T").unwrap();
    match resolve_conflict(combo.clone(), None) {
        ConflictResolution::Free(c) => assert_eq!(c.normalized(), "SUPER+SHIFT+T"),
        _ => panic!("expected a free combo"),
    }
    match resolve_conflict(combo, Some("Terminal".to_string())) {
        ConflictResolution::Suggest { taken_by, suggestion } => {
            assert_eq!(taken_by, "Terminal");
            assert_eq!(suggestion.normalized(), "SUPER+SHIFT+P");
        }
        _ => panic!("expected a suggestion"),
    }
}

#[test]
fn reload_hints() {
    assert_eq!(
        reload_hint(DesktopEnv::Hyprland),
        "Reload Hyprland with Super+Shift+R to activate."
    );
    assert_eq!(reload_hint(DesktopEnv::Unknown), "");
}

// --- paths ---

#[test]
fn shortcut_file_paths() {
    assert_eq!(
        hyprland_bindings_path_from(Some("/home/u/.config".to_string())),
        Ok("/home/u/.config/hypr/bindings.conf".to_string())
    );
    assert_eq!(
        kde_shortcuts_path_from(Some("/home/u/.config".to_string())),
        Ok("/home/u/.config/kglobalshortcutsrc".to_string())
    );
    assert_eq!(
        desktop_file_path_from(Some("/home/u/.local/share".to_string())),
        Ok("/home/u/.local/share/applications/tmuxido.desktop".to_string())
    );
    assert_eq!(
        icon_install_path_from(Some("/d".to_string())),
        Ok("/d/icons/hicolor/96x96/apps/tmuxido.png".to_string())
    );
    assert_eq!(hyprland_bindings_path_from(None), Err(DirError::NoConfigDir));
    assert_eq!(desktop_file_path_from(None), Err(DirError::NoDataDir));
}

#[test]
fn icon_theme_dir_is_three_levels_up() {
    assert_eq!(
        theme_dir("/d/icons/hicolor/96x96/apps/tmuxido.png"),
        Some("/d/icons/hicolor".to_string())
    );
    assert_eq!(
        icon_download_args("/x.png"),
        vec!["-fsSL", ICON_URL, "-o", "/x.png"]
    );
}

// --- desktop integration ---

#[test]
fn desktop_content_contains_required_fields() {
    assert!(DESKTOP_CONTENT.contains("[Desktop Entry]"));
    assert!(DESKTOP_CONTENT.contains("Name=Tmuxido"));
    assert!(DESKTOP_CONTENT.contains("Exec=tmuxido"));
    assert!(DESKTOP_CONTENT.contains("Icon=tmuxido"));
    assert!(DESKTOP_CONTENT.contains("Type=Application"));
    assert!(DESKTOP_CONTENT.contains("Terminal=true"));
    assert!(DESKTOP_CONTENT.contains("StartupWMClass=tmuxido"));
}

#[test]
fn kde_entry_appended_to_a_file_reads_back_as_tmuxido() {
    let combo = KeyCombo::parse("Super+Alt+T").unwrap();
    let before = "[myapp]\r\nLaunch Something=Meta+Ctrl+T,none,Launch Something";
    assert!(kde_conflict_in(before, &combo).is_none());
    let after = format!("{}{}", before, kde_shortcut_entry(&combo));
    assert_eq!(kde_conflict_in(&after, &combo), Some("tmuxido".to_string()));
    assert!(has_tmuxido_section(&after));
}

#[test]
fn combo_reads_back_from_normalized_and_title_forms() {
    for input in ["super + shift + t", "Ctrl+Alt+Delete", "  win+F1 ", "SUPER+SHIFT+T"] {
        let c = KeyCombo::parse(input).unwrap();
        assert_eq!(KeyCombo::parse(&c.normalized()), Some(c.clone()));
        assert_eq!(KeyCombo::parse(&c.to_string()), Some(c.clone()));
    }
    let c = KeyCombo::parse("super+shift+t").unwrap();
    assert_eq!(c.normalized(), "SUPER+SHIFT+T");
    assert_eq!(c.to_string(), "Super+Shift+T");
}
