use tmuxido::session::Window;
use tmuxido::summary::{config_summary, Tone};

fn texts(lines: &[Vec<tmuxido::summary::Piece>]) -> Vec<String> {
    lines
        .iter()
        .map(|l| l.iter().map(|p| p.text.clone()).collect::<String>())
        .collect()
}

#[test]
fn summary_lists_settings_paths_and_windows() {
    let windows = vec![
        Window {
            name: "editor".to_string(),
            panes: vec!["nvim".to_string(), "".to_string()],
            layout: None,
        },
        Window { name: "git".to_string(), panes: vec![], layout: None },
    ];
    let lines = config_summary(&["~/Projects".to_string()], 5, true, 24, &windows);
    assert_eq!(
        texts(&lines),
        vec![
            "",
            "  ✅ Configuration saved!",
            "",
            "  📁 Project Discovery:",
            "    Max scan depth: 5 levels",
            "",
            "  📂 Directories:",
            "    • ~/Projects",
            "",
            "  💾 Cache Settings:",
            "    Status: enabled",
            "    TTL: 24 hours",
            "",
            "  🪟 Default Windows:",
            "    ◦ editor",
            "    └─ pane 1: nvim",
            "    └─ pane 2 (shell)",
            "    ◦ git",
            "",
            "  ⚙️  You can edit ~/.config/tmuxido/tmuxido.toml anytime to change these settings.",
            "",
        ]
    );
    assert_eq!(lines[10][3].tone, Tone::Enabled);
    assert_eq!(lines[4][3].tone, Tone::Value);
}

#[test]
fn summary_without_cache_has_no_lifetime() {
    let lines = config_summary(&[], 3, false, 24, &[]);
    let t = texts(&lines);
    assert!(t.contains(&"    Status: disabled".to_string()));
    assert!(!t.iter().any(|l| l.contains("TTL")));
    assert_eq!(lines[9][3].tone, Tone::Disabled);
}

#[test]
fn summary_shows_a_window_layout() {
    let windows = vec![Window {
        name: "main".to_string(),
        panes: vec!["vim".to_string(), "".to_string()],
        layout: Some("tiled".to_string()),
    }];
    let lines = config_summary(&[], 5, false, 24, &windows);
    let t = texts(&lines);
    let at = t.iter().position(|l| l == "    ◦ main").unwrap();
    assert_eq!(t[at + 1], "    └─ pane 1: vim");
    assert_eq!(t[at + 2], "    └─ pane 2 (shell)");
    assert_eq!(t[at + 3], "    └─ layout: tiled");
    assert_eq!(lines[at + 3][0].tone, Tone::Info);
}
