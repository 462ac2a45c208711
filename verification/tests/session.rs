use tmuxido::session::{SessionConfig, TmuxSession, Window};

#[test]
fn should_replace_dots_with_underscores_in_session_name() {
    let session = TmuxSession::new("/home/user/my.project");
    assert_eq!(session.session_name, "my_project");
}

#[test]
fn should_replace_spaces_with_dashes_in_session_name() {
    let session = TmuxSession::new("/home/user/my project");
    assert_eq!(session.session_name, "my-project");
}

#[test]
fn should_use_project_fallback_when_path_has_no_filename() {
    let session = TmuxSession::new("/");
    assert_eq!(session.session_name, "project");
}

#[test]
fn session_keeps_its_project_path() {
    let session = TmuxSession::new("/home/user/app");
    assert_eq!(session.session_name, "app");
    assert_eq!(session.project_path(), "/home/user/app");
    assert_eq!(session.has_session_command(), vec!["has-session", "-t", "app"]);
}

fn args(session: &TmuxSession, config: &SessionConfig, exists: bool, inside: bool) -> Vec<Vec<String>> {
    session
        .create_commands(config, exists, inside)
        .into_iter()
        .map(|c| c.args)
        .collect()
}

#[test]
fn existing_session_is_only_attached() {
    let session = TmuxSession::new("/p/app");
    let config = SessionConfig { windows: vec![] };
    assert_eq!(args(&session, &config, true, false), vec![vec!["attach-session", "-t", "app"]]);
    assert_eq!(args(&session, &config, true, true), vec![vec!["switch-client", "-t", "app"]]);
    let cmds = session.create_commands(&config, true, false);
    assert_eq!(cmds[0].context, "Failed to attach to existing session");
}

#[test]
fn simple_session_has_one_window() {
    let session = TmuxSession::new("/p/app");
    let config = SessionConfig { windows: vec![] };
    assert_eq!(
        args(&session, &config, false, false),
        vec![
            vec!["new-session", "-d", "-s", "app", "-c", "/p/app"],
            vec!["attach-session", "-t", "app"],
        ]
    );
    let cmds = session.create_commands(&config, false, true);
    assert_eq!(cmds[1].args, vec!["switch-client", "-t", "app"]);
    assert_eq!(cmds[1].context, "Failed to switch to new session");
}

#[test]
fn custom_session_creates_windows_panes_and_layouts() {
    let session = TmuxSession::new("/p/app");
    let config = SessionConfig {
        windows: vec![
            Window {
                name: "editor".to_string(),
                panes: vec!["nvim .".to_string(), "".to_string()],
                layout: Some("tiled".to_string()),
            },
            Window { name: "git".to_string(), panes: vec![], layout: None },
        ],
    };
    assert_eq!(
        args(&session, &config, false, false),
        vec![
            vec!["new-session", "-d", "-s", "app", "-n", "editor", "-c", "/p/app"],
            vec!["send-keys", "-t", "app:editor.0", "nvim .", "Enter"],
            vec!["split-window", "-t", "app:editor", "-c", "/p/app"],
            vec!["select-layout", "-t", "app:editor", "tiled"],
            vec!["new-window", "-t", "app", "-n", "git", "-c", "/p/app"],
            vec!["select-window", "-t", "app:editor"],
            vec!["attach-session", "-t", "app"],
        ]
    );
    let cmds = session.create_commands(&config, false, false);
    assert_eq!(cmds[3].context, "Failed to apply layout: tiled");
    assert_eq!(cmds[4].context, "Failed to create window: git");
}

#[test]
fn every_command_names_the_session() {
    let session = TmuxSession::new("/p/my.app");
    let config = SessionConfig {
        windows: vec![
            Window {
                name: "editor".to_string(),
                panes: vec!["nvim".to_string(), "make".to_string()],
                layout: Some("tiled".to_string()),
            },
            Window { name: "logs".to_string(), panes: vec!["tail -f x".to_string()], layout: None },
        ],
    };
    for exists in [false, true] {
        for inside in [false, true] {
            for c in session.create_commands(&config, exists, inside) {
                assert!(c.args.iter().any(|a| a.starts_with("my_app")), "{:?}", c.args);
            }
        }
    }
}
