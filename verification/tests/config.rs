use tmuxido::config::{default_session_config, Config, DirError};

#[test]
fn should_parse_single_path() {
    let input = "~/Projects";
    let paths = Config::parse_paths_input(input);
    assert_eq!(paths, vec!["~/Projects"]);
}

#[test]
fn should_parse_multiple_paths_with_commas() {
    let input = "~/Projects, ~/work, ~/repos";
    let paths = Config::parse_paths_input(input);
    assert_eq!(paths, vec!["~/Projects", "~/work", "~/repos"]);
}

#[test]
fn should_trim_whitespace_from_paths() {
    let input = "  ~/Projects  ,  ~/work  ";
    let paths = Config::parse_paths_input(input);
    assert_eq!(paths, vec!["~/Projects", "~/work"]);
}

#[test]
fn should_return_empty_vec_for_empty_input() {
    let input = "";
    let paths = Config::parse_paths_input(input);
    assert!(paths.is_empty());
}

#[test]
fn should_return_empty_vec_for_whitespace_only() {
    let input = "   ";
    let paths = Config::parse_paths_input(input);
    assert!(paths.is_empty());
}

#[test]
fn should_handle_empty_parts_between_commas() {
    let input = "~/Projects,,~/work";
    let paths = Config::parse_paths_input(input);
    assert_eq!(paths, vec!["~/Projects", "~/work"]);
}

// --- the library's own ---

#[test]
fn default_session_has_editor_and_terminal() {
    let s = default_session_config();
    assert_eq!(s.windows.len(), 2);
    assert_eq!(s.windows[0].name, "editor");
    assert_eq!(s.windows[1].name, "terminal");
    assert!(s.windows[0].panes.is_empty());
    assert!(s.windows[1].layout.is_none());
}

#[test]
fn default_config_uses_documented_defaults() {
    let c = tmuxido::config::default_config_for(Some("/home/alice".to_string()));
    assert_eq!(c.paths, vec!["/home/alice/Projects"]);
    assert_eq!(c.max_depth, 5);
    assert!(c.cache_enabled);
    assert_eq!(c.cache_ttl_hours, 24);
    assert_eq!(c.update_check_interval_hours, 24);
    let d = tmuxido::config::default_config_for(None);
    assert_eq!(d.paths, vec!["Projects"]);
}

#[test]
fn config_path_lies_in_tmuxido_folder() {
    assert_eq!(
        tmuxido::config::config_path_from(Some("/home/alice/.config".to_string())),
        Ok("/home/alice/.config/tmuxido/tmuxido.toml".to_string())
    );
    assert_eq!(
        tmuxido::config::config_path_from(Some("/cfg/".to_string())),
        Ok("/cfg/tmuxido/tmuxido.toml".to_string())
    );
    assert_eq!(tmuxido::config::config_path_from(None), Err(DirError::NoConfigDir));
    assert_eq!(DirError::NoConfigDir.message(), "Could not determine config directory");
}

#[test]
fn number_answers_fall_back_on_blank_or_invalid_input() {
    assert_eq!(Config::max_depth_from_input(""), (5, false));
    assert_eq!(Config::max_depth_from_input("3"), (3, false));
    assert_eq!(Config::max_depth_from_input("+7"), (7, false));
    assert_eq!(Config::max_depth_from_input("0"), (5, true));
    assert_eq!(Config::max_depth_from_input("-2"), (5, true));
    assert_eq!(Config::max_depth_from_input("abc"), (5, true));
    assert_eq!(Config::cache_ttl_from_input(""), (24, false));
    assert_eq!(Config::cache_ttl_from_input("48"), (48, false));
    assert_eq!(Config::cache_ttl_from_input("99999999999999999999"), (24, true));
    assert_eq!(Config::cache_ttl_from_input("18446744073709551615"), (u64::MAX, false));
}

#[test]
fn cache_answer_means_yes_unless_no() {
    assert_eq!(Config::cache_enabled_from_input(""), (true, false));
    assert_eq!(Config::cache_enabled_from_input("y"), (true, false));
    assert_eq!(Config::cache_enabled_from_input("yes"), (true, false));
    assert_eq!(Config::cache_enabled_from_input("n"), (false, false));
    assert_eq!(Config::cache_enabled_from_input("no"), (false, false));
    assert_eq!(Config::cache_enabled_from_input("maybe"), (true, true));
}

#[test]
fn window_names_default_to_editor_and_terminal() {
    assert_eq!(Config::window_names_from_input(""), vec!["editor", "terminal"]);
    assert_eq!(Config::window_names_from_input(" , "), vec!["editor", "terminal"]);
    assert_eq!(Config::window_names_from_input("code, logs"), vec!["code", "logs"]);
    assert_eq!(Config::pane_names_from_input(""), Vec::<String>::new());
    assert_eq!(Config::pane_names_from_input("a,,b "), vec!["a", "b"]);
}

#[test]
fn empty_paths_answer_falls_back_on_projects_dir() {
    assert_eq!(
        Config::paths_or_default(vec![], Some("/home/bob".to_string())),
        vec!["/home/bob/Projects"]
    );
    assert_eq!(
        Config::paths_or_default(vec!["/x".to_string()], Some("/home/bob".to_string())),
        vec!["/x"]
    );
}
