use tmuxido::config_wizard::{
    config_step, layout_from_input, parse_setup_choice_input, tmux_layouts, ConfigWizard, Notice,
    Question, SetupChoice,
};

fn step(state: ConfigWizard, answer: &str) -> (ConfigWizard, Option<Notice>, Question) {
    config_step(state, answer.to_string(), Some("/home/u".to_string()))
}

#[test]
fn full_setup_collects_every_answer() {
    let (s, n, q) = step(ConfigWizard::Paths, " ~/code , ~/work ");
    assert!(n.is_none());
    assert!(matches!(q, Question::MaxDepth));
    let (s, n, q) = step(s, "7");
    assert!(n.is_none());
    assert!(matches!(q, Question::CacheEnabled));
    let (s, _, q) = step(s, "yes");
    assert!(matches!(q, Question::CacheTtl));
    let (s, _, q) = step(s, "12");
    assert!(matches!(q, Question::WindowNames));
    let (s, _, q) = step(s, "editor, server");
    match &q {
        Question::PaneNames(w) => assert_eq!(w, "editor"),
        _ => panic!("expected the panes of editor"),
    }
    let (s, _, q) = step(s, "code, tests");
    match &q {
        Question::PaneCommand(p) => assert_eq!(p, "code"),
        _ => panic!("expected a pane command"),
    }
    let (s, _, q) = step(s, "nvim");
    match &q {
        Question::PaneCommand(p) => assert_eq!(p, "tests"),
        _ => panic!("expected a pane command"),
    }
    let (s, _, q) = step(s, "");
    match &q {
        Question::Layout(w) => assert_eq!(w, "editor"),
        _ => panic!("expected the layout of editor"),
    }
    let (s, n, q) = step(s, "2");
    assert!(n.is_none());
    match &q {
        Question::PaneNames(w) => assert_eq!(w, "server"),
        _ => panic!("expected the panes of server"),
    }
    let (s, _, q) = step(s, "");
    assert!(matches!(s, ConfigWizard::Done));
    match q {
        Question::Finished(c) => {
            assert_eq!(c.paths, vec!["~/code", "~/work"]);
            assert_eq!(c.max_depth, 7);
            assert!(c.cache_enabled);
            assert_eq!(c.cache_ttl_hours, 12);
            assert_eq!(c.update_check_interval_hours, 24);
            let w = &c.default_session.windows;
            assert_eq!(w.len(), 2);
            assert_eq!(w[0].name, "editor");
            assert_eq!(w[0].panes, vec!["nvim", ""]);
            assert_eq!(w[0].layout, Some("main-vertical".to_string()));
            assert_eq!(w[1].layout, None);
            assert_eq!(w[1].name, "server");
            assert!(w[1].panes.is_empty());
        }
        _ => panic!("expected the finished configuration"),
    }
}

#[test]
fn blank_and_invalid_answers_fall_back_with_notices() {
    let (s, n, _) = step(ConfigWizard::Paths, "  ");
    assert_eq!(n, Some(Notice::NoPaths));
    let (s, n, _) = step(s, "zero");
    assert_eq!(n, Some(Notice::InvalidDepth));
    let (s, n, q) = step(s, "no");
    assert!(n.is_none());
    assert!(matches!(q, Question::WindowNames));
    let (s, _, q) = step(s, "");
    match &q {
        Question::PaneNames(w) => assert_eq!(w, "editor"),
        _ => panic!("expected the panes of editor"),
    }
    let (s, _, _) = step(s, "");
    let (_, _, q) = step(s, "");
    match q {
        Question::Finished(c) => {
            assert_eq!(c.paths, vec!["/home/u/Projects"]);
            assert_eq!(c.max_depth, 5);
            assert!(!c.cache_enabled);
            assert_eq!(c.cache_ttl_hours, 24);
            assert_eq!(c.default_session.windows.len(), 2);
        }
        _ => panic!("expected the finished configuration"),
    }
    assert_eq!(Notice::InvalidTtl.message(), "Invalid value, using default: 24");
}

#[test]
fn invalid_cache_answer_means_yes() {
    let (s, _, _) = step(ConfigWizard::Paths, "/p");
    let (s, _, _) = step(s, "");
    let (_, n, q) = step(s, "maybe");
    assert_eq!(n, Some(Notice::InvalidCache));
    assert!(matches!(q, Question::CacheTtl));
}

#[test]
fn answer_after_the_end_is_over() {
    let (s, n, q) = step(ConfigWizard::Done, "x");
    assert!(matches!(s, ConfigWizard::Done));
    assert!(n.is_none());
    assert!(matches!(q, Question::Over));
}

fn to_window_layout(answer: &str) -> (Option<String>, Option<Notice>) {
    let (s, _, _) = step(ConfigWizard::Paths, "/p");
    let (s, _, _) = step(s, "3");
    let (s, _, _) = step(s, "n");
    let (s, _, _) = step(s, "main");
    let (s, _, _) = step(s, "a, b");
    let (s, _, _) = step(s, "vim");
    let (s, _, q) = step(s, "");
    match &q {
        Question::Layout(w) => assert_eq!(w, "main"),
        _ => panic!("expected the layout question"),
    }
    let (s, n, q) = step(s, answer);
    assert!(matches!(s, ConfigWizard::Done));
    match q {
        Question::Finished(c) => {
            let w = &c.default_session.windows;
            assert_eq!(w.len(), 1);
            assert_eq!(w[0].panes, vec!["vim", ""]);
            (w[0].layout.clone(), n)
        }
        _ => panic!("expected the finished configuration"),
    }
}

#[test]
fn layout_asked_for_a_window_with_two_panes() {
    assert_eq!(to_window_layout("tiled"), (Some("tiled".to_string()), None));
    assert_eq!(to_window_layout("1"), (Some("main-horizontal".to_string()), None));
    assert_eq!(to_window_layout("5"), (Some("even-vertical".to_string()), None));
    assert_eq!(to_window_layout(""), (None, None));
    assert_eq!(to_window_layout("diagonal"), (None, Some(Notice::InvalidLayout)));
    assert_eq!(Notice::InvalidLayout.message(), "Invalid layout, keeping the tmux default");
}

#[test]
fn no_layout_question_for_a_single_pane() {
    let (s, _, _) = step(ConfigWizard::Paths, "/p");
    let (s, _, _) = step(s, "3");
    let (s, _, _) = step(s, "n");
    let (s, _, _) = step(s, "main");
    let (s, _, _) = step(s, "only");
    let (s, _, q) = step(s, "htop");
    assert!(matches!(s, ConfigWizard::Done));
    match q {
        Question::Finished(c) => {
            assert_eq!(c.default_session.windows[0].panes, vec!["htop"]);
            assert_eq!(c.default_session.windows[0].layout, None);
        }
        _ => panic!("expected the finished configuration"),
    }
}

#[test]
fn layout_answers() {
    assert_eq!(layout_from_input("2"), (Some("main-vertical".to_string()), false));
    assert_eq!(layout_from_input("4"), (Some("even-horizontal".to_string()), false));
    assert_eq!(layout_from_input("even-vertical"), (Some("even-vertical".to_string()), false));
    assert_eq!(layout_from_input(""), (None, false));
    assert_eq!(layout_from_input("6"), (None, true));
    assert_eq!(
        tmux_layouts(),
        vec!["main-horizontal", "main-vertical", "tiled", "even-horizontal", "even-vertical"]
    );
}

#[test]
fn setup_choice_answers() {
    assert_eq!(parse_setup_choice_input(""), SetupChoice::Wizard);
    assert_eq!(parse_setup_choice_input("1"), SetupChoice::Wizard);
    assert_eq!(parse_setup_choice_input("wizard"), SetupChoice::Wizard);
    assert_eq!(parse_setup_choice_input("2"), SetupChoice::Defaults);
    assert_eq!(parse_setup_choice_input("d"), SetupChoice::Defaults);
    assert_eq!(parse_setup_choice_input("defaults"), SetupChoice::Defaults);
}
