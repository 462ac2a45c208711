//! The first-run configuration questions as a sequence of decisions: each
//! answer moves the setup on and says what to ask next, until the
//! configuration is complete.
use vstd::prelude::*;
use crate::config::{
    cache_answer, number_answer, paths_in_input, projects_dir_in, window_names_in_input, Config,
};
use crate::session::{opt_view, windows_view, SessionConfig, Window};
use crate::text::{owned, split_trim_nonempty, str_eq, strs};

verus! {

/// What the first-run setup has collected so far.
#[derive(Debug)]
pub struct Draft {
    pub paths: Vec<String>,
    pub max_depth: usize,
    pub cache_enabled: bool,
    pub cache_ttl_hours: u64,
    pub windows: Vec<Window>,
}

/// The contents of a draft.
pub open spec fn draft_view(d: Draft) -> (
    Seq<Seq<char>>,
    usize,
    bool,
    u64,
    Seq<(Seq<char>, Seq<Seq<char>>, Option<Seq<char>>)>,
) {
    (strs(d.paths@), d.max_depth, d.cache_enabled, d.cache_ttl_hours, windows_view(d.windows@))
}

/// The contents of a configuration.
pub open spec fn config_view(c: Config) -> (
    Seq<Seq<char>>,
    usize,
    bool,
    u64,
    u64,
    Seq<(Seq<char>, Seq<Seq<char>>, Option<Seq<char>>)>,
) {
    (
        strs(c.paths@),
        c.max_depth,
        c.cache_enabled,
        c.cache_ttl_hours,
        c.update_check_interval_hours,
        windows_view(c.default_session.windows@),
    )
}

/// Where the first-run setup stands.
#[derive(Debug)]
pub enum ConfigWizard {
    /// The directories to scan are asked.
    Paths,
    /// The scan depth is asked, after the directories.
    Depth(Vec<String>),
    /// Whether to cache is asked, after the directories and the depth.
    Cache(Vec<String>, usize),
    /// How long the cache lives is asked.
    Ttl(Vec<String>, usize),
    /// The names of the default windows are asked.
    Windows(Draft),
    /// The panes of window `names[w]` are asked.
    Panes(Draft, Vec<String>, usize),
    /// The command of pane `panes[commands.len()]` of window `names[w]` is
    /// asked.
    Commands(Draft, Vec<String>, usize, Vec<String>, Vec<String>),
    /// The layout of window `names[w]`, whose panes run `commands`, is
    /// asked.
    Layout(Draft, Vec<String>, usize, Vec<String>),
    /// The setup is over.
    Done,
}

/// Something to tell the user about the last answer.
#[derive(Debug, Clone, Copy, PartialEq, Eq, Structural)]
pub enum Notice {
    /// No directory was named: the default one is used.
    NoPaths,
    /// The depth was not a positive number: 5 is used.
    InvalidDepth,
    /// The cache answer was not yes or no: yes is used.
    InvalidCache,
    /// The lifetime was not a positive number: 24 is used.
    InvalidTtl,
    /// The layout answer named no layout: tmux's own is kept.
    InvalidLayout,
}

impl Notice {
    /// What the notice says (the missing-directories one has its own
    /// styled message).
    pub fn message(&self) -> (r: &'static str)
        ensures
            r@ == match *self {
                Notice::NoPaths => "No paths provided. Using default: ~/Projects"@,
                Notice::InvalidDepth => "Invalid value, using default: 5"@,
                Notice::InvalidCache => "Invalid value, using default: yes"@,
                Notice::InvalidTtl => "Invalid value, using default: 24"@,
                Notice::InvalidLayout => "Invalid layout, keeping the tmux default"@,
            },
    {
        match self {
            Notice::NoPaths => "No paths provided. Using default: ~/Projects",
            Notice::InvalidDepth => "Invalid value, using default: 5",
            Notice::InvalidCache => "Invalid value, using default: yes",
            Notice::InvalidTtl => "Invalid value, using default: 24",
            Notice::InvalidLayout => "Invalid layout, keeping the tmux default",
        }
    }
}

/// What to ask next.
#[derive(Debug)]
pub enum Question {
    /// The scan depth.
    MaxDepth,
    /// Whether to cache.
    CacheEnabled,
    /// How long the cache lives, in hours.
    CacheTtl,
    /// The names of the default windows.
    WindowNames,
    /// The pane names of this window.
    PaneNames(String),
    /// The command of this pane.
    PaneCommand(String),
    /// The tmux layout of this window, which has two panes or more.
    Layout(String),
    /// Nothing: the configuration is complete.
    Finished(Config),
    /// Nothing: the answer did not fit the step.
    Over,
}

/// The configuration made of a complete draft: an update check every 24
/// hours.
pub open spec fn finished_view(d: (
    Seq<Seq<char>>,
    usize,
    bool,
    u64,
    Seq<(Seq<char>, Seq<Seq<char>>, Option<Seq<char>>)>,
)) -> (Seq<Seq<char>>, usize, bool, u64, u64, Seq<(Seq<char>, Seq<Seq<char>>, Option<Seq<char>>)>) {
    (d.0, d.1, d.2, d.3, 24, d.4)
}

/// The tmux layouts a window can be given, in the order the layout
/// question lists them.
pub open spec fn tmux_layout_names() -> Seq<Seq<char>> {
    seq!["main-horizontal"@, "main-vertical"@, "tiled"@, "even-horizontal"@, "even-vertical"@]
}

/// The layout an answer to the layout question names: its number in the
/// list (from 1) or its name.
pub open spec fn layout_choice(input: Seq<char>) -> Option<Seq<char>> {
    if input == "1"@ || input == "main-horizontal"@ {
        Some("main-horizontal"@)
    } else if input == "2"@ || input == "main-vertical"@ {
        Some("main-vertical"@)
    } else if input == "3"@ || input == "tiled"@ {
        Some("tiled"@)
    } else if input == "4"@ || input == "even-horizontal"@ {
        Some("even-horizontal"@)
    } else if input == "5"@ || input == "even-vertical"@ {
        Some("even-vertical"@)
    } else {
        None
    }
}

/// The layout that an answer to the layout question gives, and whether the
/// answer was invalid: a blank answer keeps tmux's own layout; one that
/// names no layout keeps it too, and is invalid.
pub open spec fn layout_answer(input: Seq<char>) -> (Option<Seq<char>>, bool) {
    if input.len() == 0 {
        (None, false)
    } else {
        match layout_choice(input) {
            Some(l) => (Some(l), false),
            None => (None, true),
        }
    }
}

/// The layout an answer gives is always one of the listed tmux layouts, and
/// the number of each listed layout gives it.
pub proof fn law_layout_answer_listed(input: Seq<char>)
    ensures
        layout_answer(input).0 matches Some(l) ==> tmux_layout_names().contains(l),
        layout_answer(input).1 ==> layout_answer(input).0 is None,
        layout_answer("1"@).0 == Some(tmux_layout_names()[0]),
        layout_answer("2"@).0 == Some(tmux_layout_names()[1]),
        layout_answer("3"@).0 == Some(tmux_layout_names()[2]),
        layout_answer("4"@).0 == Some(tmux_layout_names()[3]),
        layout_answer("5"@).0 == Some(tmux_layout_names()[4]),
{
    reveal_strlit("1");
    reveal_strlit("2");
    reveal_strlit("3");
    reveal_strlit("4");
    reveal_strlit("5");
    reveal_strlit("main-horizontal");
    reveal_strlit("main-vertical");
    reveal_strlit("tiled");
    reveal_strlit("even-horizontal");
    reveal_strlit("even-vertical");
    assert("2"@[0] != "1"@[0]);
    assert("3"@[0] != "1"@[0] && "3"@[0] != "2"@[0]);
    assert("4"@[0] != "1"@[0] && "4"@[0] != "2"@[0] && "4"@[0] != "3"@[0]);
    assert("5"@[0] != "1"@[0] && "5"@[0] != "2"@[0] && "5"@[0] != "3"@[0] && "5"@[0] != "4"@[0]);
    if let Some(l) = layout_answer(input).0 {
        let names = tmux_layout_names();
        if l == "main-horizontal"@ {
            assert(names[0] == l);
        } else if l == "main-vertical"@ {
            assert(names[1] == l);
        } else if l == "tiled"@ {
            assert(names[2] == l);
        } else if l == "even-horizontal"@ {
            assert(names[3] == l);
        } else {
            assert(names[4] == l);
        }
    }
}

/// The tmux layouts a window can be given, in the order the layout question
/// lists them.
pub fn tmux_layouts() -> (r: Vec<&'static str>)
    ensures
        r@.map_values(|l: &str| l@) == tmux_layout_names(),
{
    let r = vec!["main-horizontal", "main-vertical", "tiled", "even-horizontal", "even-vertical"];
    assert(r@.map_values(|l: &str| l@) =~= tmux_layout_names());
    r
}

/// Reads the answer to the layout question: the layout it names (none for
/// a blank answer), and whether it named none though it was not blank.
pub fn layout_from_input(input: &str) -> (r: (Option<String>, bool))
    ensures
        opt_view(r.0) == layout_answer(input@).0,
        r.1 == layout_answer(input@).1,
{
    if crate::text::is_empty_str(input) {
        (None, false)
    } else if str_eq(input, "1") || str_eq(input, "main-horizontal") {
        (Some(owned("main-horizontal")), false)
    } else if str_eq(input, "2") || str_eq(input, "main-vertical") {
        (Some(owned("main-vertical")), false)
    } else if str_eq(input, "3") || str_eq(input, "tiled") {
        (Some(owned("tiled")), false)
    } else if str_eq(input, "4") || str_eq(input, "even-horizontal") {
        (Some(owned("even-horizontal")), false)
    } else if str_eq(input, "5") || str_eq(input, "even-vertical") {
        (Some(owned("even-vertical")), false)
    } else {
        (None, true)
    }
}

/// Whether `r` is where the setup goes once window `w` of `names` is
/// configured as `win`, from draft `d`, telling the user `notice`: the
/// window is added, then the panes of the next window are asked, or the
/// configuration is complete.
pub open spec fn after_window(
    r: (ConfigWizard, Option<Notice>, Question),
    d: (Seq<Seq<char>>, usize, bool, u64, Seq<(Seq<char>, Seq<Seq<char>>, Option<Seq<char>>)>),
    names: Seq<Seq<char>>,
    w: int,
    win: (Seq<char>, Seq<Seq<char>>, Option<Seq<char>>),
    notice: Option<Notice>,
) -> bool {
    let d2 = (d.0, d.1, d.2, d.3, d.4.push(win));
    &&& r.1 == notice
    &&& if w + 1 < names.len() {
        (r.0 matches ConfigWizard::Panes(dr, n2, w2) && draft_view(dr) == d2 && strs(n2@) == names
            && w2 == w + 1) && (r.2 matches Question::PaneNames(n) && n@ == names[w + 1])
    } else {
        r.0 is Done && (r.2 matches Question::Finished(c) && config_view(c) == finished_view(d2))
    }
}

/// Where the setup goes once window `w` of `names` is configured with the
/// pane commands `panes` and the layout `layout`, telling the user
/// `notice`.
fn finish_window(
    d: Draft,
    names: Vec<String>,
    w: usize,
    panes: Vec<String>,
    layout: Option<String>,
    notice: Option<Notice>,
) -> (r: (ConfigWizard, Option<Notice>, Question))
    requires
        w < names@.len(),
    ensures
        after_window(
            r,
            draft_view(d),
            strs(names@),
            w as int,
            (names@[w as int]@, strs(panes@), opt_view(layout)),
            notice,
        ),
{
    let mut d = d;
    let ghost before = draft_view(d);
    let win = Window { name: names[w].clone(), panes, layout };
    let ghost wv = win@;
    d.windows.push(win);
    assert(windows_view(d.windows@) =~= before.4.push(wv));
    if w < names.len() - 1 {
        let next = names[w + 1].clone();
        (ConfigWizard::Panes(d, names, w + 1), notice, Question::PaneNames(next))
    } else {
        let config = Config {
            paths: d.paths,
            max_depth: d.max_depth,
            cache_enabled: d.cache_enabled,
            cache_ttl_hours: d.cache_ttl_hours,
            update_check_interval_hours: 24,
            default_session: SessionConfig { windows: d.windows },
        };
        (ConfigWizard::Done, notice, Question::Finished(config))
    }
}

/// Moves the first-run setup on: from where it stands and the answer given
/// (with the home directory, used when no directory is named), where it
/// stands next, what to tell the user, and what to ask next. An answer that
/// does not fit the step ends the setup.
pub fn config_step(state: ConfigWizard, answer: String, home: Option<String>) -> (r: (
    ConfigWizard,
    Option<Notice>,
    Question,
))
    ensures
        match state {
            ConfigWizard::Paths => {
                let named = paths_in_input(answer@);
                (r.0 matches ConfigWizard::Depth(p) && strs(p@) == if named.len() == 0 {
                    seq![projects_dir_in(opt_view(home))]
                } else {
                    named
                }) && r.1 == (if named.len() == 0 {
                    Some(Notice::NoPaths)
                } else {
                    None
                }) && r.2 is MaxDepth
            },
            ConfigWizard::Depth(paths) => {
                let (n, invalid) = number_answer(answer@, usize::MAX as nat, 5);
                (r.0 matches ConfigWizard::Cache(p, d) && p@ == paths@ && d == n) && r.1 == (
                if invalid {
                    Some(Notice::InvalidDepth)
                } else {
                    None
                }) && r.2 is CacheEnabled
            },
            ConfigWizard::Cache(paths, depth) => {
                let (enabled, invalid) = cache_answer(answer@);
                &&& r.1 == (if invalid {
                    Some(Notice::InvalidCache)
                } else {
                    None
                })
                &&& enabled ==> (r.0 matches ConfigWizard::Ttl(p, d) && p@ == paths@ && d == depth)
                    && r.2 is CacheTtl
                &&& !enabled ==> (r.0 matches ConfigWizard::Windows(dr) && draft_view(dr) == (
                    strs(paths@),
                    depth,
                    false,
                    24u64,
                    Seq::<(Seq<char>, Seq<Seq<char>>, Option<Seq<char>>)>::empty(),
                )) && r.2 is WindowNames
            },
            ConfigWizard::Ttl(paths, depth) => {
                let (n, invalid) = number_answer(answer@, u64::MAX as nat, 24);
                (r.0 matches ConfigWizard::Windows(dr) && draft_view(dr) == (
                    strs(paths@),
                    depth,
                    true,
                    n as u64,
                    Seq::<(Seq<char>, Seq<Seq<char>>, Option<Seq<char>>)>::empty(),
                )) && r.1 == (if invalid {
                    Some(Notice::InvalidTtl)
                } else {
                    None
                }) && r.2 is WindowNames
            },
            ConfigWizard::Windows(d) => {
                let names = window_names_in_input(answer@);
                (r.0 matches ConfigWizard::Panes(dr, n2, w) && draft_view(dr) == draft_view(d)
                    && strs(n2@) == names && w == 0) && r.1 is None && (r.2 matches Question::PaneNames(
                    n,
                ) && n@ == names[0])
            },
            ConfigWizard::Panes(d, names, w) => if w < names@.len() {
                let panes = split_trim_nonempty(answer@, ',');
                if panes.len() == 0 {
                    after_window(
                        r,
                        draft_view(d),
                        strs(names@),
                        w as int,
                        (names@[w as int]@, Seq::empty(), None),
                        None,
                    )
                } else {
                    (r.0 matches ConfigWizard::Commands(dr, n2, w2, p2, c2) && draft_view(dr)
                        == draft_view(d) && n2@ == names@ && w2 == w && strs(p2@) == panes
                        && c2@.len() == 0) && r.1 is None && (r.2 matches Question::PaneCommand(p)
                        && p@ == panes[0])
                }
            } else {
                r.0 is Done && r.1 is None && r.2 is Over
            },
            ConfigWizard::Commands(d, names, w, panes, commands) => if w < names@.len()
                && commands@.len() < panes@.len() {
                let cs = strs(commands@).push(answer@);
                if cs.len() < panes@.len() {
                    (r.0 matches ConfigWizard::Commands(dr, n2, w2, p2, c2) && draft_view(dr)
                        == draft_view(d) && n2@ == names@ && w2 == w && p2@ == panes@ && strs(c2@)
                        == cs) && r.1 is None && (r.2 matches Question::PaneCommand(p) && p@
                        == panes@[cs.len() as int]@)
                } else if cs.len() >= 2 {
                    (r.0 matches ConfigWizard::Layout(dr, n2, w2, c2) && draft_view(dr)
                        == draft_view(d) && n2@ == names@ && w2 == w && strs(c2@) == cs) && r.1 is None
                        && (r.2 matches Question::Layout(n) && n@ == names@[w as int]@)
                } else {
                    after_window(
                        r,
                        draft_view(d),
                        strs(names@),
                        w as int,
                        (names@[w as int]@, cs, None),
                        None,
                    )
                }
            } else {
                r.0 is Done && r.1 is None && r.2 is Over
            },
            ConfigWizard::Layout(d, names, w, commands) => if w < names@.len() {
                let (layout, invalid) = layout_answer(answer@);
                after_window(
                    r,
                    draft_view(d),
                    strs(names@),
                    w as int,
                    (names@[w as int]@, strs(commands@), layout),
                    if invalid {
                        Some(Notice::InvalidLayout)
                    } else {
                        None
                    },
                )
            } else {
                r.0 is Done && r.1 is None && r.2 is Over
            },
            ConfigWizard::Done => r.0 is Done && r.1 is None && r.2 is Over,
        },
{
    match state {
        ConfigWizard::Paths => {
            let named = Config::parse_paths_input(answer.as_str());
            let notice = if named.len() == 0 {
                Some(Notice::NoPaths)
            } else {
                None
            };
            let paths = Config::paths_or_default(named, home);
            (ConfigWizard::Depth(paths), notice, Question::MaxDepth)
        },
        ConfigWizard::Depth(paths) => {
            let (n, invalid) = Config::max_depth_from_input(answer.as_str());
            let notice = if invalid {
                Some(Notice::InvalidDepth)
            } else {
                None
            };
            (ConfigWizard::Cache(paths, n), notice, Question::CacheEnabled)
        },
        ConfigWizard::Cache(paths, depth) => {
            let (enabled, invalid) = Config::cache_enabled_from_input(answer.as_str());
            let notice = if invalid {
                Some(Notice::InvalidCache)
            } else {
                None
            };
            if enabled {
                (ConfigWizard::Ttl(paths, depth), notice, Question::CacheTtl)
            } else {
                let d = Draft {
                    paths,
                    max_depth: depth,
                    cache_enabled: false,
                    cache_ttl_hours: 24,
                    windows: Vec::new(),
                };
                assert(windows_view(d.windows@) =~= Seq::<(Seq<char>, Seq<Seq<char>>, Option<Seq<char>>)>::empty());
                (ConfigWizard::Windows(d), notice, Question::WindowNames)
            }
        },
        ConfigWizard::Ttl(paths, depth) => {
            let (n, invalid) = Config::cache_ttl_from_input(answer.as_str());
            let notice = if invalid {
                Some(Notice::InvalidTtl)
            } else {
                None
            };
            let d = Draft {
                paths,
                max_depth: depth,
                cache_enabled: true,
                cache_ttl_hours: n,
                windows: Vec::new(),
            };
            assert(windows_view(d.windows@) =~= Seq::<(Seq<char>, Seq<Seq<char>>, Option<Seq<char>>)>::empty());
            (ConfigWizard::Windows(d), notice, Question::WindowNames)
        },
        ConfigWizard::Windows(d) => {
            let names = Config::window_names_from_input(answer.as_str());
            proof {
                crate::config::law_window_names_clean(answer@);
            }
            let first = names[0].clone();
            (ConfigWizard::Panes(d, names, 0), None, Question::PaneNames(first))
        },
        ConfigWizard::Panes(d, names, w) => {
            if w >= names.len() {
                return (ConfigWizard::Done, None, Question::Over);
            }
            let panes = Config::pane_names_from_input(answer.as_str());
            if panes.len() == 0 {
                let none: Vec<String> = Vec::new();
                assert(strs(none@) =~= Seq::<Seq<char>>::empty());
                finish_window(d, names, w, none, None, None)
            } else {
                let first = panes[0].clone();
                (ConfigWizard::Commands(d, names, w, panes, Vec::new()), None, Question::PaneCommand(first))
            }
        },
        ConfigWizard::Commands(d, names, w, panes, commands) => {
            if w >= names.len() || commands.len() >= panes.len() {
                return (ConfigWizard::Done, None, Question::Over);
            }
            let mut commands = commands;
            let ghost before = strs(commands@);
            commands.push(answer);
            assert(strs(commands@) =~= before.push(answer@));
            if commands.len() < panes.len() {
                let next = panes[commands.len()].clone();
                (ConfigWizard::Commands(d, names, w, panes, commands), None, Question::PaneCommand(next))
            } else if commands.len() >= 2 {
                let window = names[w].clone();
                (ConfigWizard::Layout(d, names, w, commands), None, Question::Layout(window))
            } else {
                finish_window(d, names, w, commands, None, None)
            }
        },
        ConfigWizard::Layout(d, names, w, commands) => {
            if w >= names.len() {
                return (ConfigWizard::Done, None, Question::Over);
            }
            let (layout, invalid) = layout_from_input(answer.as_str());
            let notice = if invalid {
                Some(Notice::InvalidLayout)
            } else {
                None
            };
            finish_window(d, names, w, commands, layout, notice)
        },
        ConfigWizard::Done => (ConfigWizard::Done, None, Question::Over),
    }
}

/// How the first configuration is made, when there is none: by the
/// questions of the setup, or with the defaults at once.
#[derive(Debug, Clone, Copy, PartialEq, Eq, Structural)]
pub enum SetupChoice {
    /// Ask the setup questions.
    Wizard,
    /// Save the default configuration without asking.
    Defaults,
}

/// The choice an answer to the first-run question makes: `2`, `d`,
/// `default` or `defaults` takes the defaults; anything else, a blank
/// answer included, runs the setup questions.
pub open spec fn setup_choice_of(input: Seq<char>) -> SetupChoice {
    if input == "2"@ || input == "d"@ || input == "default"@ || input == "defaults"@ {
        SetupChoice::Defaults
    } else {
        SetupChoice::Wizard
    }
}

/// Reads the answer to the first-run question: run the setup questions or
/// take the defaults.
pub fn parse_setup_choice_input(input: &str) -> (r: SetupChoice)
    ensures
        r == setup_choice_of(input@),
{
    if str_eq(input, "2") || str_eq(input, "d") || str_eq(input, "default") || str_eq(input, "defaults") {
        SetupChoice::Defaults
    } else {
        SetupChoice::Wizard
    }
}

} // verus!
