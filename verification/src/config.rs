//! The global configuration: its defaults, and how the answers of the
//! first-run questions become settings.
use vstd::prelude::*;
use crate::paths::{config_dir, home_dir, home_or_empty, join_path, join_path_str};
use crate::session::{SessionConfig, Window, windows_view};
use crate::text::{
    chars_of, owned, parse_unsigned, parse_unsigned_chars, split_trim_nonempty,
    split_trimmed_nonempty, str_eq, strs, trim, trim_chars, CharClass,
};

verus! {

/// The global configuration.
#[derive(Debug)]
pub struct Config {
    pub paths: Vec<String>,
    pub max_depth: usize,
    pub cache_enabled: bool,
    pub cache_ttl_hours: u64,
    pub update_check_interval_hours: u64,
    pub default_session: SessionConfig,
}

/// The scan depth used when none is configured.
pub fn default_max_depth() -> (r: usize)
    ensures
        r == 5,
{
    5
}

/// Whether the cache is on when nothing is configured.
pub fn default_cache_enabled() -> (r: bool)
    ensures
        r,
{
    true
}

/// The cache lifetime in hours used when none is configured.
pub fn default_cache_ttl_hours() -> (r: u64)
    ensures
        r == 24,
{
    24
}

/// The hours between update checks used when none is configured.
pub fn default_update_check_interval_hours() -> (r: u64)
    ensures
        r == 24,
{
    24
}

/// The windows of the default session: "editor" and "terminal", each with
/// no pane commands and no layout.
pub open spec fn default_windows() -> Seq<(Seq<char>, Seq<Seq<char>>, Option<Seq<char>>)> {
    seq![
        ("editor"@, Seq::<Seq<char>>::empty(), None::<Seq<char>>),
        ("terminal"@, Seq::<Seq<char>>::empty(), None::<Seq<char>>),
    ]
}

/// A window with a name, no pane commands and no layout.
fn plain_window(name: &str) -> (r: Window)
    ensures
        r@ == (name@, Seq::<Seq<char>>::empty(), None::<Seq<char>>),
{
    let w = Window { name: owned(name), panes: Vec::new(), layout: None };
    assert(strs(w.panes@) =~= Seq::<Seq<char>>::empty());
    w
}

/// The session used when a project has no configuration of its own and none
/// is configured: the windows "editor" and "terminal".
pub fn default_session_config() -> (r: SessionConfig)
    ensures
        windows_view(r.windows@) == default_windows(),
{
    let mut windows: Vec<Window> = Vec::new();
    windows.push(plain_window("editor"));
    windows.push(plain_window("terminal"));
    assert(windows_view(windows@) =~= default_windows());
    SessionConfig { windows }
}

/// Why a directory of this machine could not be found.
#[derive(Debug, Clone, Copy, PartialEq, Eq, Structural)]
pub enum DirError {
    NoConfigDir,
    NoCacheDir,
    NoDataDir,
}

impl DirError {
    /// What the error says.
    pub fn message(&self) -> (r: &'static str)
        ensures
            r@ == match *self {
                DirError::NoConfigDir => "Could not determine config directory"@,
                DirError::NoCacheDir => "Could not determine cache directory"@,
                DirError::NoDataDir => "Could not determine data directory"@,
            },
    {
        match self {
            DirError::NoConfigDir => "Could not determine config directory",
            DirError::NoCacheDir => "Could not determine cache directory",
            DirError::NoDataDir => "Could not determine data directory",
        }
    }
}

/// The configuration file inside the configuration directory `dir`.
pub open spec fn config_file_in(dir: Seq<char>) -> Seq<char> {
    join_path(join_path(dir, "tmuxido"@), "tmuxido.toml"@)
}

/// The configuration file for a configuration directory, if one is known.
pub fn config_path_from(dir: Option<String>) -> (r: Result<String, DirError>)
    ensures
        match dir {
            Some(d) => r matches Ok(p) && p@ == config_file_in(d@),
            None => r == Err::<String, DirError>(DirError::NoConfigDir),
        },
{
    match dir {
        Some(d) => {
            proof {
                reveal_strlit("tmuxido");
                reveal_strlit("tmuxido.toml");
            }
            let app = join_path_str(d.as_str(), "tmuxido");
            Ok(join_path_str(app.as_str(), "tmuxido.toml"))
        },
        None => Err(DirError::NoConfigDir),
    }
}

/// The default projects directory: `Projects` under the home directory
/// (under the empty path when it is not known).
pub open spec fn projects_dir_in(home: Option<Seq<char>>) -> Seq<char> {
    join_path(
        match home {
            Some(h) => h,
            None => Seq::<char>::empty(),
        },
        "Projects"@,
    )
}

/// The default projects directory for a home directory, if one is known.
pub fn projects_dir_from(home: Option<String>) -> (r: String)
    ensures
        r@ == projects_dir_in(crate::session::opt_view(home)),
{
    let h = home_or_empty(home);
    proof {
        reveal_strlit("Projects");
    }
    join_path_str(h.as_str(), "Projects")
}

/// The configuration used when there is no configuration file, for a home
/// directory: the projects directory under it, scan depth 5, the cache on
/// for 24 hours, an update check every 24 hours, and the default session.
pub fn default_config_for(home: Option<String>) -> (r: Config)
    ensures
        strs(r.paths@) == seq![projects_dir_in(crate::session::opt_view(home))],
        r.max_depth == 5,
        r.cache_enabled,
        r.cache_ttl_hours == 24,
        r.update_check_interval_hours == 24,
        windows_view(r.default_session.windows@) == default_windows(),
{
    let mut paths: Vec<String> = Vec::new();
    paths.push(projects_dir_from(home));
    assert(strs(paths@) =~= seq![projects_dir_in(crate::session::opt_view(home))]);
    Config {
        paths,
        max_depth: 5,
        cache_enabled: true,
        cache_ttl_hours: 24,
        update_check_interval_hours: 24,
        default_session: default_session_config(),
    }
}

/// The paths that the answer to the paths question names: the answer cut
/// at commas, each part trimmed, blank parts dropped.
pub open spec fn paths_in_input(input: Seq<char>) -> Seq<Seq<char>> {
    split_trim_nonempty(trim(input), ',')
}

/// What a number question falls back to.
pub open spec fn number_answer(input: Seq<char>, max: nat, fallback: nat) -> (nat, bool) {
    if input.len() == 0 {
        (fallback, false)
    } else {
        match parse_unsigned(input, max) {
            Some(n) => if n > 0 {
                (n, false)
            } else {
                (fallback, true)
            },
            None => (fallback, true),
        }
    }
}

/// What the answer to the cache question means, and whether it was invalid
/// (an invalid answer means yes).
pub open spec fn cache_answer(input: Seq<char>) -> (bool, bool) {
    if input.len() == 0 || input == "y"@ || input == "yes"@ {
        (true, false)
    } else if input == "n"@ || input == "no"@ {
        (false, false)
    } else {
        (true, true)
    }
}

/// The window names that the answer to the windows question names, or
/// "editor" and "terminal" when it names none.
pub open spec fn window_names_in_input(input: Seq<char>) -> Seq<Seq<char>> {
    let names = split_trim_nonempty(input, ',');
    if names.len() == 0 {
        seq!["editor"@, "terminal"@]
    } else {
        names
    }
}

/// A positive number from the (trimmed) answer to a number question, with
/// whether the answer was invalid.
fn positive_number_answer(input: &str, max: u64, fallback: u64) -> (r: (u64, bool))
    requires
        0 < fallback <= max,
    ensures
        (r.0 as nat, r.1) == number_answer(input@, max as nat, fallback as nat),
{
    let v = chars_of(input);
    if v.len() == 0 {
        return (fallback, false);
    }
    match parse_unsigned_chars(v.as_slice(), max) {
        Some(n) => if n > 0 {
            (n, false)
        } else {
            (fallback, true)
        },
        None => (fallback, true),
    }
}

impl Config {
    /// The configuration file: `tmuxido/tmuxido.toml` in the configuration
    /// directory of this machine, which depends on the environment.
    pub fn config_path() -> (r: Result<String, DirError>)
        ensures
            r matches Ok(p) ==> exists|d: Seq<char>| p@ == config_file_in(d),
            r matches Err(e) ==> e == DirError::NoConfigDir,
    {
        config_path_from(config_dir())
    }

    /// The configuration used when there is no configuration file.
    pub fn default_config() -> (r: Self)
        ensures
            exists|home: Option<Seq<char>>| strs(r.paths@) == seq![projects_dir_in(home)],
            r.max_depth == 5,
            r.cache_enabled,
            r.cache_ttl_hours == 24,
            r.update_check_interval_hours == 24,
            windows_view(r.default_session.windows@) == default_windows(),
    {
        default_config_for(home_dir())
    }

    /// The paths named by the answer to the paths question: cut at commas,
    /// each part trimmed, blank parts dropped.
    pub fn parse_paths_input(input: &str) -> (r: Vec<String>)
        ensures
            strs(r@) == paths_in_input(input@),
    {
        let v = chars_of(input);
        let t = trim_chars(v.as_slice(), CharClass::Whitespace);
        split_trimmed_nonempty(t.as_slice(), ',')
    }

    /// The paths to scan when the answer to the paths question names none:
    /// the projects directory under the home directory.
    pub fn paths_or_default(paths: Vec<String>, home: Option<String>) -> (r: Vec<String>)
        ensures
            paths@.len() > 0 ==> r@ == paths@,
            paths@.len() == 0 ==> strs(r@) == seq![projects_dir_in(crate::session::opt_view(home))],
    {
        if paths.len() > 0 {
            paths
        } else {
            let mut r: Vec<String> = Vec::new();
            r.push(projects_dir_from(home));
            assert(strs(r@) =~= seq![projects_dir_in(crate::session::opt_view(home))]);
            r
        }
    }

    /// The scan depth from the answer to the depth question: 5 when blank,
    /// the number when it is a positive `usize`, otherwise 5 with the
    /// answer flagged invalid.
    pub fn max_depth_from_input(input: &str) -> (r: (usize, bool))
        ensures
            (r.0 as nat, r.1) == number_answer(input@, usize::MAX as nat, 5),
    {
        let (n, invalid) = positive_number_answer(input, usize::MAX as u64, 5);
        (n as usize, invalid)
    }

    /// The cache lifetime from the answer to the lifetime question: 24 when
    /// blank, the number when it is a positive `u64`, otherwise 24 with the
    /// answer flagged invalid.
    pub fn cache_ttl_from_input(input: &str) -> (r: (u64, bool))
        ensures
            (r.0 as nat, r.1) == number_answer(input@, u64::MAX as nat, 24),
    {
        positive_number_answer(input, u64::MAX, 24)
    }

    /// Whether the cache is on, from the (lowercased) answer to the cache
    /// question: blank, `y` or `yes` mean yes, `n` or `no` mean no, anything
    /// else means yes and is flagged invalid.
    pub fn cache_enabled_from_input(input: &str) -> (r: (bool, bool))
        ensures
            r == cache_answer(input@),
    {
        if crate::text::is_empty_str(input) || str_eq(input, "y") || str_eq(input, "yes") {
            (true, false)
        } else if str_eq(input, "n") || str_eq(input, "no") {
            (false, false)
        } else {
            (true, true)
        }
    }

    /// The window names from the answer to the windows question, or
    /// "editor" and "terminal" when it names none.
    pub fn window_names_from_input(input: &str) -> (r: Vec<String>)
        ensures
            strs(r@) == window_names_in_input(input@),
    {
        let v = chars_of(input);
        let names = split_trimmed_nonempty(v.as_slice(), ',');
        if names.len() == 0 {
            let r = crate::text::owned_all(vec!["editor", "terminal"].as_slice());
            assert(strs(r@) =~= seq!["editor"@, "terminal"@]);
            r
        } else {
            names
        }
    }

    /// The pane names from the answer to the panes question (none means a
    /// single pane with no command).
    pub fn pane_names_from_input(input: &str) -> (r: Vec<String>)
        ensures
            strs(r@) == split_trim_nonempty(input@, ','),
    {
        let v = chars_of(input);
        split_trimmed_nonempty(v.as_slice(), ',')
    }
}


/// Every path taken from the answer to the paths question is non-empty,
/// trimmed, and holds no comma.
pub proof fn law_paths_input_clean(input: Seq<char>)
    ensures
        forall|i: int|
            0 <= i < paths_in_input(input).len() ==> {
                let p = #[trigger] paths_in_input(input)[i];
                &&& p.len() > 0
                &&& crate::text::trim(p) == p
                &&& !p.contains(',')
            },
{
    crate::text::lemma_split_trim_nonempty_clean(crate::text::trim(input), ',');
}

/// Every window name taken from the answer to the windows question is
/// non-empty, trimmed, and holds no comma.
pub proof fn law_window_names_clean(input: Seq<char>)
    ensures
        forall|i: int|
            0 <= i < window_names_in_input(input).len() ==> {
                let p = #[trigger] window_names_in_input(input)[i];
                &&& p.len() > 0
                &&& crate::text::trim(p) == p
                &&& !p.contains(',')
            },
        window_names_in_input(input).len() > 0,
{
    crate::text::lemma_split_trim_nonempty_clean(input, ',');
    if crate::text::split_trim_nonempty(input, ',').len() == 0 {
        reveal_strlit("editor");
        reveal_strlit("terminal");
        let names = window_names_in_input(input);
        assert(names[0] == "editor"@);
        assert(names[1] == "terminal"@);
        assert(crate::text::trim("editor"@) == "editor"@) by {
            crate::text::lemma_trim_by_noop("editor"@, crate::text::CharClass::Whitespace);
        }
        assert(crate::text::trim("terminal"@) == "terminal"@) by {
            crate::text::lemma_trim_by_noop("terminal"@, crate::text::CharClass::Whitespace);
        }
        assert forall|i: int| 0 <= i < names.len() implies !(#[trigger] names[i]).contains(',') by {
            if names[i].contains(',') {
                let x = choose|x: int| 0 <= x < names[i].len() && names[i][x] == ',';
            }
        }
    }
}

} // verus!
