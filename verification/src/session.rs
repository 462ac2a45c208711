//! Session layouts and the tmux commands that create and open a session.
use vstd::prelude::*;
use crate::text::{concat, dec, dec_string, owned, owned_all, strs};
use crate::paths::{file_name_of, path_file_name};

verus! {

/// A window of a session: its name, the commands of its panes (an empty
/// command leaves the shell), and an optional tmux layout.
#[derive(Debug, Clone)]
pub struct Window {
    pub name: String,
    pub panes: Vec<String>,
    pub layout: Option<String>,
}

/// The text of an optional string.
pub open spec fn opt_view(o: Option<String>) -> Option<Seq<char>> {
    match o {
        Some(s) => Some(s@),
        None => None,
    }
}

impl View for Window {
    type V = (Seq<char>, Seq<Seq<char>>, Option<Seq<char>>);

    open spec fn view(&self) -> (Seq<char>, Seq<Seq<char>>, Option<Seq<char>>) {
        (self.name@, strs(self.panes@), opt_view(self.layout))
    }
}

/// The windows that a session is created with.
#[derive(Debug, Clone)]
pub struct SessionConfig {
    pub windows: Vec<Window>,
}

/// The contents of each window in `ws`.
pub open spec fn windows_view(ws: Seq<Window>) -> Seq<(Seq<char>, Seq<Seq<char>>, Option<Seq<char>>)> {
    ws.map_values(|w: Window| w@)
}

/// A tmux invocation: its arguments, and what an error in running it says.
#[derive(Debug, Clone)]
pub struct TmuxCommand {
    pub args: Vec<String>,
    pub context: String,
}

impl View for TmuxCommand {
    type V = (Seq<Seq<char>>, Seq<char>);

    open spec fn view(&self) -> (Seq<Seq<char>>, Seq<char>) {
        (strs(self.args@), self.context@)
    }
}

/// The contents of each command in `cs`.
pub open spec fn commands_view(cs: Seq<TmuxCommand>) -> Seq<(Seq<Seq<char>>, Seq<char>)> {
    cs.map_values(|c: TmuxCommand| c@)
}

/// A tmux session for a project directory.
pub struct TmuxSession {
    pub session_name: String,
    pub project_path: String,
}

impl View for TmuxSession {
    type V = (Seq<char>, Seq<char>);

    open spec fn view(&self) -> (Seq<char>, Seq<char>) {
        (self.session_name@, self.project_path@)
    }
}

/// A character of a session name: `.` becomes `_` and a space becomes `-`.
pub open spec fn session_char(c: char) -> char {
    if c == '.' {
        '_'
    } else if c == ' ' {
        '-'
    } else {
        c
    }
}

/// The session name of a project directory: its last component (or
/// `project` when it has none), with dots made underscores and spaces
/// made dashes.
pub open spec fn session_name_for(path: Seq<char>) -> Seq<char> {
    let base = match path_file_name(path) {
        Some(n) => n,
        None => "project"@,
    };
    base.map_values(|c: char| session_char(c))
}

/// A command with its words and error context.
pub open spec fn cmd(args: Seq<Seq<char>>, ctx: Seq<char>) -> (Seq<Seq<char>>, Seq<char>) {
    (args, ctx)
}

/// The tmux target of a window of a session: `session:window`.
pub open spec fn window_target(session: Seq<char>, window: Seq<char>) -> Seq<char> {
    session + ":"@ + window
}

/// The commands for pane `idx` of a window: a split for every pane after
/// the first, then its command typed in when there is one.
pub open spec fn pane_step(target: Seq<char>, path: Seq<char>, idx: nat, command: Seq<char>) -> Seq<
    (Seq<Seq<char>>, Seq<char>),
> {
    (if idx > 0 {
        seq![cmd(seq!["split-window"@, "-t"@, target, "-c"@, path], "Failed to split pane"@)]
    } else {
        Seq::empty()
    }) + (if command.len() > 0 {
        seq![
            cmd(
                seq!["send-keys"@, "-t"@, target + "."@ + dec(idx), command, "Enter"@],
                "Failed to send keys to pane"@,
            ),
        ]
    } else {
        Seq::empty()
    })
}

/// The commands that create the panes of a window.
pub open spec fn pane_cmds(target: Seq<char>, path: Seq<char>, panes: Seq<Seq<char>>) -> Seq<
    (Seq<Seq<char>>, Seq<char>),
>
    decreases panes.len(),
{
    if panes.len() == 0 {
        Seq::empty()
    } else {
        pane_cmds(target, path, panes.drop_last()) + pane_step(
            target,
            path,
            (panes.len() - 1) as nat,
            panes.last(),
        )
    }
}

/// The commands that fill a created window: its panes, then its layout.
pub open spec fn window_cmds(
    target: Seq<char>,
    path: Seq<char>,
    w: (Seq<char>, Seq<Seq<char>>, Option<Seq<char>>),
) -> Seq<(Seq<Seq<char>>, Seq<char>)> {
    (if w.1.len() > 0 {
        pane_cmds(target, path, w.1)
    } else {
        Seq::empty()
    }) + match w.2 {
        Some(l) => seq![
            cmd(seq!["select-layout"@, "-t"@, target, l], "Failed to apply layout: "@ + l),
        ],
        None => Seq::empty(),
    }
}

/// The commands that add the windows `ws` to a created session.
pub open spec fn extra_window_cmds(
    session: Seq<char>,
    path: Seq<char>,
    ws: Seq<(Seq<char>, Seq<Seq<char>>, Option<Seq<char>>)>,
) -> Seq<(Seq<Seq<char>>, Seq<char>)>
    decreases ws.len(),
{
    if ws.len() == 0 {
        Seq::empty()
    } else {
        let w = ws.last();
        extra_window_cmds(session, path, ws.drop_last()) + seq![
            cmd(
                seq!["new-window"@, "-t"@, session, "-n"@, w.0, "-c"@, path],
                "Failed to create window: "@ + w.0,
            ),
        ] + window_cmds(window_target(session, w.0), path, w)
    }
}

/// The commands that create a session with one plain window.
pub open spec fn simple_session_cmds(session: Seq<char>, path: Seq<char>) -> Seq<
    (Seq<Seq<char>>, Seq<char>),
> {
    seq![
        cmd(
            seq!["new-session"@, "-d"@, "-s"@, session, "-c"@, path],
            "Failed to create tmux session"@,
        ),
    ]
}

/// The commands that create a session with the windows `ws` (at least one):
/// the first window with the session, the others after it, then the first
/// window selected.
pub open spec fn custom_session_cmds(
    session: Seq<char>,
    path: Seq<char>,
    ws: Seq<(Seq<char>, Seq<Seq<char>>, Option<Seq<char>>)>,
) -> Seq<(Seq<Seq<char>>, Seq<char>)> {
    let first = ws[0];
    let target = window_target(session, first.0);
    seq![
        cmd(
            seq!["new-session"@, "-d"@, "-s"@, session, "-n"@, first.0, "-c"@, path],
            "Failed to create tmux session"@,
        ),
    ] + window_cmds(target, path, first) + extra_window_cmds(session, path, ws.drop_first())
        + seq![cmd(seq!["select-window"@, "-t"@, target], "Failed to select first window"@)]
}

/// The command that switches to a session from inside tmux, or attaches to
/// it from outside.
pub open spec fn attach_cmd(session: Seq<char>, inside_tmux: bool, existing: bool) -> (
    Seq<Seq<char>>,
    Seq<char>,
) {
    if inside_tmux {
        cmd(
            seq!["switch-client"@, "-t"@, session],
            if existing {
                "Failed to switch to existing session"@
            } else {
                "Failed to switch to new session"@
            },
        )
    } else {
        cmd(
            seq!["attach-session"@, "-t"@, session],
            if existing {
                "Failed to attach to existing session"@
            } else {
                "Failed to attach to new session"@
            },
        )
    }
}

/// The commands that open a session: only the switch or attach when it
/// exists, otherwise its creation (plain when no window is configured)
/// followed by the switch or attach.
pub open spec fn session_cmds(
    session: Seq<char>,
    path: Seq<char>,
    ws: Seq<(Seq<char>, Seq<Seq<char>>, Option<Seq<char>>)>,
    exists: bool,
    inside_tmux: bool,
) -> Seq<(Seq<Seq<char>>, Seq<char>)> {
    if exists {
        seq![attach_cmd(session, inside_tmux, true)]
    } else {
        (if ws.len() == 0 {
            simple_session_cmds(session, path)
        } else {
            custom_session_cmds(session, path, ws)
        }) + seq![attach_cmd(session, inside_tmux, false)]
    }
}

/// Builds a command from its words and error context.
fn command(words: Vec<&str>, context: String) -> (r: TmuxCommand)
    ensures
        r@ == cmd(words@.map_values(|w: &str| w@), context@),
{
    TmuxCommand { args: owned_all(words.as_slice()), context }
}

/// Appends the commands of `more` to `cs`.
fn append_commands(cs: &mut Vec<TmuxCommand>, more: Vec<TmuxCommand>)
    ensures
        commands_view(final(cs)@) == commands_view(old(cs)@) + commands_view(more@),
{
    let mut more = more;
    let ghost a = commands_view(cs@);
    let ghost b = commands_view(more@);
    cs.append(&mut more);
    assert(commands_view(cs@) =~= a + b);
}

/// Appends one command to `cs`.
fn push_command(cs: &mut Vec<TmuxCommand>, c: TmuxCommand)
    ensures
        commands_view(final(cs)@) == commands_view(old(cs)@).push(c@),
{
    let ghost a = commands_view(cs@);
    let ghost v = c@;
    cs.push(c);
    assert(commands_view(cs@) =~= a.push(v));
}

/// Replaces the characters of a session name that tmux treats specially.
fn sanitize_session_name(s: &str) -> (r: String)
    ensures
        r@ == s@.map_values(|c: char| session_char(c)),
{
    let v = crate::text::chars_of(s);
    let mut out: Vec<char> = Vec::new();
    let mut i: usize = 0;
    while i < v.len()
        invariant
            i <= v@.len(),
            v@ == s@,
            out@ == v@.take(i as int).map_values(|c: char| session_char(c)),
        decreases v@.len() - i,
    {
        let c = v[i];
        let d = if c == '.' {
            '_'
        } else if c == ' ' {
            '-'
        } else {
            c
        };
        out.push(d);
        i = i + 1;
        assert(out@ =~= v@.take(i as int).map_values(|c: char| session_char(c)));
    }
    assert(v@.take(v@.len() as int) =~= v@);
    crate::text::string_of(out.as_slice())
}

/// The commands that create the panes of a window.
fn pane_commands(target: &str, path: &str, panes: &[String]) -> (r: Vec<TmuxCommand>)
    ensures
        commands_view(r@) == pane_cmds(target@, path@, strs(panes@)),
{
    let ghost ps = strs(panes@);
    let mut r: Vec<TmuxCommand> = Vec::new();
    let mut i: usize = 0;
    assert(ps.take(0) =~= Seq::<Seq<char>>::empty());
    assert(commands_view(r@) =~= Seq::empty());
    while i < panes.len()
        invariant
            i <= panes@.len(),
            ps == strs(panes@),
            commands_view(r@) == pane_cmds(target@, path@, ps.take(i as int)),
        decreases panes@.len() - i,
    {
        let ghost before = commands_view(r@);
        assert(ps.take(i + 1).drop_last() =~= ps.take(i as int));
        assert(ps.take(i + 1).last() == ps[i as int]);
        if i > 0 {
            push_command(
                &mut r,
                command(vec!["split-window", "-t", target, "-c", path], owned("Failed to split pane")),
            );
        }
        let ghost mid = commands_view(r@);
        if !crate::text::is_empty_str(panes[i].as_str()) {
            let idx = dec_string(i as u64);
            let dotted = concat(target, ".");
            let pane_target = concat(dotted.as_str(), idx.as_str());
            push_command(
                &mut r,
                command(
                    vec!["send-keys", "-t", pane_target.as_str(), panes[i].as_str(), "Enter"],
                    owned("Failed to send keys to pane"),
                ),
            );
        }
        assert(commands_view(r@) =~~= before + pane_step(target@, path@, i as nat, ps[i as int]));
        i = i + 1;
    }
    assert(ps.take(ps.len() as int) =~= ps);
    r
}

/// The commands that fill a created window: its panes, then its layout.
fn window_commands(target: &str, path: &str, w: &Window) -> (r: Vec<TmuxCommand>)
    ensures
        commands_view(r@) == window_cmds(target@, path@, w@),
{
    let mut r: Vec<TmuxCommand> = Vec::new();
    if w.panes.len() > 0 {
        r = pane_commands(target, path, w.panes.as_slice());
    }
    assert(commands_view(r@) =~= (if w@.1.len() > 0 {
        pane_cmds(target@, path@, w@.1)
    } else {
        Seq::empty()
    }));
    match &w.layout {
        Some(l) => {
            let ctx = concat("Failed to apply layout: ", l.as_str());
            push_command(&mut r, command(vec!["select-layout", "-t", target, l.as_str()], ctx));
        },
        None => {},
    }
    assert(commands_view(r@) =~~= window_cmds(target@, path@, w@));
    r
}

impl TmuxSession {
    /// The commands that create the session with one plain window.
    fn simple_session_commands(&self) -> (r: Vec<TmuxCommand>)
        ensures
            commands_view(r@) == simple_session_cmds(self@.0, self@.1),
    {
        let mut r: Vec<TmuxCommand> = Vec::new();
        push_command(
            &mut r,
            command(
                vec![
                    "new-session",
                    "-d",
                    "-s",
                    self.session_name.as_str(),
                    "-c",
                    self.project_path.as_str(),
                ],
                owned("Failed to create tmux session"),
            ),
        );
        assert(commands_view(r@) =~~= simple_session_cmds(self@.0, self@.1));
        r
    }

    /// The commands that create the session with the configured windows.
    fn custom_session_commands(&self, config: &SessionConfig) -> (r: Vec<TmuxCommand>)
        requires
            config.windows@.len() > 0,
        ensures
            commands_view(r@) == custom_session_cmds(
                self@.0,
                self@.1,
                windows_view(config.windows@),
            ),
    {
        let ghost ws = windows_view(config.windows@);
        let session = self.session_name.as_str();
        let path = self.project_path.as_str();
        let first = &config.windows[0];
        assert(ws[0] == first@);
        let mut r: Vec<TmuxCommand> = Vec::new();
        push_command(
            &mut r,
            command(
                vec!["new-session", "-d", "-s", session, "-n", first.name.as_str(), "-c", path],
                owned("Failed to create tmux session"),
            ),
        );
        let colon = concat(session, ":");
        let first_target = concat(colon.as_str(), first.name.as_str());
        let setup = window_commands(first_target.as_str(), path, first);
        append_commands(&mut r, setup);
        let ghost head = commands_view(r@);
        let ghost rest = ws.drop_first();
        let mut i: usize = 1;
        assert(rest.take(0) =~= Seq::empty());
        assert(commands_view(r@) =~= head + extra_window_cmds(self@.0, self@.1, rest.take(0)));
        while i < config.windows.len()
            invariant
                1 <= i <= config.windows@.len(),
                ws == windows_view(config.windows@),
                rest == ws.drop_first(),
                session@ == self@.0,
                path@ == self@.1,
                commands_view(r@) == head + extra_window_cmds(
                    self@.0,
                    self@.1,
                    rest.take(i - 1),
                ),
            decreases config.windows@.len() - i,
        {
            let w = &config.windows[i];
            assert(rest[i - 1] == w@);
            assert(rest.take(i as int).drop_last() =~= rest.take(i - 1));
            assert(rest.take(i as int).last() == w@);
            let ghost before = commands_view(r@);
            let ctx = concat("Failed to create window: ", w.name.as_str());
            push_command(
                &mut r,
                command(vec!["new-window", "-t", session, "-n", w.name.as_str(), "-c", path], ctx),
            );
            let c = concat(session, ":");
            let target = concat(c.as_str(), w.name.as_str());
            let setup = window_commands(target.as_str(), path, w);
            append_commands(&mut r, setup);
            assert(commands_view(r@) =~~= head + extra_window_cmds(
                self@.0,
                self@.1,
                rest.take(i as int),
            ));
            i = i + 1;
        }
        assert(rest.take(i - 1) =~= rest);
        push_command(
            &mut r,
            command(
                vec!["select-window", "-t", first_target.as_str()],
                owned("Failed to select first window"),
            ),
        );
        assert(commands_view(r@) =~~= custom_session_cmds(self@.0, self@.1, ws));
        r
    }

    /// The command that switches to or attaches to the session.
    fn attach_command(&self, inside_tmux: bool, existing: bool) -> (r: TmuxCommand)
        ensures
            r@ == attach_cmd(self@.0, inside_tmux, existing),
    {
        let session = self.session_name.as_str();
        if inside_tmux {
            let ctx = if existing {
                owned("Failed to switch to existing session")
            } else {
                owned("Failed to switch to new session")
            };
            command(vec!["switch-client", "-t", session], ctx)
        } else {
            let ctx = if existing {
                owned("Failed to attach to existing session")
            } else {
                owned("Failed to attach to new session")
            };
            command(vec!["attach-session", "-t", session], ctx)
        }
    }

    /// The tmux commands that open this session, run in order until one
    /// cannot be started: when the session already exists, only the switch
    /// (inside tmux) or attach (outside it); otherwise its creation with the
    /// configured windows, or one plain window when none is configured, and
    /// then the switch or attach.
    pub fn create_commands(
        &self,
        config: &SessionConfig,
        session_exists: bool,
        inside_tmux: bool,
    ) -> (r: Vec<TmuxCommand>)
        ensures
            commands_view(r@) == session_cmds(
                self@.0,
                self@.1,
                windows_view(config.windows@),
                session_exists,
                inside_tmux,
            ),
    {
        let mut r: Vec<TmuxCommand> = Vec::new();
        if session_exists {
            push_command(&mut r, self.attach_command(inside_tmux, true));
            assert(commands_view(r@) =~= seq![attach_cmd(self@.0, inside_tmux, true)]);
            return r;
        }
        if config.windows.len() == 0 {
            r = self.simple_session_commands();
        } else {
            r = self.custom_session_commands(config);
        }
        push_command(&mut r, self.attach_command(inside_tmux, false));
        r
    }

    /// The session for a project directory, named after its last component.
    pub fn new(project_path: &str) -> (r: Self)
        ensures
            r@ == (session_name_for(project_path@), project_path@),
            forall|i: int|
                0 <= i < r@.0.len() ==> #[trigger] r@.0[i] != '.' && r@.0[i] != ' ',
    {
        let base = match file_name_of(project_path) {
            Some(n) => n,
            None => owned("project"),
        };
        let session_name = sanitize_session_name(base.as_str());
        proof {
            assert forall|i: int| 0 <= i < session_name@.len() implies #[trigger] session_name@[i]
                != '.' && session_name@[i] != ' ' by {
                assert(session_name@[i] == session_char(base@[i]));
            }
        }
        TmuxSession { session_name, project_path: owned(project_path) }
    }

    /// The project directory of this session.
    pub fn project_path(&self) -> (r: &str)
        ensures
            r@ == self@.1,
    {
        self.project_path.as_str()
    }

    /// The command that asks tmux whether this session exists.
    pub fn has_session_command(&self) -> (r: Vec<String>)
        ensures
            strs(r@) == seq!["has-session"@, "-t"@, self@.0],
    {
        let words = vec!["has-session", "-t", self.session_name.as_str()];
        let r = owned_all(words.as_slice());
        assert(words@.map_values(|w: &str| w@) =~= seq!["has-session"@, "-t"@, self@.0]);
        r
    }
}


/// Opening a session always ends by switching to it (inside tmux) or
/// attaching to it (outside), and when it already exists that is all that
/// is done.
pub proof fn law_session_ends_with_attach(
    session: Seq<char>,
    path: Seq<char>,
    ws: Seq<(Seq<char>, Seq<Seq<char>>, Option<Seq<char>>)>,
    exists: bool,
    inside_tmux: bool,
)
    ensures
        session_cmds(session, path, ws, exists, inside_tmux).len() >= 1,
        session_cmds(session, path, ws, exists, inside_tmux).last() == attach_cmd(
            session,
            inside_tmux,
            exists,
        ),
        exists ==> session_cmds(session, path, ws, exists, inside_tmux).len() == 1,
{
}

/// A session that does not exist yet is first created, detached, under its
/// name and in the project directory.
pub proof fn law_new_session_created_first(
    session: Seq<char>,
    path: Seq<char>,
    ws: Seq<(Seq<char>, Seq<Seq<char>>, Option<Seq<char>>)>,
    inside_tmux: bool,
)
    ensures
        ({
            let c = session_cmds(session, path, ws, false, inside_tmux)[0].0;
            &&& c.take(4) == seq!["new-session"@, "-d"@, "-s"@, session]
            &&& c.last() == path
            &&& c[c.len() - 2] == "-c"@
        }),
{
    let cmds = session_cmds(session, path, ws, false, inside_tmux);
    if ws.len() == 0 {
        assert(cmds[0] == simple_session_cmds(session, path)[0]);
    } else {
        assert(cmds[0] == custom_session_cmds(session, path, ws)[0]);
    }
    assert(cmds[0].0.take(4) =~= seq!["new-session"@, "-d"@, "-s"@, session]);
}


/// How many of the commands `cs` split a pane.
pub open spec fn split_count(cs: Seq<(Seq<Seq<char>>, Seq<char>)>) -> nat
    decreases cs.len(),
{
    if cs.len() == 0 {
        0
    } else {
        split_count(cs.drop_last()) + if cs.last().0.len() > 0 && cs.last().0[0] == "split-window"@ {
            1nat
        } else {
            0nat
        }
    }
}

/// Counting splits over two runs of commands adds up.
proof fn lemma_split_count_add(a: Seq<(Seq<Seq<char>>, Seq<char>)>, b: Seq<(Seq<Seq<char>>, Seq<char>)>)
    ensures
        split_count(a + b) == split_count(a) + split_count(b),
    decreases b.len(),
{
    if b.len() == 0 {
        assert(a + b =~= a);
    } else {
        lemma_split_count_add(a, b.drop_last());
        assert((a + b).drop_last() =~= a + b.drop_last());
        assert((a + b).last() == b.last());
    }
}

/// A window's first pane is the one it opens with, and each further pane
/// is made by one split: `n` panes take `n - 1` splits.
pub proof fn law_panes_by_splitting(target: Seq<char>, path: Seq<char>, panes: Seq<Seq<char>>)
    requires
        panes.len() > 0,
    ensures
        split_count(pane_cmds(target, path, panes)) == panes.len() - 1,
    decreases panes.len(),
{
    reveal_strlit("split-window");
    reveal_strlit("send-keys");
    let idx = (panes.len() - 1) as nat;
    let step = pane_step(target, path, idx, panes.last());
    let sends = if panes.last().len() > 0 {
        seq![
            cmd(
                seq!["send-keys"@, "-t"@, target + "."@ + dec(idx), panes.last(), "Enter"@],
                "Failed to send keys to pane"@,
            ),
        ]
    } else {
        Seq::<(Seq<Seq<char>>, Seq<char>)>::empty()
    };
    assert("send-keys"@ != "split-window"@) by {
        assert("send-keys"@.len() != "split-window"@.len());
    }
    assert(split_count(sends) == 0) by {
        if sends.len() > 0 {
            assert(sends.drop_last() =~= Seq::<(Seq<Seq<char>>, Seq<char>)>::empty());
            assert(split_count(sends.drop_last()) == 0);
            assert(sends.last().0[0] == "send-keys"@);
        }
    }
    let splits = if idx > 0 {
        seq![cmd(seq!["split-window"@, "-t"@, target, "-c"@, path], "Failed to split pane"@)]
    } else {
        Seq::<(Seq<Seq<char>>, Seq<char>)>::empty()
    };
    assert(split_count(splits) == if idx > 0 { 1nat } else { 0nat }) by {
        if idx > 0 {
            assert(splits.drop_last() =~= Seq::<(Seq<Seq<char>>, Seq<char>)>::empty());
        }
    }
    assert(step == splits + sends);
    lemma_split_count_add(splits, sends);
    if panes.len() == 1 {
        assert(pane_cmds(target, path, panes.drop_last()) =~= Seq::<(Seq<Seq<char>>, Seq<char>)>::empty());
        lemma_split_count_add(pane_cmds(target, path, panes.drop_last()), step);
    } else {
        law_panes_by_splitting(target, path, panes.drop_last());
        lemma_split_count_add(pane_cmds(target, path, panes.drop_last()), step);
    }
}


/// Whether a command names session `session`: one of its words begins with
/// the session name (the name itself, or a `session:window` target).
pub open spec fn names_session(c: (Seq<Seq<char>>, Seq<char>), session: Seq<char>) -> bool {
    exists|j: int| 0 <= j < c.0.len() && session.is_prefix_of(#[trigger] c.0[j])
}

/// Whether every command of `cs` names session `session`.
pub open spec fn all_name_session(cs: Seq<(Seq<Seq<char>>, Seq<char>)>, session: Seq<char>) -> bool {
    forall|k: int| 0 <= k < cs.len() ==> names_session(#[trigger] cs[k], session)
}

/// Commands that all name the session still do when put together.
proof fn lemma_all_name_session_add(
    a: Seq<(Seq<Seq<char>>, Seq<char>)>,
    b: Seq<(Seq<Seq<char>>, Seq<char>)>,
    session: Seq<char>,
)
    requires
        all_name_session(a, session),
        all_name_session(b, session),
    ensures
        all_name_session(a + b, session),
{
    assert forall|k: int| 0 <= k < (a + b).len() implies names_session(#[trigger] (a + b)[k], session) by {
        if k < a.len() {
            assert((a + b)[k] == a[k]);
        } else {
            assert((a + b)[k] == b[k - a.len()]);
        }
    }
}

/// A word at position `j` that begins with the session name makes the
/// command name the session.
proof fn lemma_names_at(c: (Seq<Seq<char>>, Seq<char>), session: Seq<char>, j: int)
    requires
        0 <= j < c.0.len(),
        session.is_prefix_of(c.0[j]),
    ensures
        names_session(c, session),
{
}

/// A window target of the session begins with the session name.
proof fn lemma_target_prefix(session: Seq<char>, window: Seq<char>, rest: Seq<char>)
    ensures
        session.is_prefix_of(window_target(session, window) + rest),
{
    assert forall|i: int| 0 <= i < session.len() implies session[i] == (window_target(session, window)
        + rest)[i] by {
    }
}

/// The pane commands of a window of the session all name the session.
proof fn lemma_pane_cmds_name_session(session: Seq<char>, window: Seq<char>, path: Seq<char>, panes: Seq<Seq<char>>)
    ensures
        all_name_session(pane_cmds(window_target(session, window), path, panes), session),
    decreases panes.len(),
{
    let target = window_target(session, window);
    if panes.len() > 0 {
        lemma_pane_cmds_name_session(session, window, path, panes.drop_last());
        let idx = (panes.len() - 1) as nat;
        let step = pane_step(target, path, idx, panes.last());
        assert(all_name_session(step, session)) by {
            lemma_target_prefix(session, window, Seq::empty());
            assert(target + Seq::<char>::empty() =~= target);
            lemma_target_prefix(session, window, "."@ + dec(idx));
            assert(target + "."@ + dec(idx) =~= target + ("."@ + dec(idx)));
            assert forall|k: int| 0 <= k < step.len() implies names_session(#[trigger] step[k], session) by {
                assert(step[k].0[2] == target || step[k].0[2] == target + "."@ + dec(idx));
                lemma_names_at(step[k], session, 2);
            }
        }
        lemma_all_name_session_add(pane_cmds(target, path, panes.drop_last()), step, session);
    }
}

/// The commands that fill a window of the session all name the session.
proof fn lemma_window_cmds_name_session(
    session: Seq<char>,
    path: Seq<char>,
    w: (Seq<char>, Seq<Seq<char>>, Option<Seq<char>>),
)
    ensures
        all_name_session(window_cmds(window_target(session, w.0), path, w), session),
{
    let target = window_target(session, w.0);
    lemma_pane_cmds_name_session(session, w.0, path, w.1);
    let panes = if w.1.len() > 0 {
        pane_cmds(target, path, w.1)
    } else {
        Seq::<(Seq<Seq<char>>, Seq<char>)>::empty()
    };
    let layout = match w.2 {
        Some(l) => seq![
            cmd(seq!["select-layout"@, "-t"@, target, l], "Failed to apply layout: "@ + l),
        ],
        None => Seq::<(Seq<Seq<char>>, Seq<char>)>::empty(),
    };
    lemma_target_prefix(session, w.0, Seq::empty());
    assert(target + Seq::<char>::empty() =~= target);
    assert forall|k: int| 0 <= k < layout.len() implies names_session(#[trigger] layout[k], session) by {
        lemma_names_at(layout[k], session, 2);
    }
    lemma_all_name_session_add(panes, layout, session);
}

/// The commands that add windows to the session all name the session.
proof fn lemma_extra_windows_name_session(
    session: Seq<char>,
    path: Seq<char>,
    ws: Seq<(Seq<char>, Seq<Seq<char>>, Option<Seq<char>>)>,
)
    ensures
        all_name_session(extra_window_cmds(session, path, ws), session),
    decreases ws.len(),
{
    if ws.len() > 0 {
        let w = ws.last();
        lemma_extra_windows_name_session(session, path, ws.drop_last());
        let create = seq![
            cmd(
                seq!["new-window"@, "-t"@, session, "-n"@, w.0, "-c"@, path],
                "Failed to create window: "@ + w.0,
            ),
        ];
        assert(session.is_prefix_of(session));
        lemma_names_at(create[0], session, 2);
        lemma_all_name_session_add(extra_window_cmds(session, path, ws.drop_last()), create, session);
        lemma_window_cmds_name_session(session, path, w);
        lemma_all_name_session_add(
            extra_window_cmds(session, path, ws.drop_last()) + create,
            window_cmds(window_target(session, w.0), path, w),
            session,
        );
    }
}

/// Opening a project only ever acts on its own session: every tmux command
/// of the plan names the session, by its name or by one of its windows.
pub proof fn law_commands_act_on_the_session(
    session: Seq<char>,
    path: Seq<char>,
    ws: Seq<(Seq<char>, Seq<Seq<char>>, Option<Seq<char>>)>,
    exists: bool,
    inside_tmux: bool,
)
    ensures
        all_name_session(session_cmds(session, path, ws, exists, inside_tmux), session),
{
    assert(session.is_prefix_of(session));
    let attach = seq![attach_cmd(session, inside_tmux, exists)];
    lemma_names_at(attach[0], session, 2);
    if !exists {
        let attach_new = seq![attach_cmd(session, inside_tmux, false)];
        lemma_names_at(attach_new[0], session, 2);
        if ws.len() == 0 {
            let s = simple_session_cmds(session, path);
            lemma_names_at(s[0], session, 3);
            lemma_all_name_session_add(s, attach_new, session);
        } else {
            let first = ws[0];
            let target = window_target(session, first.0);
            let create = seq![
                cmd(
                    seq!["new-session"@, "-d"@, "-s"@, session, "-n"@, first.0, "-c"@, path],
                    "Failed to create tmux session"@,
                ),
            ];
            lemma_names_at(create[0], session, 3);
            lemma_window_cmds_name_session(session, path, first);
            lemma_extra_windows_name_session(session, path, ws.drop_first());
            lemma_target_prefix(session, first.0, Seq::empty());
            assert(target + Seq::<char>::empty() =~= target);
            let select = seq![cmd(seq!["select-window"@, "-t"@, target], "Failed to select first window"@)];
            lemma_names_at(select[0], session, 2);
            lemma_all_name_session_add(create, window_cmds(target, path, first), session);
            lemma_all_name_session_add(
                create + window_cmds(target, path, first),
                extra_window_cmds(session, path, ws.drop_first()),
                session,
            );
            lemma_all_name_session_add(
                create + window_cmds(target, path, first) + extra_window_cmds(session, path, ws.drop_first()),
                select,
                session,
            );
            assert(custom_session_cmds(session, path, ws) == create + window_cmds(target, path, first)
                + extra_window_cmds(session, path, ws.drop_first()) + select);
            lemma_all_name_session_add(custom_session_cmds(session, path, ws), attach_new, session);
        }
    }
}

/// The words of the command that applies layout `l` to the window `target`.
pub open spec fn layout_words(target: Seq<char>, l: Seq<char>) -> Seq<Seq<char>> {
    seq!["select-layout"@, "-t"@, target, l]
}

/// The words of the command that creates window `i` of `ws`: the session
/// itself for the first window, a new window for the others.
pub open spec fn creation_words(
    session: Seq<char>,
    path: Seq<char>,
    ws: Seq<(Seq<char>, Seq<Seq<char>>, Option<Seq<char>>)>,
    i: int,
) -> Seq<Seq<char>> {
    if i == 0 {
        seq!["new-session"@, "-d"@, "-s"@, session, "-n"@, ws[0].0, "-c"@, path]
    } else {
        seq!["new-window"@, "-t"@, session, "-n"@, ws[i].0, "-c"@, path]
    }
}

/// Whether, among the first `limit` commands of `cs`, one with the words
/// `make` comes before one that applies layout `l` to `target`, and that
/// one ends the window's commands: it is the last of the `limit`, or the
/// next command creates another window.
pub open spec fn laid_out_after(
    cs: Seq<(Seq<Seq<char>>, Seq<char>)>,
    make: Seq<Seq<char>>,
    target: Seq<char>,
    l: Seq<char>,
    limit: int,
) -> bool {
    exists|j: int, k: int|
        #![trigger cs[j], cs[k]]
        0 <= j < k < limit && limit <= cs.len() && cs[j].0 == make && cs[k].0 == layout_words(target, l)
            && (k + 1 == limit || cs[k + 1].0[0] == "new-window"@)
}

/// The commands that add windows begin with the creation of a window.
proof fn lemma_extra_windows_start(
    session: Seq<char>,
    path: Seq<char>,
    ws: Seq<(Seq<char>, Seq<Seq<char>>, Option<Seq<char>>)>,
)
    ensures
        extra_window_cmds(session, path, ws).len() > 0 ==> extra_window_cmds(session, path, ws)[0].0[0]
            == "new-window"@,
    decreases ws.len(),
{
    if ws.len() > 0 {
        let front = ws.drop_last();
        lemma_extra_windows_start(session, path, front);
        let ef = extra_window_cmds(session, path, front);
        let w = ws.last();
        let c = cmd(seq!["new-window"@, "-t"@, session, "-n"@, w.0, "-c"@, path], "Failed to create window: "@ + w.0);
        let e = extra_window_cmds(session, path, ws);
        assert(e == ef + seq![c] + window_cmds(window_target(session, w.0), path, w));
        if ef.len() > 0 {
            assert(e[0] == ef[0]);
        } else {
            assert(e[0] == c);
        }
    }
}

/// Every added window with a layout is created and then given its layout.
proof fn lemma_extra_windows_laid_out(
    session: Seq<char>,
    path: Seq<char>,
    ws: Seq<(Seq<char>, Seq<Seq<char>>, Option<Seq<char>>)>,
)
    ensures
        forall|i: int|
            0 <= i < ws.len() && (#[trigger] ws[i]).2 is Some ==> laid_out_after(
                extra_window_cmds(session, path, ws),
                seq!["new-window"@, "-t"@, session, "-n"@, ws[i].0, "-c"@, path],
                window_target(session, ws[i].0),
                ws[i].2->0,
                extra_window_cmds(session, path, ws).len() as int,
            ),
    decreases ws.len(),
{
    if ws.len() > 0 {
        let front = ws.drop_last();
        lemma_extra_windows_laid_out(session, path, front);
        let ef = extra_window_cmds(session, path, front);
        let w = ws.last();
        let target = window_target(session, w.0);
        let c = cmd(seq!["new-window"@, "-t"@, session, "-n"@, w.0, "-c"@, path], "Failed to create window: "@ + w.0);
        let wc = window_cmds(target, path, w);
        let e = extra_window_cmds(session, path, ws);
        assert(e == ef + seq![c] + wc);
        assert forall|i: int|
            0 <= i < ws.len() && (#[trigger] ws[i]).2 is Some implies laid_out_after(
                e,
                seq!["new-window"@, "-t"@, session, "-n"@, ws[i].0, "-c"@, path],
                window_target(session, ws[i].0),
                ws[i].2->0,
                e.len() as int,
            ) by {
            if i < ws.len() - 1 {
                assert(front[i] == ws[i]);
                let (j, k) = choose|j: int, k: int|
                    #![trigger ef[j], ef[k]]
                    0 <= j < k < ef.len() as int && ef.len() as int <= ef.len() && ef[j].0
                        == seq!["new-window"@, "-t"@, session, "-n"@, front[i].0, "-c"@, path]
                        && ef[k].0 == layout_words(window_target(session, front[i].0), front[i].2->0)
                        && (k + 1 == ef.len() as int || ef[k + 1].0[0] == "new-window"@);
                assert(e[j] == ef[j] && e[k] == ef[k]);
                if k + 1 == ef.len() {
                    assert(e[k + 1] == c);
                } else {
                    assert(e[k + 1] == ef[k + 1]);
                }
            } else {
                let j = ef.len() as int;
                let k = e.len() - 1;
                assert(e[j] == c);
                assert(wc.len() > 0);
                assert(e[k] == wc[wc.len() - 1]);
                assert(wc[wc.len() - 1].0 == layout_words(target, w.2->0));
            }
        }
    }
}

/// Law: opening a new session with configured windows gives every window
/// that has a layout its layout, the first window and every later one
/// alike: the command that creates the window comes first, then the one
/// that applies the layout to `session:window`, and both come before the
/// first window is selected (the command before the last).
pub proof fn law_every_window_gets_its_layout(
    session: Seq<char>,
    path: Seq<char>,
    ws: Seq<(Seq<char>, Seq<Seq<char>>, Option<Seq<char>>)>,
    inside_tmux: bool,
)
    requires
        ws.len() > 0,
    ensures
        ({
            let cs = session_cmds(session, path, ws, false, inside_tmux);
            &&& cs.len() >= 2
            &&& cs[cs.len() - 2].0 == seq!["select-window"@, "-t"@, window_target(session, ws[0].0)]
            &&& forall|i: int|
                0 <= i < ws.len() && (#[trigger] ws[i]).2 is Some ==> laid_out_after(
                    cs,
                    creation_words(session, path, ws, i),
                    window_target(session, ws[i].0),
                    ws[i].2->0,
                    cs.len() - 2,
                )
        }),
{
    let cs = session_cmds(session, path, ws, false, inside_tmux);
    let first = ws[0];
    let target = window_target(session, first.0);
    let ns = cmd(
        seq!["new-session"@, "-d"@, "-s"@, session, "-n"@, first.0, "-c"@, path],
        "Failed to create tmux session"@,
    );
    let w0 = window_cmds(target, path, first);
    let rest = ws.drop_first();
    let ex = extra_window_cmds(session, path, rest);
    let sel = cmd(seq!["select-window"@, "-t"@, target], "Failed to select first window"@);
    assert(cs == seq![ns] + w0 + ex + seq![sel] + seq![attach_cmd(session, inside_tmux, false)]);
    lemma_extra_windows_laid_out(session, path, rest);
    lemma_extra_windows_start(session, path, rest);
    assert(cs[cs.len() - 2] == sel);
    assert forall|i: int|
        0 <= i < ws.len() && (#[trigger] ws[i]).2 is Some implies laid_out_after(
            cs,
            creation_words(session, path, ws, i),
            window_target(session, ws[i].0),
            ws[i].2->0,
            cs.len() - 2,
        ) by {
        if i == 0 {
            assert(cs[0] == ns);
            let k = w0.len() as int;
            assert(w0.len() > 0);
            assert(cs[k] == w0[w0.len() - 1]);
            assert(w0[w0.len() - 1].0 == layout_words(target, first.2->0));
            if ex.len() > 0 {
                assert(cs[k + 1] == ex[0]);
            }
        } else {
            assert(rest[i - 1] == ws[i]);
            let (j, k) = choose|j: int, k: int|
                #![trigger ex[j], ex[k]]
                0 <= j < k < ex.len() as int && ex.len() as int <= ex.len() && ex[j].0
                    == seq!["new-window"@, "-t"@, session, "-n"@, rest[i - 1].0, "-c"@, path]
                    && ex[k].0 == layout_words(window_target(session, rest[i - 1].0), rest[i - 1].2->0)
                    && (k + 1 == ex.len() as int || ex[k + 1].0[0] == "new-window"@);
            let off = 1 + w0.len();
            assert(cs[off + j] == ex[j]);
            assert(cs[off + k] == ex[k]);
            if k + 1 < ex.len() {
                assert(cs[off + k + 1] == ex[k + 1]);
            }
        }
    }
}

} // verus!
