//! What the first-run setup reports once the configuration is saved: the
//! lines of the summary, each made of pieces in a tone that the terminal
//! output styles.
use vstd::prelude::*;
use crate::session::{windows_view, Window};
use crate::text::{concat, dec, dec_string, owned};

verus! {

/// How a piece of text is shown.
#[derive(Debug, Clone, Copy, PartialEq, Eq, Structural)]
pub enum Tone {
    Plain,
    Success,
    Label,
    Value,
    Path,
    Window,
    Info,
    Enabled,
    Disabled,
}

/// A piece of a line of output, in a tone.
#[derive(Debug, Clone)]
pub struct Piece {
    pub tone: Tone,
    pub text: String,
}

impl View for Piece {
    type V = (Tone, Seq<char>);

    open spec fn view(&self) -> (Tone, Seq<char>) {
        (self.tone, self.text@)
    }
}

/// The pieces of each line.
pub open spec fn lines_view(lines: Seq<Vec<Piece>>) -> Seq<Seq<(Tone, Seq<char>)>> {
    lines.map_values(|l: Vec<Piece>| l@.map_values(|p: Piece| p@))
}

/// A line of one piece.
pub open spec fn one(tone: Tone, text: Seq<char>) -> Seq<(Tone, Seq<char>)> {
    seq![(tone, text)]
}

/// An indented line naming a setting, its value, and its unit.
pub open spec fn setting_line(label: Seq<char>, value: Seq<char>, unit: Seq<char>) -> Seq<(Tone, Seq<char>)> {
    seq![
        (Tone::Plain, "    "@),
        (Tone::Label, label),
        (Tone::Plain, " "@),
        (Tone::Value, value),
        (Tone::Plain, " "@),
        (Tone::Label, unit),
    ]
}

/// The line listing a directory to scan.
pub open spec fn path_line(p: Seq<char>) -> Seq<(Tone, Seq<char>)> {
    seq![(Tone::Plain, "    "@), (Tone::Path, "• "@ + p)]
}

/// The line describing pane `i` (counted from 0) with its command.
pub open spec fn pane_line(i: nat, command: Seq<char>) -> Seq<(Tone, Seq<char>)> {
    one(
        Tone::Info,
        if command.len() == 0 {
            "    └─ pane "@ + dec(i + 1) + " (shell)"@
        } else {
            "    └─ pane "@ + dec(i + 1) + ": "@ + command
        },
    )
}

/// The line naming a window's layout, when it has one.
pub open spec fn layout_lines(layout: Option<Seq<char>>) -> Seq<Seq<(Tone, Seq<char>)>> {
    match layout {
        Some(l) => seq![one(Tone::Info, "    └─ layout: "@ + l)],
        None => Seq::empty(),
    }
}

/// The lines describing a window, its panes and its layout.
pub open spec fn window_lines(w: (Seq<char>, Seq<Seq<char>>, Option<Seq<char>>)) -> Seq<
    Seq<(Tone, Seq<char>)>,
> {
    seq![seq![(Tone::Plain, "    "@), (Tone::Window, "◦ "@ + w.0)]] + Seq::new(
        w.1.len(),
        |i: int| pane_line(i as nat, w.1[i]),
    ) + layout_lines(w.2)
}

/// The lines describing the windows `ws`, in order.
pub open spec fn windows_lines(ws: Seq<(Seq<char>, Seq<Seq<char>>, Option<Seq<char>>)>) -> Seq<
    Seq<(Tone, Seq<char>)>,
>
    decreases ws.len(),
{
    if ws.len() == 0 {
        Seq::empty()
    } else {
        windows_lines(ws.drop_last()) + window_lines(ws.last())
    }
}

/// The summary shown once the configuration is saved: where projects are
/// looked for and how deep, whether the cache is on (and its lifetime when
/// it is), and the windows of the default session with their panes and
/// layouts.
pub open spec fn summary_lines(
    paths: Seq<Seq<char>>,
    max_depth: nat,
    cache_enabled: bool,
    cache_ttl_hours: nat,
    windows: Seq<(Seq<char>, Seq<Seq<char>>, Option<Seq<char>>)>,
) -> Seq<Seq<(Tone, Seq<char>)>> {
    let blank = Seq::<(Tone, Seq<char>)>::empty();
    seq![
        blank,
        one(Tone::Success, "  ✅ Configuration saved!"@),
        blank,
        one(Tone::Label, "  📁 Project Discovery:"@),
        setting_line("Max scan depth:"@, dec(max_depth), "levels"@),
        blank,
        one(Tone::Label, "  📂 Directories:"@),
    ] + paths.map_values(|p: Seq<char>| path_line(p)) + seq![
        blank,
        one(Tone::Label, "  💾 Cache Settings:"@),
        seq![
            (Tone::Plain, "    "@),
            (Tone::Label, "Status:"@),
            (Tone::Plain, " "@),
            if cache_enabled {
                (Tone::Enabled, "enabled"@)
            } else {
                (Tone::Disabled, "disabled"@)
            },
        ],
    ] + (if cache_enabled {
        seq![setting_line("TTL:"@, dec(cache_ttl_hours), "hours"@)]
    } else {
        Seq::empty()
    }) + seq![blank, one(Tone::Label, "  🪟 Default Windows:"@)] + windows_lines(windows) + seq![
        blank,
        one(
            Tone::Info,
            "  ⚙️  You can edit ~/.config/tmuxido/tmuxido.toml anytime to change these settings."@,
        ),
        blank,
    ]
}

/// A piece of text in a tone.
fn piece(tone: Tone, text: &str) -> (r: Piece)
    ensures
        r@ == (tone, text@),
{
    Piece { tone, text: owned(text) }
}

/// Appends a line to `lines`.
fn push_line(lines: &mut Vec<Vec<Piece>>, line: Vec<Piece>)
    ensures
        lines_view(final(lines)@) == lines_view(old(lines)@).push(line@.map_values(|p: Piece| p@)),
{
    let ghost before = lines_view(lines@);
    let ghost lv = line@.map_values(|p: Piece| p@);
    lines.push(line);
    assert(lines_view(lines@) =~= before.push(lv));
}

/// Appends an empty line.
fn push_blank(lines: &mut Vec<Vec<Piece>>)
    ensures
        lines_view(final(lines)@) == lines_view(old(lines)@).push(Seq::empty()),
{
    let line: Vec<Piece> = Vec::new();
    assert(line@.map_values(|p: Piece| p@) =~= Seq::<(Tone, Seq<char>)>::empty());
    push_line(lines, line);
}

/// Appends a line of one piece.
fn push_one(lines: &mut Vec<Vec<Piece>>, tone: Tone, text: &str)
    ensures
        lines_view(final(lines)@) == lines_view(old(lines)@).push(one(tone, text@)),
{
    let line = vec![piece(tone, text)];
    assert(line@.map_values(|p: Piece| p@) =~= one(tone, text@));
    push_line(lines, line);
}

/// Appends a setting line.
fn push_setting(lines: &mut Vec<Vec<Piece>>, label: &str, value: &str, unit: &str)
    ensures
        lines_view(final(lines)@) == lines_view(old(lines)@).push(setting_line(label@, value@, unit@)),
{
    let line = vec![
        piece(Tone::Plain, "    "),
        piece(Tone::Label, label),
        piece(Tone::Plain, " "),
        piece(Tone::Value, value),
        piece(Tone::Plain, " "),
        piece(Tone::Label, unit),
    ];
    assert(line@.map_values(|p: Piece| p@) =~= setting_line(label@, value@, unit@));
    push_line(lines, line);
}

/// Appends the lines describing a window, its panes and its layout.
fn push_window(lines: &mut Vec<Vec<Piece>>, w: &Window)
    ensures
        lines_view(final(lines)@) == lines_view(old(lines)@) + window_lines(w@),
{
    let ghost start = lines_view(lines@);
    let head = vec![piece(Tone::Plain, "    "), Piece { tone: Tone::Window, text: concat("◦ ", w.name.as_str()) }];
    assert(head@.map_values(|p: Piece| p@) =~= seq![(Tone::Plain, "    "@), (Tone::Window, "◦ "@ + w@.0)]);
    push_line(lines, head);
    let ghost panes = w@.1;
    let ghost pl = Seq::new(panes.len(), |i: int| pane_line(i as nat, panes[i]));
    let mut i: usize = 0;
    assert(pl.take(0) =~= Seq::<Seq<(Tone, Seq<char>)>>::empty());
    while i < w.panes.len()
        invariant
            i <= w.panes@.len(),
            panes == w@.1,
            pl == Seq::new(panes.len(), |i: int| pane_line(i as nat, panes[i])),
            lines_view(lines@) == start + seq![seq![(Tone::Plain, "    "@), (Tone::Window, "◦ "@ + w@.0)]] + pl.take(i as int),
        decreases w.panes@.len() - i,
    {
        let number = dec_string(i as u64 + 1);
        let command = w.panes[i].as_str();
        assert(panes[i as int] == command@);
        let a = concat("    └─ pane ", number.as_str());
        let text = if command.unicode_len() == 0 {
            concat(a.as_str(), " (shell)")
        } else {
            let b = concat(a.as_str(), ": ");
            concat(b.as_str(), command)
        };
        let ghost before = lines_view(lines@);
        push_one(lines, Tone::Info, text.as_str());
        assert(pl[i as int] == one(Tone::Info, text@));
        assert(pl.take(i + 1) =~= pl.take(i as int).push(pl[i as int]));
        i = i + 1;
    }
    assert(pl.take(panes.len() as int) =~= pl);
    let ghost after_panes = lines_view(lines@);
    match &w.layout {
        Some(l) => {
            let text = concat("    └─ layout: ", l.as_str());
            push_one(lines, Tone::Info, text.as_str());
            assert(lines_view(lines@) =~= after_panes + layout_lines(w@.2));
        },
        None => {
            assert(lines_view(lines@) =~= after_panes + layout_lines(w@.2));
        },
    }
}

/// The lines of the summary shown once the configuration is saved.
pub fn config_summary(
    paths: &[String],
    max_depth: usize,
    cache_enabled: bool,
    cache_ttl_hours: u64,
    windows: &[Window],
) -> (r: Vec<Vec<Piece>>)
    ensures
        lines_view(r@) == summary_lines(
            crate::text::strs(paths@),
            max_depth as nat,
            cache_enabled,
            cache_ttl_hours as nat,
            windows_view(windows@),
        ),
{
    let mut lines: Vec<Vec<Piece>> = Vec::new();
    push_blank(&mut lines);
    push_one(&mut lines, Tone::Success, "  ✅ Configuration saved!");
    push_blank(&mut lines);
    push_one(&mut lines, Tone::Label, "  📁 Project Discovery:");
    let depth = dec_string(max_depth as u64);
    push_setting(&mut lines, "Max scan depth:", depth.as_str(), "levels");
    push_blank(&mut lines);
    push_one(&mut lines, Tone::Label, "  📂 Directories:");
    let ghost head = lines_view(lines@);
    let ghost ps = crate::text::strs(paths@).map_values(|p: Seq<char>| path_line(p));
    let mut i: usize = 0;
    assert(ps.take(0) =~= Seq::<Seq<(Tone, Seq<char>)>>::empty());
    while i < paths.len()
        invariant
            i <= paths@.len(),
            ps == crate::text::strs(paths@).map_values(|p: Seq<char>| path_line(p)),
            lines_view(lines@) == head + ps.take(i as int),
        decreases paths@.len() - i,
    {
        let line = vec![
            piece(Tone::Plain, "    "),
            Piece { tone: Tone::Path, text: concat("• ", paths[i].as_str()) },
        ];
        assert(line@.map_values(|p: Piece| p@) =~= path_line(paths@[i as int]@));
        push_line(&mut lines, line);
        assert(ps.take(i + 1) =~= ps.take(i as int).push(ps[i as int]));
        i = i + 1;
    }
    assert(ps.take(paths@.len() as int) =~= ps);
    push_blank(&mut lines);
    push_one(&mut lines, Tone::Label, "  💾 Cache Settings:");
    let status = if cache_enabled {
        piece(Tone::Enabled, "enabled")
    } else {
        piece(Tone::Disabled, "disabled")
    };
    let line = vec![piece(Tone::Plain, "    "), piece(Tone::Label, "Status:"), piece(Tone::Plain, " "), status];
    assert(line@.map_values(|p: Piece| p@) =~= seq![
        (Tone::Plain, "    "@),
        (Tone::Label, "Status:"@),
        (Tone::Plain, " "@),
        if cache_enabled {
            (Tone::Enabled, "enabled"@)
        } else {
            (Tone::Disabled, "disabled"@)
        },
    ]);
    push_line(&mut lines, line);
    let ghost mid = lines_view(lines@);
    if cache_enabled {
        let ttl = dec_string(cache_ttl_hours);
        push_setting(&mut lines, "TTL:", ttl.as_str(), "hours");
    }
    push_blank(&mut lines);
    push_one(&mut lines, Tone::Label, "  🪟 Default Windows:");
    let ghost before_windows = lines_view(lines@);
    let ghost wv = windows_view(windows@);
    let mut k: usize = 0;
    assert(wv.take(0) =~= Seq::<(Seq<char>, Seq<Seq<char>>, Option<Seq<char>>)>::empty());
    while k < windows.len()
        invariant
            k <= windows@.len(),
            wv == windows_view(windows@),
            lines_view(lines@) == before_windows + windows_lines(wv.take(k as int)),
        decreases windows@.len() - k,
    {
        push_window(&mut lines, &windows[k]);
        assert(wv.take(k + 1).drop_last() =~= wv.take(k as int));
        assert(wv.take(k + 1).last() == windows@[k as int]@);
        k = k + 1;
    }
    assert(wv.take(windows@.len() as int) =~= wv);
    push_blank(&mut lines);
    push_one(
        &mut lines,
        Tone::Info,
        "  ⚙️  You can edit ~/.config/tmuxido/tmuxido.toml anytime to change these settings.",
    );
    push_blank(&mut lines);
    assert(lines_view(lines@) =~= summary_lines(
        crate::text::strs(paths@),
        max_depth as nat,
        cache_enabled,
        cache_ttl_hours as nat,
        windows_view(windows@),
    ));
    lines
}

} // verus!
