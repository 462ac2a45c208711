//! Keyboard shortcuts that launch tmuxido: parsing key combos, writing them
//! in the notation of each desktop environment, and finding free ones.
use vstd::prelude::*;
use crate::config::DirError;
use crate::paths::{config_dir, data_dir, join_path, join_path_str, parent_of, path_parent};
use crate::text::{
    char_to_upper, char_upper, char_vecs, chars_of, concat, contains_string, dec, dec_string,
    find_char, first_piece, first_piece_of, has_substr, is_empty_str, join, join_strings,
    lemma_first_piece, lemma_split_at_sep, lines, lines_of, lower, nonempty_only, owned,
    slice_from, slice_range, split, split_chars, starts_with_chars, str_contains, str_eq,
    string_of, strip_cr, strs, to_lower, to_upper, trim, trim_by, trim_chars, trim_end_by,
    trim_start_by, upper, CharClass, all_ascii, ascii_upper,
};
use crate::text::{
    is_ws, lemma_ascii_upper_char, lemma_join_ascii, lemma_join_ends, lemma_nonempty_only_all,
    lemma_nonempty_only_members, lemma_split_ascii, lemma_split_join, lemma_split_pieces_lack_sep,
    lemma_trim_by_noop, lemma_trim_clean, lemma_trim_end_shape, lemma_trim_start_shape,
};

verus! {

/// Desktop environment variants we support.
#[derive(Debug, Clone, Copy, PartialEq, Eq, Structural)]
pub enum DesktopEnv {
    Hyprland,
    Gnome,
    Kde,
    Unknown,
}

/// The desktop environment that `XDG_CURRENT_DESKTOP` (lowercased) and the
/// presence of a Hyprland instance signature point to.
pub open spec fn desktop_from(xdg: Seq<char>, has_hyprland_sig: bool) -> DesktopEnv {
    let x = lower(xdg);
    if has_substr(x, "hyprland"@) || has_hyprland_sig {
        DesktopEnv::Hyprland
    } else if has_substr(x, "gnome"@) {
        DesktopEnv::Gnome
    } else if has_substr(x, "kde"@) || has_substr(x, "plasma"@) {
        DesktopEnv::Kde
    } else {
        DesktopEnv::Unknown
    }
}

/// The name under which a desktop environment is shown.
pub open spec fn desktop_name(de: DesktopEnv) -> Seq<char> {
    match de {
        DesktopEnv::Hyprland => "Hyprland"@,
        DesktopEnv::Gnome => "GNOME"@,
        DesktopEnv::Kde => "KDE"@,
        DesktopEnv::Unknown => "Unknown"@,
    }
}

impl DesktopEnv {
    /// The name under which this desktop environment is shown.
    pub fn to_string(&self) -> (r: String)
        ensures
            r@ == desktop_name(*self),
    {
        match self {
            DesktopEnv::Hyprland => owned("Hyprland"),
            DesktopEnv::Gnome => owned("GNOME"),
            DesktopEnv::Kde => owned("KDE"),
            DesktopEnv::Unknown => owned("Unknown"),
        }
    }
}

/// Detects the desktop environment from the value of `XDG_CURRENT_DESKTOP`
/// and whether `HYPRLAND_INSTANCE_SIGNATURE` is set.
pub fn detect_from(xdg: &str, has_hyprland_sig: bool) -> (r: DesktopEnv)
    ensures
        r == desktop_from(xdg@, has_hyprland_sig),
{
    let x = to_lower(xdg);
    if str_contains(x.as_str(), "hyprland") || has_hyprland_sig {
        DesktopEnv::Hyprland
    } else if str_contains(x.as_str(), "gnome") {
        DesktopEnv::Gnome
    } else if str_contains(x.as_str(), "kde") || str_contains(x.as_str(), "plasma") {
        DesktopEnv::Kde
    } else {
        DesktopEnv::Unknown
    }
}

/// A keyboard shortcut: modifiers and a key, stored in uppercase.
#[derive(Debug, Clone, PartialEq)]
pub struct KeyCombo {
    pub modifiers: Vec<String>,
    pub key: String,
}

impl View for KeyCombo {
    type V = (Seq<Seq<char>>, Seq<char>);

    open spec fn view(&self) -> (Seq<Seq<char>>, Seq<char>) {
        (strs(self.modifiers@), self.key@)
    }
}

/// What `KeyCombo::parse` reads from `s`: split at `+` after trimming, the
/// last part is the key and the others the modifiers, each trimmed and
/// uppercased, empty modifiers dropped; no combo when the input is blank,
/// has no `+`, or leaves no key or no modifier.
pub open spec fn parse_combo(s: Seq<char>) -> Option<(Seq<Seq<char>>, Seq<char>)> {
    let t = trim(s);
    let parts = split(t, '+');
    let key = upper(trim(parts.last()));
    let mods = nonempty_only(parts.drop_last().map_values(|p: Seq<char>| upper(trim(p))));
    if t.len() == 0 || parts.len() < 2 || key.len() == 0 || mods.len() == 0 {
        None
    } else {
        Some((mods, key))
    }
}

/// What `KeyCombo::parse` reads from ASCII text: as `parse_combo`, each
/// part uppercased the ASCII way.
pub open spec fn parse_combo_ascii(s: Seq<char>) -> Option<(Seq<Seq<char>>, Seq<char>)> {
    let t = trim(s);
    let parts = split(t, '+');
    let key = ascii_upper(trim(parts.last()));
    let mods = nonempty_only(parts.drop_last().map_values(|p: Seq<char>| ascii_upper(trim(p))));
    if t.len() == 0 || parts.len() < 2 || key.len() == 0 || mods.len() == 0 {
        None
    } else {
        Some((mods, key))
    }
}

/// Whether `x` is a part of a combo as `KeyCombo::parse` leaves it from
/// ASCII text: not empty, without `+`, neither beginning nor ending with
/// whitespace, ASCII and already uppercase.
pub open spec fn clean_part(x: Seq<char>) -> bool {
    &&& x.len() > 0
    &&& !x.contains('+')
    &&& !is_ws(x[0])
    &&& !is_ws(x.last())
    &&& all_ascii(x)
    &&& ascii_upper(x) == x
}

/// Trimming ASCII text leaves ASCII text.
proof fn lemma_trim_ascii(p: Seq<char>)
    requires
        all_ascii(p),
    ensures
        all_ascii(trim(p)),
{
    lemma_trim_clean(p, CharClass::Whitespace);
    let y = trim(p);
    assert forall|i: int| 0 <= i < y.len() implies (#[trigger] y[i] as u32) < 128 by {
        assert(y.contains(y[i]));
        assert(p.contains(y[i]));
        let n = choose|n: int| 0 <= n < p.len() && p[n] == y[i];
    }
}

/// A non-empty part made of an ASCII piece without `+`, trimmed and
/// uppercased, is clean.
proof fn lemma_piece_clean(p: Seq<char>)
    requires
        all_ascii(p),
        !p.contains('+'),
        ascii_upper(trim(p)).len() > 0,
    ensures
        clean_part(ascii_upper(trim(p))),
{
    let ws = CharClass::Whitespace;
    let y = trim(p);
    lemma_trim_clean(p, ws);
    lemma_trim_ascii(p);
    lemma_trim_start_shape(p, ws);
    let x1 = trim_start_by(p, ws);
    lemma_trim_end_shape(x1, ws);
    let j = choose|j: int| 0 <= j <= x1.len() && trim_end_by(x1, ws) == x1.take(j);
    assert(y == x1.take(j));
    assert(y[0] == x1[0]);
    let x = ascii_upper(y);
    assert(!y.contains('+')) by {
        if y.contains('+') {
            assert(p.contains('+'));
        }
    }
    lemma_ascii_upper_char(y[0]);
    lemma_ascii_upper_char(y.last());
    assert(x[0] == crate::text::ascii_upper_char(y[0]));
    assert(x.last() == crate::text::ascii_upper_char(y.last()));
    assert forall|i: int| 0 <= i < x.len() implies (#[trigger] x[i] as u32) < 128 && x[i] != '+'
        && crate::text::ascii_upper_char(x[i]) == x[i] by {
        lemma_ascii_upper_char(y[i]);
        assert(x[i] == crate::text::ascii_upper_char(y[i]));
        if y[i] == '+' {
            assert(y.contains('+'));
        }
    }
    assert(!x.contains('+')) by {
        if x.contains('+') {
            let n = choose|n: int| 0 <= n < x.len() && x[n] == '+';
        }
    }
    assert(ascii_upper(x) =~= x);
}

/// The parts of a combo as `KeyCombo::parse` leaves them from ASCII text:
/// at least one modifier, and every part clean.
pub open spec fn clean_combo(c: (Seq<Seq<char>>, Seq<char>)) -> bool {
    &&& c.0.len() > 0
    &&& forall|i: int| 0 <= i < c.0.len() ==> clean_part(#[trigger] c.0[i])
    &&& clean_part(c.1)
}

/// Whether `y` reads as the part `x`: not empty, without `+`, neither
/// beginning nor ending with whitespace, ASCII, and `x` once uppercased.
pub open spec fn reads_as(y: Seq<char>, x: Seq<char>) -> bool {
    &&& y.len() > 0
    &&& !y.contains('+')
    &&& !is_ws(y[0])
    &&& !is_ws(y.last())
    &&& all_ascii(y)
    &&& ascii_upper(y) == x
}

/// What ASCII text `KeyCombo::parse` reads a combo from is clean.
proof fn lemma_parsed_clean(s: Seq<char>)
    requires
        all_ascii(s),
        parse_combo_ascii(s) is Some,
    ensures
        clean_combo(parse_combo_ascii(s).unwrap()),
{
    let c = parse_combo_ascii(s).unwrap();
    let t = trim(s);
    let parts = split(t, '+');
    lemma_trim_ascii(s);
    lemma_split_ascii(t, '+');
    lemma_split_pieces_lack_sep(t, '+');
    let mapped = parts.drop_last().map_values(|p: Seq<char>| ascii_upper(trim(p)));
    lemma_nonempty_only_members(mapped);
    assert forall|i: int| 0 <= i < c.0.len() implies clean_part(#[trigger] c.0[i]) by {
        assert(mapped.contains(c.0[i]));
        let j = choose|j: int| 0 <= j < mapped.len() && mapped[j] == c.0[i];
        assert(parts[j] == parts.drop_last()[j]);
        lemma_piece_clean(parts[j]);
    }
    assert(parts.last() == parts[parts.len() - 1]);
    lemma_piece_clean(parts.last());
}

/// Parts that read as the modifiers and key of a clean combo, joined with
/// `+`, are ASCII text that `KeyCombo::parse` reads as that combo.
proof fn lemma_parse_joined(ys: Seq<Seq<char>>, c: (Seq<Seq<char>>, Seq<char>))
    requires
        clean_combo(c),
        ys.len() == c.0.len() + 1,
        forall|i: int| 0 <= i < ys.len() ==> reads_as(#[trigger] ys[i], c.0.push(c.1)[i]),
    ensures
        all_ascii(join(ys, "+"@)),
        parse_combo_ascii(join(ys, "+"@)) == Some(c),
{
    let xs = c.0.push(c.1);
    reveal_strlit("+");
    assert("+"@ =~= seq!['+']);
    assert(seq!['+'] + Seq::<char>::empty() =~= seq!['+']);
    let n = join(ys, "+"@);
    assert forall|i: int| 0 <= i < ys.len() implies (#[trigger] ys[i]).len() > 0 by {
        assert(reads_as(ys[i], xs[i]));
    }
    lemma_join_ends(ys, "+"@);
    assert(reads_as(ys[0], xs[0]));
    assert(reads_as(ys[ys.len() - 1], xs[ys.len() - 1]));
    lemma_trim_by_noop(n, CharClass::Whitespace);
    assert forall|i: int| 0 <= i < ys.len() implies !(#[trigger] ys[i]).contains('+') by {
        assert(reads_as(ys[i], xs[i]));
    }
    lemma_split_join(ys, '+', Seq::<char>::empty());
    assert(split(n, '+') =~= ys);
    assert(all_ascii("+"@));
    assert forall|i: int| 0 <= i < ys.len() implies all_ascii(#[trigger] ys[i]) by {
        assert(reads_as(ys[i], xs[i]));
    }
    lemma_join_ascii(ys, "+"@);
    assert forall|i: int| 0 <= i < ys.len() implies ascii_upper(trim(#[trigger] ys[i])) == xs[i] by {
        assert(reads_as(ys[i], xs[i]));
        lemma_trim_by_noop(ys[i], CharClass::Whitespace);
    }
    assert(ascii_upper(trim(ys.last())) == xs[ys.len() - 1]);
    let mapped = ys.drop_last().map_values(|p: Seq<char>| ascii_upper(trim(p)));
    assert forall|i: int| 0 <= i < c.0.len() implies #[trigger] mapped[i] == c.0[i] by {
        assert(ys.drop_last()[i] == ys[i]);
        assert(ascii_upper(trim(ys[i])) == xs[i]);
    }
    assert(mapped =~= c.0);
    lemma_nonempty_only_all(c.0);
    assert(clean_part(xs[ys.len() - 1]));
}

/// A combo read from ASCII text reads back as itself from its normalized
/// form `MODIFIERS+KEY`, which is ASCII too: `KeyCombo::parse` of
/// `c.normalized()` gives `c` again.
pub proof fn law_combo_normalized_round_trip(s: Seq<char>)
    requires
        all_ascii(s),
        parse_combo_ascii(s) is Some,
    ensures
        all_ascii(normalized_of(parse_combo_ascii(s).unwrap())),
        parse_combo_ascii(normalized_of(parse_combo_ascii(s).unwrap())) == parse_combo_ascii(s),
{
    let c = parse_combo_ascii(s).unwrap();
    lemma_parsed_clean(s);
    let xs = c.0.push(c.1);
    assert forall|i: int| 0 <= i < xs.len() implies reads_as(#[trigger] xs[i], c.0.push(c.1)[i]) by {
        if i < c.0.len() {
            assert(xs[i] == c.0[i]);
        }
        assert(clean_part(xs[i]));
    }
    lemma_parse_joined(xs, c);
}

/// The title-case form of a modifier made of ASCII: its first character
/// uppercased, the rest lowercased, the ASCII way.
pub open spec fn capitalize_ascii(m: Seq<char>) -> Seq<char> {
    if m.len() == 0 {
        Seq::<char>::empty()
    } else {
        seq![crate::text::ascii_upper_char(m[0])] + crate::text::ascii_lower(m.drop_first())
    }
}

/// The title-case form of a combo whose modifiers are ASCII.
pub open spec fn title_ascii(c: (Seq<Seq<char>>, Seq<char>)) -> Seq<char> {
    join(c.0.map_values(|m: Seq<char>| capitalize_ascii(m)).push(c.1), "+"@)
}

/// The title-case form of a clean part reads as the part.
proof fn lemma_capitalized_reads_as(x: Seq<char>)
    requires
        clean_part(x),
    ensures
        reads_as(capitalize_ascii(x), x),
{
    let y = capitalize_ascii(x);
    assert(y.len() == x.len());
    assert forall|i: int| 0 <= i < x.len() implies (#[trigger] y[i] as u32) < 128 && y[i] != '+'
        && is_ws(y[i]) == is_ws(x[i]) && crate::text::ascii_upper_char(y[i]) == x[i] by {
        assert(x.contains(x[i]) ==> x[i] != '+') by {
            if x[i] == '+' {
                assert(x.contains('+'));
            }
        }
        assert(crate::text::ascii_upper_char(x[i]) == x[i]) by {
            assert(ascii_upper(x)[i] == x[i]);
        }
        lemma_ascii_upper_char(x[i]);
        crate::text::lemma_ascii_lower_char(x[i]);
        if i == 0 {
            assert(y[0] == crate::text::ascii_upper_char(x[0]));
        } else {
            assert(y[i] == crate::text::ascii_lower_char(x[i]));
        }
    }
    assert(!is_ws(y[0]));
    assert(!is_ws(y[y.len() - 1]));
    assert(!y.contains('+')) by {
        if y.contains('+') {
            let n = choose|n: int| 0 <= n < y.len() && y[n] == '+';
        }
    }
    assert(ascii_upper(y) =~= x);
}

/// A combo read from ASCII text reads back as itself from its title-case
/// form `Super+Shift+T`, which is ASCII too: `KeyCombo::parse` of
/// `c.to_string()` gives `c` again.
pub proof fn law_combo_title_round_trip(s: Seq<char>)
    requires
        all_ascii(s),
        parse_combo_ascii(s) is Some,
    ensures
        forall|i: int|
            0 <= i < parse_combo_ascii(s).unwrap().0.len() ==> all_ascii(
                #[trigger] parse_combo_ascii(s).unwrap().0[i],
            ),
        all_ascii(title_ascii(parse_combo_ascii(s).unwrap())),
        parse_combo_ascii(title_ascii(parse_combo_ascii(s).unwrap())) == parse_combo_ascii(s),
{
    let c = parse_combo_ascii(s).unwrap();
    lemma_parsed_clean(s);
    let xs = c.0.push(c.1);
    let ys = c.0.map_values(|m: Seq<char>| capitalize_ascii(m)).push(c.1);
    assert forall|i: int| 0 <= i < ys.len() implies reads_as(#[trigger] ys[i], c.0.push(c.1)[i]) by {
        if i < c.0.len() {
            assert(ys[i] == capitalize_ascii(c.0[i]));
            assert(xs[i] == c.0[i]);
            assert(clean_part(c.0[i]));
            lemma_capitalized_reads_as(c.0[i]);
        } else {
            assert(ys[i] == c.1);
            assert(xs[i] == c.1);
        }
    }
    lemma_parse_joined(ys, c);
    assert forall|i: int| 0 <= i < c.0.len() implies all_ascii(#[trigger] c.0[i]) by {
        assert(clean_part(c.0[i]));
    }
}

/// The first character uppercased and the rest lowercased.
pub open spec fn capitalize(m: Seq<char>) -> Seq<char> {
    if m.len() == 0 {
        Seq::<char>::empty()
    } else {
        char_upper(m[0]) + lower(m.drop_first())
    }
}

/// The Hyprland notation of a combo: `SUPER SHIFT, T`.
pub open spec fn hyprland_of(c: (Seq<Seq<char>>, Seq<char>)) -> Seq<char> {
    join(c.0, " "@) + ", "@ + c.1
}

/// The modifiers in GNOME notation: `<Super><Shift>`.
pub open spec fn gnome_mods(mods: Seq<Seq<char>>) -> Seq<char>
    decreases mods.len(),
{
    if mods.len() == 0 {
        Seq::<char>::empty()
    } else {
        gnome_mods(mods.drop_last()) + "<"@ + capitalize(mods.last()) + ">"@
    }
}

/// The GNOME notation of a combo: `<Super><Shift>t`.
pub open spec fn gnome_of(c: (Seq<Seq<char>>, Seq<char>)) -> Seq<char> {
    gnome_mods(c.0) + lower(c.1)
}

/// A modifier in KDE notation: the Super key is `Meta`.
pub open spec fn kde_mod(m: Seq<char>) -> Seq<char> {
    if m == "SUPER"@ || m == "WIN"@ || m == "META"@ {
        "Meta"@
    } else {
        capitalize(m)
    }
}

/// The KDE notation of a combo: `Meta+Shift+T`.
pub open spec fn kde_of(c: (Seq<Seq<char>>, Seq<char>)) -> Seq<char> {
    join(c.0.map_values(|m: Seq<char>| kde_mod(m)).push(c.1), "+"@)
}

/// The normalized form of a combo: `SUPER+SHIFT+T`.
pub open spec fn normalized_of(c: (Seq<Seq<char>>, Seq<char>)) -> Seq<char> {
    join(c.0.push(c.1), "+"@)
}

/// The title-case form of a combo: `Super+Shift+T`.
pub open spec fn title_of(c: (Seq<Seq<char>>, Seq<char>)) -> Seq<char> {
    join(c.0.map_values(|m: Seq<char>| capitalize(m)).push(c.1), "+"@)
}

/// The Hyprland modifier bit of a modifier name.
pub open spec fn modifier_bit(m: Seq<char>) -> u32 {
    if m == "SHIFT"@ {
        1
    } else if m == "CAPS"@ {
        2
    } else if m == "CTRL"@ || m == "CONTROL"@ {
        4
    } else if m == "ALT"@ {
        8
    } else if m == "MOD2"@ {
        16
    } else if m == "MOD3"@ {
        32
    } else if m == "SUPER"@ || m == "WIN"@ || m == "META"@ {
        64
    } else if m == "MOD5"@ {
        128
    } else {
        0
    }
}

/// The Hyprland modifier mask of a list of modifiers: the bits of all of them.
pub open spec fn modmask_of(mods: Seq<Seq<char>>) -> u32
    decreases mods.len(),
{
    if mods.len() == 0 {
        0
    } else {
        modmask_of(mods.drop_last()) | modifier_bit(mods.last())
    }
}

/// `capitalize` on a string slice.
pub fn capitalized(m: &str) -> (r: String)
    ensures
        r@ == capitalize(m@),
        all_ascii(m@) ==> r@ == capitalize_ascii(m@),
{
    let v = chars_of(m);
    if v.len() == 0 {
        return String::new();
    }
    let first = char_to_upper(v[0]);
    let rest = string_of(slice_from(v.as_slice(), 1).as_slice());
    assert(v@.skip(1) =~= m@.drop_first());
    proof {
        if all_ascii(m@) {
            assert((m@[0] as u32) < 128);
            assert forall|i: int| 0 <= i < rest@.len() implies (#[trigger] rest@[i] as u32) < 128 by {
                assert(rest@[i] == m@[i + 1]);
            }
        }
    }
    let low = to_lower(rest.as_str());
    concat(first.as_str(), low.as_str())
}

/// The uppercase form of the trimmed characters `p`.
fn upper_trimmed(p: &[char]) -> (r: String)
    ensures
        r@ == upper(trim(p@)),
        all_ascii(p@) ==> r@ == ascii_upper(trim(p@)),
{
    let t = trim_chars(p, CharClass::Whitespace);
    let s = string_of(t.as_slice());
    proof {
        if all_ascii(p@) {
            lemma_trim_ascii(p@);
        }
    }
    to_upper(s.as_str())
}

impl KeyCombo {
    /// Parses input like "Super+Shift+T", "super+shift+t" or "SUPER+SHIFT+T".
    /// On ASCII input the parts are uppercased the ASCII way.
    pub fn parse(input: &str) -> (r: Option<Self>)
        ensures
            match r {
                Some(c) => parse_combo(input@) == Some(c@),
                None => parse_combo(input@) is None,
            },
            all_ascii(input@) ==> parse_combo(input@) == parse_combo_ascii(input@),
    {
        let v = chars_of(input);
        let t = trim_chars(v.as_slice(), CharClass::Whitespace);
        if t.len() == 0 {
            return None;
        }
        let parts = split_chars(t.as_slice(), '+');
        proof {
            if all_ascii(input@) {
                lemma_trim_ascii(input@);
                lemma_split_ascii(t@, '+');
            }
        }
        if parts.len() < 2 {
            return None;
        }
        let n = parts.len() - 1;
        assert(char_vecs(parts@)[n as int] == parts@[n as int]@);
        let key = upper_trimmed(parts[n].as_slice());
        if is_empty_str(key.as_str()) {
            return None;
        }
        let ghost mapped = split(t@, '+').drop_last().map_values(|p: Seq<char>| upper(trim(p)));
        let ghost mapped_a = split(t@, '+').drop_last().map_values(|p: Seq<char>| ascii_upper(trim(p)));
        let mut modifiers: Vec<String> = Vec::new();
        let mut i: usize = 0;
        assert(mapped.take(0) =~= Seq::<Seq<char>>::empty());
        while i < n
            invariant
                i <= n,
                n + 1 == parts@.len(),
                char_vecs(parts@) == split(t@, '+'),
                mapped == split(t@, '+').drop_last().map_values(|p: Seq<char>| upper(trim(p))),
                mapped_a == split(t@, '+').drop_last().map_values(|p: Seq<char>| ascii_upper(trim(p))),
                all_ascii(input@) ==> forall|j: int|
                    0 <= j < split(t@, '+').len() ==> all_ascii(#[trigger] split(t@, '+')[j]),
                all_ascii(input@) ==> forall|j: int| 0 <= j < i ==> #[trigger] mapped[j] == mapped_a[j],
                strs(modifiers@) == nonempty_only(mapped.take(i as int)),
            decreases n - i,
        {
            assert(char_vecs(parts@)[i as int] == parts@[i as int]@);
            let m = upper_trimmed(parts[i].as_slice());
            assert(m@ == mapped[i as int]);
            proof {
                if all_ascii(input@) {
                    assert(all_ascii(split(t@, '+')[i as int]));
                    assert(m@ == mapped_a[i as int]);
                }
            }
            assert(mapped.take(i + 1).drop_last() =~= mapped.take(i as int));
            assert(mapped.take(i + 1).last() == mapped[i as int]);
            if !is_empty_str(m.as_str()) {
                let ghost before = strs(modifiers@);
                modifiers.push(m);
                assert(strs(modifiers@) =~= before.push(mapped[i as int]));
            }
            i = i + 1;
        }
        assert(mapped.take(n as int) =~= mapped);
        proof {
            if all_ascii(input@) {
                assert(mapped =~= mapped_a);
                assert(all_ascii(split(t@, '+')[n as int]));
            }
        }
        if modifiers.len() == 0 {
            return None;
        }
        let r = KeyCombo { modifiers, key };
        assert(r@ == (strs(r.modifiers@), r.key@));
        Some(r)
    }

    /// The Hyprland binding notation: "SUPER SHIFT, T".
    pub fn to_hyprland(&self) -> (r: String)
        ensures
            r@ == hyprland_of(self@),
    {
        let mods = join_strings(self.modifiers.as_slice(), " ");
        let a = concat(mods.as_str(), ", ");
        concat(a.as_str(), self.key.as_str())
    }

    /// The GNOME gsettings notation: "<Super><Shift>t".
    pub fn to_gnome(&self) -> (r: String)
        ensures
            r@ == gnome_of(self@),
    {
        let mut out = String::new();
        let mut i: usize = 0;
        let ghost mods = strs(self.modifiers@);
        assert(mods.take(0) =~= Seq::<Seq<char>>::empty());
        while i < self.modifiers.len()
            invariant
                i <= self.modifiers@.len(),
                mods == strs(self.modifiers@),
                out@ == gnome_mods(mods.take(i as int)),
            decreases self.modifiers@.len() - i,
        {
            let cap = capitalized(self.modifiers[i].as_str());
            let ghost before = out@;
            out.append("<");
            out.append(cap.as_str());
            out.append(">");
            assert(mods.take(i + 1).drop_last() =~= mods.take(i as int));
            assert(mods.take(i + 1).last() == mods[i as int]);
            assert(out@ =~= before + "<"@ + capitalize(mods[i as int]) + ">"@);
            i = i + 1;
        }
        assert(mods.take(mods.len() as int) =~= mods);
        let low = to_lower(self.key.as_str());
        out.append(low.as_str());
        out
    }

    /// The KDE kglobalshortcutsrc notation: "Meta+Shift+T".
    pub fn to_kde(&self) -> (r: String)
        ensures
            r@ == kde_of(self@),
    {
        let mut parts: Vec<String> = Vec::new();
        let mut i: usize = 0;
        let ghost mods = strs(self.modifiers@);
        while i < self.modifiers.len()
            invariant
                i <= self.modifiers@.len(),
                mods == strs(self.modifiers@),
                strs(parts@) == mods.take(i as int).map_values(|m: Seq<char>| kde_mod(m)),
            decreases self.modifiers@.len() - i,
        {
            let m = self.modifiers[i].as_str();
            let part = if str_eq(m, "SUPER") || str_eq(m, "WIN") || str_eq(m, "META") {
                owned("Meta")
            } else {
                capitalized(m)
            };
            let ghost before = strs(parts@);
            parts.push(part);
            assert(strs(parts@) =~= before.push(kde_mod(mods[i as int])));
            i = i + 1;
            assert(strs(parts@) =~= mods.take(i as int).map_values(|m: Seq<char>| kde_mod(m)));
        }
        assert(mods.take(mods.len() as int) =~= mods);
        let ghost before = strs(parts@);
        parts.push(self.key.clone());
        assert(strs(parts@) =~= before.push(self.key@));
        join_strings(parts.as_slice(), "+")
    }

    /// The normalized form used for comparisons: "SUPER+SHIFT+T".
    pub fn normalized(&self) -> (r: String)
        ensures
            r@ == normalized_of(self@),
    {
        let mut parts: Vec<String> = Vec::new();
        let mut i: usize = 0;
        while i < self.modifiers.len()
            invariant
                i <= self.modifiers@.len(),
                strs(parts@) == strs(self.modifiers@).take(i as int),
            decreases self.modifiers@.len() - i,
        {
            let ghost before = strs(parts@);
            parts.push(self.modifiers[i].clone());
            assert(strs(parts@) =~= before.push(strs(self.modifiers@)[i as int]));
            i = i + 1;
            assert(strs(parts@) =~= strs(self.modifiers@).take(i as int));
        }
        assert(strs(self.modifiers@).take(self.modifiers@.len() as int) =~= strs(self.modifiers@));
        let ghost before = strs(parts@);
        parts.push(self.key.clone());
        assert(strs(parts@) =~= before.push(self.key@));
        join_strings(parts.as_slice(), "+")
    }

    /// The title-case form shown to the user: "Super+Shift+T".
    pub fn to_string(&self) -> (r: String)
        ensures
            r@ == title_of(self@),
            (forall|i: int| 0 <= i < self@.0.len() ==> all_ascii(#[trigger] self@.0[i])) ==> r@
                == title_ascii(self@),
    {
        let mut parts: Vec<String> = Vec::new();
        let mut i: usize = 0;
        let ghost mods = strs(self.modifiers@);
        let ghost ascii = forall|j: int| 0 <= j < mods.len() ==> all_ascii(#[trigger] mods[j]);
        while i < self.modifiers.len()
            invariant
                i <= self.modifiers@.len(),
                mods == strs(self.modifiers@),
                ascii == forall|j: int| 0 <= j < mods.len() ==> all_ascii(#[trigger] mods[j]),
                strs(parts@) == mods.take(i as int).map_values(|m: Seq<char>| capitalize(m)),
                ascii ==> strs(parts@) == mods.take(i as int).map_values(|m: Seq<char>| capitalize_ascii(m)),
            decreases self.modifiers@.len() - i,
        {
            assert(mods[i as int] == self.modifiers@[i as int]@);
            let part = capitalized(self.modifiers[i].as_str());
            let ghost before = strs(parts@);
            parts.push(part);
            assert(strs(parts@) =~= before.push(capitalize(mods[i as int])));
            proof {
                if ascii {
                    assert(all_ascii(mods[i as int]));
                    assert(strs(parts@) =~= before.push(capitalize_ascii(mods[i as int])));
                }
            }
            i = i + 1;
            assert(strs(parts@) =~= mods.take(i as int).map_values(|m: Seq<char>| capitalize(m)));
            proof {
                if ascii {
                    assert(strs(parts@) =~= mods.take(i as int).map_values(|m: Seq<char>| capitalize_ascii(m)));
                }
            }
        }
        assert(mods.take(mods.len() as int) =~= mods);
        let ghost before = strs(parts@);
        parts.push(self.key.clone());
        assert(strs(parts@) =~= before.push(self.key@));
        join_strings(parts.as_slice(), "+")
    }
}

/// The Hyprland modifier bit of one modifier name.
fn modifier_bit_of(m: &str) -> (r: u32)
    ensures
        r == modifier_bit(m@),
{
    if str_eq(m, "SHIFT") {
        1
    } else if str_eq(m, "CAPS") {
        2
    } else if str_eq(m, "CTRL") || str_eq(m, "CONTROL") {
        4
    } else if str_eq(m, "ALT") {
        8
    } else if str_eq(m, "MOD2") {
        16
    } else if str_eq(m, "MOD3") {
        32
    } else if str_eq(m, "SUPER") || str_eq(m, "WIN") || str_eq(m, "META") {
        64
    } else if str_eq(m, "MOD5") {
        128
    } else {
        0
    }
}

/// The Hyprland modmask bitmask of a key combo.
pub fn hyprland_modmask(combo: &KeyCombo) -> (r: u32)
    ensures
        r == modmask_of(combo@.0),
{
    let mut mask: u32 = 0;
    let mut i: usize = 0;
    let ghost mods = combo@.0;
    assert(mods.take(0) =~= Seq::<Seq<char>>::empty());
    while i < combo.modifiers.len()
        invariant
            i <= combo.modifiers@.len(),
            mods == strs(combo.modifiers@),
            mask == modmask_of(mods.take(i as int)),
        decreases combo.modifiers@.len() - i,
    {
        let bit = modifier_bit_of(combo.modifiers[i].as_str());
        assert(mods.take(i + 1).drop_last() =~= mods.take(i as int));
        assert(mods.take(i + 1).last() == mods[i as int]);
        mask = mask | bit;
        i = i + 1;
    }
    assert(mods.take(mods.len() as int) =~= mods);
    mask
}


/// The combos offered, in order, when the one asked for is taken.
pub open spec fn fallback_specs() -> Seq<Seq<char>> {
    seq![
        "Super+Shift+T"@,
        "Super+Shift+P"@,
        "Super+Ctrl+T"@,
        "Super+Alt+T"@,
        "Super+Shift+M"@,
        "Super+Ctrl+P"@,
    ]
}

/// The combos offered, in order, when the one asked for is taken.
pub fn fallback_combos() -> (r: Vec<&'static str>)
    ensures
        r@.map_values(|s: &str| s@) == fallback_specs(),
{
    let r = vec![
        "Super+Shift+T",
        "Super+Shift+P",
        "Super+Ctrl+T",
        "Super+Alt+T",
        "Super+Shift+M",
        "Super+Ctrl+P",
    ];
    assert(r@.map_values(|s: &str| s@) =~= fallback_specs());
    r
}

/// The first of `candidates` that parses and whose normalized form is not
/// in `taken`.
pub open spec fn first_free(candidates: Seq<Seq<char>>, taken: Seq<Seq<char>>) -> Option<
    (Seq<Seq<char>>, Seq<char>),
>
    decreases candidates.len(),
{
    if candidates.len() == 0 {
        None
    } else {
        match parse_combo(candidates[0]) {
            Some(c) => if taken.contains(normalized_of(c)) {
                first_free(candidates.drop_first(), taken)
            } else {
                Some(c)
            },
            None => first_free(candidates.drop_first(), taken),
        }
    }
}

/// Finds the first fallback combo that parses and whose normalized form is
/// not among `taken` (normalized combos: uppercase, `+`-separated).
pub fn find_free_combo(taken: &[String]) -> (r: Option<KeyCombo>)
    ensures
        match r {
            Some(c) => first_free(fallback_specs(), strs(taken@)) == Some(c@),
            None => first_free(fallback_specs(), strs(taken@)) is None,
        },
{
    let candidates = fallback_combos();
    let ghost specs = fallback_specs();
    let mut i: usize = 0;
    assert(specs.skip(0) =~= specs);
    while i < candidates.len()
        invariant
            i <= candidates@.len(),
            candidates@.map_values(|s: &str| s@) == specs,
            specs == fallback_specs(),
            first_free(specs, strs(taken@)) == first_free(specs.skip(i as int), strs(taken@)),
        decreases candidates@.len() - i,
    {
        assert(specs.skip(i as int)[0] == candidates@[i as int]@);
        assert(specs.skip(i as int).drop_first() =~= specs.skip(i + 1));
        match KeyCombo::parse(candidates[i]) {
            Some(combo) => {
                let norm = combo.normalized();
                if !crate::text::contains_string(taken, norm.as_str()) {
                    return Some(combo);
                }
            },
            None => {},
        }
        i = i + 1;
    }
    assert(specs.skip(i as int) =~= Seq::<Seq<char>>::empty());
    None
}


/// Whether a trimmed line of an INI-style file opens a section: `[name]`.
pub open spec fn is_section_header(t: Seq<char>) -> bool {
    t.len() > 0 && t[0] == '[' && t.last() == ']'
}

/// The binding of a trimmed `Action=Binding,Alternative,Description` line:
/// what follows the first `=`, up to the first `,`.
pub open spec fn line_binding(t: Seq<char>) -> Seq<char> {
    first_piece(t.skip(first_piece(t, '=').len() as int + 1), ',')
}

/// The section, among `ls` read from the top in section `section`, of the
/// first line whose binding is `binding`.
pub open spec fn kde_scan(ls: Seq<Seq<char>>, section: Seq<char>, binding: Seq<char>) -> Option<
    Seq<char>,
>
    decreases ls.len(),
{
    if ls.len() == 0 {
        None
    } else {
        let t = trim(ls[0]);
        if is_section_header(t) {
            kde_scan(ls.drop_first(), t.subrange(1, t.len() - 1), binding)
        } else if t.contains('=') && line_binding(t) == binding {
            Some(section)
        } else {
            kde_scan(ls.drop_first(), section, binding)
        }
    }
}

/// The section of a `kglobalshortcutsrc` text that already binds the KDE
/// notation of combo `c`, if one does.
pub open spec fn kde_conflict(content: Seq<char>, c: (Seq<Seq<char>>, Seq<char>)) -> Option<
    Seq<char>,
> {
    kde_scan(lines(content), Seq::<char>::empty(), kde_of(c))
}

/// Finds the section of a `kglobalshortcutsrc` text that already binds the
/// combo: the section header in force at the first line whose binding (the
/// text after `=` up to the first `,`) is the combo in KDE notation.
pub fn kde_conflict_in(content: &str, combo: &KeyCombo) -> (r: Option<String>)
    ensures
        match r {
            Some(s) => kde_conflict(content@, combo@) == Some(s@),
            None => kde_conflict(content@, combo@) is None,
        },
{
    let kde = combo.to_kde();
    let kv = chars_of(kde.as_str());
    let v = chars_of(content);
    let ls = lines_of(v.as_slice());
    let ghost lv = lines(content@);
    let mut section: Vec<char> = Vec::new();
    let mut i: usize = 0;
    assert(lv.skip(0) =~= lv);
    while i < ls.len()
        invariant
            i <= ls@.len(),
            char_vecs(ls@) == lv,
            kv@ == kde_of(combo@),
            kde_conflict(content@, combo@) == kde_scan(lv.skip(i as int), section@, kv@),
        decreases ls@.len() - i,
    {
        assert(char_vecs(ls@)[i as int] == ls@[i as int]@);
        assert(lv.skip(i as int)[0] == lv[i as int]);
        assert(lv.skip(i as int).drop_first() =~= lv.skip(i + 1));
        let t = trim_chars(ls[i].as_slice(), CharClass::Whitespace);
        let n = t.len();
        if n > 0 && t[0] == '[' && t[n - 1] == ']' {
            section = slice_range(t.as_slice(), 1, n - 1);
        } else {
            match find_char(t.as_slice(), '=') {
                Some(e) => {
                    proof {
                        lemma_first_piece(t@, '=', e as int);
                    }
                    let value = slice_range(t.as_slice(), e + 1, n);
                    assert(value@ =~= t@.skip(e + 1));
                    let binding = first_piece_of(value.as_slice(), ',');
                    if crate::text::chars_eq(binding.as_slice(), kv.as_slice()) {
                        return Some(string_of(section.as_slice()));
                    }
                },
                None => {},
            }
        }
        i = i + 1;
    }
    None
}

/// The entry that `write_kde_shortcut` appends to `kglobalshortcutsrc`.
pub open spec fn kde_entry(c: (Seq<Seq<char>>, Seq<char>)) -> Seq<char> {
    "\n[tmuxido]\nLaunch Tmuxido="@ + kde_of(c) + ",none,Launch Tmuxido\n"@
}

/// The entry appended to `kglobalshortcutsrc` for the combo.
pub fn kde_shortcut_entry(combo: &KeyCombo) -> (r: String)
    ensures
        r@ == kde_entry(combo@),
{
    let kde = combo.to_kde();
    let a = concat("\n[tmuxido]\nLaunch Tmuxido=", kde.as_str());
    concat(a.as_str(), ",none,Launch Tmuxido\n")
}

/// Whether a `kglobalshortcutsrc` text already has the tmuxido section.
pub fn has_tmuxido_section(content: &str) -> (r: bool)
    ensures
        r == has_substr(content@, "[tmuxido]"@),
{
    str_contains(content, "[tmuxido]")
}

/// Whether a Hyprland bindings text already mentions tmuxido on some line.
pub fn mentions_tmuxido(content: &str) -> (r: bool)
    ensures
        r == has_substr(content@, "tmuxido"@),
{
    str_contains(content, "tmuxido")
}

/// The command a Hyprland binding runs: `omarchy-launch-tui` when it is
/// available, `xdg-terminal-exec` otherwise.
pub open spec fn hyprland_launch(omarchy_available: bool) -> Seq<char> {
    if omarchy_available {
        "omarchy-launch-tui tmuxido"@
    } else {
        "xdg-terminal-exec -e tmuxido"@
    }
}

/// Chooses the command a Hyprland binding runs.
pub fn hyprland_launch_command(omarchy_available: bool) -> (r: &'static str)
    ensures
        r@ == hyprland_launch(omarchy_available),
{
    if omarchy_available {
        "omarchy-launch-tui tmuxido"
    } else {
        "xdg-terminal-exec -e tmuxido"
    }
}

/// The `bindd` line that `write_hyprland_binding` appends.
pub open spec fn hyprland_line(c: (Seq<Seq<char>>, Seq<char>), launch: Seq<char>) -> Seq<char> {
    "bindd = "@ + hyprland_of(c) + ", Tmuxido, exec, "@ + launch + "\n"@
}

/// The `bindd` line for the combo and launch command.
pub fn hyprland_binding_line(combo: &KeyCombo, launch: &str) -> (r: String)
    ensures
        r@ == hyprland_line(combo@, launch@),
{
    let h = combo.to_hyprland();
    let a = concat("bindd = ", h.as_str());
    let b = concat(a.as_str(), ", Tmuxido, exec, ");
    let c = concat(b.as_str(), launch);
    concat(c.as_str(), "\n")
}


/// What lies between the brackets of a gsettings list, trimmed: the list
/// trimmed, a leading `@as` type hint dropped and what follows trimmed, the
/// leading `[`s and trailing `]`s dropped, and the rest trimmed.
pub open spec fn gsettings_inner(input: Seq<char>) -> Seq<char> {
    let s = trim(input);
    let s2 = if "@as"@.is_prefix_of(s) {
        trim(s.skip(3))
    } else {
        s
    };
    trim(trim_end_by(trim_start_by(s2, CharClass::Only('[')), CharClass::Only(']')))
}

/// An entry of a gsettings list: trimmed, then stripped of its quotes.
pub open spec fn gsettings_entry(p: Seq<char>) -> Seq<char> {
    trim_by(trim(p), CharClass::Only('\''))
}

/// The entries of a gsettings list such as `['a', 'b']` or `@as []`.
pub open spec fn gsettings_list(input: Seq<char>) -> Seq<Seq<char>> {
    let inner = gsettings_inner(input);
    if inner.len() == 0 {
        Seq::empty()
    } else {
        nonempty_only(split(inner, ',').map_values(|p: Seq<char>| gsettings_entry(p)))
    }
}

/// Parses a gsettings list `['path1', 'path2']` into its entries; also
/// handles the empty-array notation `@as []`.
pub fn parse_gsettings_list(input: &str) -> (r: Vec<String>)
    ensures
        strs(r@) == gsettings_list(input@),
{
    let v = chars_of(input);
    let s = trim_chars(v.as_slice(), CharClass::Whitespace);
    let hint = chars_of("@as");
    proof {
        reveal_strlit("@as");
    }
    let s2 = if starts_with_chars(s.as_slice(), hint.as_slice()) {
        let rest = slice_from(s.as_slice(), 3);
        trim_chars(rest.as_slice(), CharClass::Whitespace)
    } else {
        s
    };
    let a = trim_chars(s2.as_slice(), CharClass::Only('['));
    assert(a@ == trim_end_by(trim_start_by(s2@, CharClass::Only('[')), CharClass::Only('[')));
    let a1 = slice_from(s2.as_slice(), crate::text::trim_start_index(s2.as_slice(), CharClass::Only('[')));
    let j = crate::text::trim_end_index(a1.as_slice(), a1.len(), CharClass::Only(']'));
    assert(a1@.take(a1@.len() as int) =~= a1@);
    let b = slice_range(a1.as_slice(), 0, j);
    let inner = trim_chars(b.as_slice(), CharClass::Whitespace);
    assert(inner@ == gsettings_inner(input@));
    if inner.len() == 0 {
        return Vec::new();
    }
    let pieces = split_chars(inner.as_slice(), ',');
    let ghost mapped = split(inner@, ',').map_values(|p: Seq<char>| gsettings_entry(p));
    let mut out: Vec<String> = Vec::new();
    let mut i: usize = 0;
    assert(mapped.take(0) =~= Seq::<Seq<char>>::empty());
    while i < pieces.len()
        invariant
            i <= pieces@.len(),
            char_vecs(pieces@) == split(inner@, ','),
            mapped == split(inner@, ',').map_values(|p: Seq<char>| gsettings_entry(p)),
            strs(out@) == nonempty_only(mapped.take(i as int)),
        decreases pieces@.len() - i,
    {
        assert(char_vecs(pieces@)[i as int] == pieces@[i as int]@);
        let t = trim_chars(pieces[i].as_slice(), CharClass::Whitespace);
        let e = trim_chars(t.as_slice(), CharClass::Only('\''));
        assert(e@ == mapped[i as int]);
        assert(mapped.take(i + 1).drop_last() =~= mapped.take(i as int));
        assert(mapped.take(i + 1).last() == mapped[i as int]);
        if e.len() > 0 {
            let ghost before = strs(out@);
            out.push(string_of(e.as_slice()));
            assert(strs(out@) =~= before.push(e@));
        }
        i = i + 1;
    }
    assert(mapped.take(pieces@.len() as int) =~= mapped);
    out
}

/// The gsettings schema of GNOME media keys.
pub const GNOME_MEDIA_KEYS_SCHEMA: &'static str = "org.gnome.settings-daemon.plugins.media-keys";

/// The path under which GNOME custom keybindings live.
pub const GNOME_CUSTOM_PATH: &'static str = "/org/gnome/settings-daemon/plugins/media-keys/custom-keybindings";

/// The path of custom keybinding slot `n`.
pub open spec fn gnome_slot(n: nat) -> Seq<char> {
    GNOME_CUSTOM_PATH@ + "/custom"@ + dec(n) + "/"@
}

/// The schema of the custom keybinding at `path`.
pub open spec fn gnome_slot_schema(path: Seq<char>) -> Seq<char> {
    "org.gnome.settings-daemon.plugins.media-keys.custom-keybindings:"@ + path
}

/// The path of custom keybinding slot `n`.
pub fn gnome_slot_path(n: u64) -> (r: String)
    ensures
        r@ == gnome_slot(n as nat),
{
    let a = concat(GNOME_CUSTOM_PATH, "/custom");
    let d = dec_string(n);
    let b = concat(a.as_str(), d.as_str());
    concat(b.as_str(), "/")
}

/// The schema of the custom keybinding at `path`.
pub fn gnome_slot_schema_of(path: &str) -> (r: String)
    ensures
        r@ == gnome_slot_schema(path@),
{
    concat("org.gnome.settings-daemon.plugins.media-keys.custom-keybindings:", path)
}

/// Distinct slots have distinct paths.
proof fn lemma_gnome_slot_injective(a: nat, b: nat)
    requires
        gnome_slot(a) == gnome_slot(b),
    ensures
        a == b,
{
    let pre = GNOME_CUSTOM_PATH@ + "/custom"@;
    let sa = gnome_slot(a);
    let sb = gnome_slot(b);
    assert(sa.subrange(pre.len() as int, sa.len() - "/"@.len()) =~= dec(a));
    assert(sb.subrange(pre.len() as int, sb.len() - "/"@.len()) =~= dec(b));
    crate::text::lemma_dec_injective(a, b);
}

/// The first slot number whose path is not among `existing`; it is at most
/// the number of entries.
pub fn first_free_slot(existing: &[String]) -> (r: u64)
    ensures
        !strs(existing@).contains(gnome_slot(r as nat)),
        forall|m: nat| m < r ==> strs(existing@).contains(#[trigger] gnome_slot(m)),
        r <= existing@.len(),
{
    let ghost ex = strs(existing@);
    let mut n: usize = 0;
    while n < existing.len()
        invariant
            ex == strs(existing@),
            n <= existing@.len(),
            forall|m: nat| m < n ==> ex.contains(#[trigger] gnome_slot(m)),
        decreases existing@.len() - n,
    {
        let slot = gnome_slot_path(n as u64);
        if !contains_string(existing, slot.as_str()) {
            return n as u64;
        }
        n = n + 1;
    }
    proof {
        if ex.contains(gnome_slot(n as nat)) {
            assert forall|m: nat| m < n + 1 implies ex.contains(#[trigger] gnome_slot(m)) by {
                if m < n {
                } else {
                    assert(m == n);
                }
            }
            lemma_slots_fit(ex, (n + 1) as nat);
        }
    }
    n as u64
}

/// `n` distinct slot paths cannot all be among fewer than `n` entries.
proof fn lemma_slots_fit(ex: Seq<Seq<char>>, n: nat)
    requires
        forall|m: nat| m < n ==> ex.contains(#[trigger] gnome_slot(m)),
    ensures
        n <= ex.len(),
{
    let slots = Set::new(|p: Seq<char>| exists|m: nat| m < n && p == gnome_slot(m));
    let image = Set::new(|m: nat| m < n).map(|m: nat| gnome_slot(m));
    assert(slots.subset_of(ex.to_set())) by {
        assert forall|p: Seq<char>| slots.contains(p) implies ex.to_set().contains(p) by {
            let m = choose|m: nat| m < n && p == gnome_slot(m);
            assert(ex.contains(gnome_slot(m)));
        }
    }
    lemma_nat_range_slots_len(n);
    ex.lemma_cardinality_of_set();
    vstd::set_lib::lemma_len_subset(slots, ex.to_set());
}

/// The first `n` slot paths are `n` distinct paths.
proof fn lemma_nat_range_slots_len(n: nat)
    ensures
        Set::new(|p: Seq<char>| exists|m: nat| m < n && p == gnome_slot(m)).finite(),
        Set::new(|p: Seq<char>| exists|m: nat| m < n && p == gnome_slot(m)).len() == n,
    decreases n,
{
    let s = Set::new(|p: Seq<char>| exists|m: nat| m < n && p == gnome_slot(m));
    if n == 0 {
        assert(s =~= Set::empty());
    } else {
        let k = (n - 1) as nat;
        lemma_nat_range_slots_len(k);
        let t = Set::new(|p: Seq<char>| exists|m: nat| m < k && p == gnome_slot(m));
        assert(s =~= t.insert(gnome_slot(k))) by {
            assert forall|p: Seq<char>| s.contains(p) implies t.insert(gnome_slot(k)).contains(p) by {
                let m = choose|m: nat| m < n && p == gnome_slot(m);
                if m < k {
                    assert(t.contains(p));
                }
            }
            assert forall|p: Seq<char>| t.insert(gnome_slot(k)).contains(p) implies s.contains(p) by {
                if p != gnome_slot(k) {
                    let m = choose|m: nat| m < k && p == gnome_slot(m);
                    assert(m < n);
                } else {
                    assert(k < n);
                }
            }
        }
        assert(!t.contains(gnome_slot(k))) by {
            if t.contains(gnome_slot(k)) {
                let m = choose|m: nat| m < k && gnome_slot(k) == gnome_slot(m);
                lemma_gnome_slot_injective(k, m);
            }
        }
    }
}

/// A gsettings list value of `items`: `['a', 'b']`.
pub open spec fn gsettings_value(items: Seq<Seq<char>>) -> Seq<char> {
    "["@ + join(items.map_values(|s: Seq<char>| "'"@ + s + "'"@), ", "@) + "]"@
}

/// Writes `items` as a gsettings list value.
pub fn gsettings_list_value(items: &[String]) -> (r: String)
    ensures
        r@ == gsettings_value(strs(items@)),
{
    let mut quoted: Vec<String> = Vec::new();
    let mut i: usize = 0;
    let ghost q = strs(items@).map_values(|s: Seq<char>| "'"@ + s + "'"@);
    while i < items.len()
        invariant
            i <= items@.len(),
            q == strs(items@).map_values(|s: Seq<char>| "'"@ + s + "'"@),
            strs(quoted@) == q.take(i as int),
        decreases items@.len() - i,
    {
        let a = concat("'", items[i].as_str());
        let b = concat(a.as_str(), "'");
        let ghost before = strs(quoted@);
        quoted.push(b);
        assert(strs(quoted@) =~= before.push(q[i as int]));
        i = i + 1;
        assert(strs(quoted@) =~= q.take(i as int));
    }
    assert(q.take(items@.len() as int) =~= q);
    let body = join_strings(quoted.as_slice(), ", ");
    let a = concat("[", body.as_str());
    concat(a.as_str(), "]")
}

/// A `gsettings` invocation: its arguments (after the program name) and
/// what an error in running it says.
#[derive(Debug, Clone)]
pub struct GsettingsCall {
    pub args: Vec<String>,
    pub context: String,
}

impl View for GsettingsCall {
    type V = (Seq<Seq<char>>, Seq<char>);

    open spec fn view(&self) -> (Seq<Seq<char>>, Seq<char>) {
        (strs(self.args@), self.context@)
    }
}

/// The keybinding paths already registered, from the output of
/// `gsettings get ... custom-keybindings` when it succeeded (`@as []`
/// when it did not).
pub open spec fn registered_paths(output: Option<Seq<char>>) -> Seq<Seq<char>> {
    match output {
        Some(o) => gsettings_list(trim(o)),
        None => gsettings_list("@as []"@),
    }
}

/// The `gsettings set` calls that register the tmuxido shortcut in slot
/// `slot` with binding `binding`, after the paths `existing`.
pub open spec fn gnome_calls(existing: Seq<Seq<char>>, slot: nat, binding: Seq<char>) -> Seq<
    (Seq<Seq<char>>, Seq<char>),
> {
    let path = gnome_slot(slot);
    let schema = gnome_slot_schema(path);
    seq![
        (seq!["set"@, schema, "name"@, "Tmuxido"@], "Failed to set GNOME shortcut name"@),
        (seq!["set"@, schema, "binding"@, binding], "Failed to set GNOME shortcut binding"@),
        (
            seq!["set"@, schema, "command"@, "xdg-terminal-exec -e tmuxido"@],
            "Failed to set GNOME shortcut command"@,
        ),
        (
            seq![
                "set"@,
                GNOME_MEDIA_KEYS_SCHEMA@,
                "custom-keybindings"@,
                gsettings_value(existing.push(path)),
            ],
            "Failed to update GNOME custom keybindings list"@,
        ),
    ]
}

/// Builds a gsettings call from its words and error context.
fn gsettings_call(words: Vec<&str>, context: &str) -> (r: GsettingsCall)
    ensures
        r@ == (words@.map_values(|w: &str| w@), context@),
{
    GsettingsCall { args: crate::text::owned_all(words.as_slice()), context: owned(context) }
}

/// The `gsettings set` calls that register the tmuxido shortcut for the
/// combo, given the output of `gsettings get ... custom-keybindings` when
/// it succeeded: the first free slot is named "Tmuxido", bound to the
/// combo, made to run tmuxido, and appended to the list of keybindings.
pub fn gnome_shortcut_calls(current: Option<&str>, combo: &KeyCombo) -> (r: Vec<GsettingsCall>)
    ensures
        exists|slot: nat|
            {
                let existing = registered_paths(
                    match current {
                        Some(o) => Some(o@),
                        None => None,
                    },
                );
                &&& !existing.contains(#[trigger] gnome_slot(slot))
                &&& forall|m: nat| m < slot ==> existing.contains(#[trigger] gnome_slot(m))
                &&& r@.map_values(|c: GsettingsCall| c@) == gnome_calls(existing, slot, gnome_of(combo@))
            },
{
    let listing = match current {
        Some(o) => {
            let v = chars_of(o);
            let t = trim_chars(v.as_slice(), CharClass::Whitespace);
            string_of(t.as_slice())
        },
        None => owned("@as []"),
    };
    let existing = parse_gsettings_list(listing.as_str());
    proof {
        reveal_strlit("@as []");
    }
    assert(strs(existing@) == registered_paths(
        match current {
            Some(o) => Some(o@),
            None => None,
        },
    ));
    let slot = first_free_slot(existing.as_slice());
    let path = gnome_slot_path(slot);
    let schema = gnome_slot_schema_of(path.as_str());
    let binding = combo.to_gnome();
    let mut all = existing.clone();
    let ghost before = strs(all@);
    all.push(path.clone());
    assert(strs(all@) =~= before.push(path@));
    let value = gsettings_list_value(all.as_slice());
    let r = vec![
        gsettings_call(vec!["set", schema.as_str(), "name", "Tmuxido"], "Failed to set GNOME shortcut name"),
        gsettings_call(vec!["set", schema.as_str(), "binding", binding.as_str()], "Failed to set GNOME shortcut binding"),
        gsettings_call(
            vec!["set", schema.as_str(), "command", "xdg-terminal-exec -e tmuxido"],
            "Failed to set GNOME shortcut command",
        ),
        gsettings_call(
            vec!["set", GNOME_MEDIA_KEYS_SCHEMA, "custom-keybindings", value.as_str()],
            "Failed to update GNOME custom keybindings list",
        ),
    ];
    assert(r@.map_values(|c: GsettingsCall| c@) =~~= gnome_calls(strs(existing@), slot as nat, gnome_of(combo@)));
    r
}


/// One entry of `hyprctl binds -j`, as far as the conflict check reads it:
/// each field is absent when the entry lacks it or it has another type.
#[derive(Debug, Clone)]
pub struct HyprBind {
    pub modmask: Option<u64>,
    pub key: Option<String>,
    pub has_description: Option<bool>,
    pub description: Option<String>,
    pub dispatcher: Option<String>,
}

impl View for HyprBind {
    type V = (Option<u64>, Option<Seq<char>>, Option<bool>, Option<Seq<char>>, Option<Seq<char>>);

    open spec fn view(&self) -> (
        Option<u64>,
        Option<Seq<char>>,
        Option<bool>,
        Option<Seq<char>>,
        Option<Seq<char>>,
    ) {
        (
            self.modmask,
            crate::session::opt_view(self.key),
            self.has_description,
            crate::session::opt_view(self.description),
            crate::session::opt_view(self.dispatcher),
        )
    }
}

/// What a binding is shown as: its description when it has one, otherwise
/// its dispatcher, otherwise "unknown".
pub open spec fn bind_label(
    b: (Option<u64>, Option<Seq<char>>, Option<bool>, Option<Seq<char>>, Option<Seq<char>>),
) -> Seq<char> {
    let chosen = if b.2 == Some(true) {
        b.3
    } else {
        b.4
    };
    match chosen {
        Some(t) => t,
        None => "unknown"@,
    }
}

/// The label of the first binding with modifier mask `mask` and key `key`
/// (lowercase); entries without a mask or a key are passed over.
pub open spec fn hypr_scan(
    binds: Seq<(Option<u64>, Option<Seq<char>>, Option<bool>, Option<Seq<char>>, Option<Seq<char>>)>,
    mask: u32,
    key: Seq<char>,
) -> Option<Seq<char>>
    decreases binds.len(),
{
    if binds.len() == 0 {
        None
    } else {
        let b = binds[0];
        match (b.0, b.1) {
            (Some(m), Some(k)) => if m as u32 == mask && lower(k) == key {
                Some(bind_label(b))
            } else {
                hypr_scan(binds.drop_first(), mask, key)
            },
            _ => hypr_scan(binds.drop_first(), mask, key),
        }
    }
}

/// The label of the Hyprland binding that already uses the combo, if any.
pub open spec fn hyprland_conflict(
    binds: Seq<(Option<u64>, Option<Seq<char>>, Option<bool>, Option<Seq<char>>, Option<Seq<char>>)>,
    c: (Seq<Seq<char>>, Seq<char>),
) -> Option<Seq<char>> {
    hypr_scan(binds, modmask_of(c.0), lower(c.1))
}

/// Finds the Hyprland binding among `binds` (as `hyprctl binds -j` lists
/// them) that already uses the combo: same modifier mask and same key,
/// ignoring case. Gives its description, or its dispatcher when it has no
/// description; entries that lack a mask or a key are passed over.
pub fn hyprland_conflict_in(binds: &[HyprBind], combo: &KeyCombo) -> (r: Option<String>)
    ensures
        match r {
            Some(s) => hyprland_conflict(binds@.map_values(|b: HyprBind| b@), combo@) == Some(s@),
            None => hyprland_conflict(binds@.map_values(|b: HyprBind| b@), combo@) is None,
        },
{
    let ghost bs = binds@.map_values(|b: HyprBind| b@);
    let mask = hyprland_modmask(combo);
    let key = to_lower(combo.key.as_str());
    let mut i: usize = 0;
    assert(bs.skip(0) =~= bs);
    while i < binds.len()
        invariant
            i <= binds@.len(),
            bs == binds@.map_values(|b: HyprBind| b@),
            mask == modmask_of(combo@.0),
            key@ == lower(combo@.1),
            hyprland_conflict(bs, combo@) == hypr_scan(bs.skip(i as int), mask, key@),
        decreases binds@.len() - i,
    {
        assert(bs.skip(i as int)[0] == binds@[i as int]@);
        assert(bs.skip(i as int).drop_first() =~= bs.skip(i + 1));
        let b = &binds[i];
        match (&b.modmask, &b.key) {
            (Some(m), Some(k)) => {
                let lk = to_lower(k.as_str());
                if (*m as u32) == mask && str_eq(lk.as_str(), key.as_str()) {
                    let chosen = if b.has_description == Some(true) {
                        &b.description
                    } else {
                        &b.dispatcher
                    };
                    return match chosen {
                        Some(t) => Some(t.clone()),
                        None => Some(owned("unknown")),
                    };
                }
            },
            _ => {},
        }
        i = i + 1;
    }
    None
}

/// What `serde_json` makes of the output of `hyprctl binds -j`: none when
/// the text is not a JSON array; otherwise, for each element, its
/// `modmask` (as an unsigned integer), `key` (as a string),
/// `has_description` (as a boolean), `description` and `dispatcher` (as
/// strings), each absent when the element lacks it or it has another type.
pub uninterp spec fn listed_binds(json: Seq<char>) -> Option<
    Seq<(Option<u64>, Option<Seq<char>>, Option<bool>, Option<Seq<char>>, Option<Seq<char>>)>,
>;

/// Parses the output of `hyprctl binds -j` with `serde_json::from_str` into
/// a `Vec<serde_json::Value>` and reads each element's fields with
/// `as_u64`, `as_str` and `as_bool`. Claimed: the result is `listed_binds`
/// of the text; nothing more is stated of it.
#[verifier::external_body]
fn parse_hypr_binds(json: &str) -> (r: Option<Vec<HyprBind>>)
    ensures
        match r {
            Some(v) => listed_binds(json@) == Some(v@.map_values(|b: HyprBind| b@)),
            None => listed_binds(json@) is None,
        },
{
    let values: Vec<serde_json::Value> = serde_json::from_str(json).ok()?;
    Some(values.iter().map(|b| HyprBind {
        modmask: b["modmask"].as_u64(),
        key: b["key"].as_str().map(|s| s.to_string()),
        has_description: b["has_description"].as_bool(),
        description: b["description"].as_str().map(|s| s.to_string()),
        dispatcher: b["dispatcher"].as_str().map(|s| s.to_string()),
    }).collect())
}

/// Finds the Hyprland binding that already uses the combo in the output of
/// `hyprctl binds -j`: none when that output is not a JSON array, otherwise
/// as `hyprland_conflict_in` finds it among the listed bindings.
pub fn hyprland_conflict_in_json(json: &str, combo: &KeyCombo) -> (r: Option<String>)
    ensures
        match listed_binds(json@) {
            None => r is None,
            Some(bs) => match r {
                Some(s) => hyprland_conflict(bs, combo@) == Some(s@),
                None => hyprland_conflict(bs, combo@) is None,
            },
        },
{
    match parse_hypr_binds(json) {
        None => None,
        Some(binds) => hyprland_conflict_in(binds.as_slice(), combo),
    }
}

/// Whether a GNOME custom keybinding's binding (as `gsettings get` prints
/// it, trimmed) is the combo.
pub open spec fn gnome_binding_is(output: Seq<char>, c: (Seq<Seq<char>>, Seq<char>)) -> bool {
    trim_by(output, CharClass::Only('\'')) == gnome_of(c)
}

/// Decides whether a keybinding's binding, as `gsettings get` prints it,
/// is the combo in GNOME notation.
pub fn gnome_binding_matches(output: &str, combo: &KeyCombo) -> (r: bool)
    ensures
        r == gnome_binding_is(output@, combo@),
{
    let v = chars_of(output);
    let t = trim_chars(v.as_slice(), CharClass::Only('\''));
    let g = combo.to_gnome();
    let gv = chars_of(g.as_str());
    crate::text::chars_eq(t.as_slice(), gv.as_slice())
}

/// The name of a conflicting GNOME keybinding, from what `gsettings get`
/// printed for its name (quotes stripped), or "unknown".
pub fn gnome_conflict_name(output: Option<&str>) -> (r: String)
    ensures
        r@ == trim_by(
            match output {
                Some(o) => o@,
                None => "unknown"@,
            },
            CharClass::Only('\''),
        ),
{
    let raw = match output {
        Some(o) => o,
        None => "unknown",
    };
    let v = chars_of(raw);
    let t = trim_chars(v.as_slice(), CharClass::Only('\''));
    string_of(t.as_slice())
}

/// The combo the user asked for: what was typed, or "Super+Shift+T" when
/// nothing was.
pub fn combo_from_input(input: &str) -> (r: Option<KeyCombo>)
    ensures
        match r {
            Some(c) => parse_combo(if input@.len() == 0 {
                "Super+Shift+T"@
            } else {
                input@
            }) == Some(c@),
            None => parse_combo(if input@.len() == 0 {
                "Super+Shift+T"@
            } else {
                input@
            }) is None,
        },
{
    if is_empty_str(input) {
        KeyCombo::parse("Super+Shift+T")
    } else {
        KeyCombo::parse(input)
    }
}

/// What to do when the combo asked for may be taken.
#[derive(Debug, Clone)]
pub enum ConflictResolution {
    /// The combo is free: use it.
    Free(KeyCombo),
    /// The combo is taken by `taken_by`; offer `suggestion` instead.
    Suggest { taken_by: String, suggestion: KeyCombo },
    /// The combo is taken and every fallback combo too.
    NoFallback,
}

/// Decides what to do about a combo given the binding that already uses it,
/// if any: keep it when free, otherwise offer the first fallback combo
/// other than it, or report that none is left.
pub fn resolve_conflict(combo: KeyCombo, conflict: Option<String>) -> (r: ConflictResolution)
    ensures
        conflict is None ==> (r matches ConflictResolution::Free(c) && c@ == combo@),
        conflict matches Some(t) ==> match first_free(fallback_specs(), seq![normalized_of(combo@)]) {
            Some(s) => (r matches ConflictResolution::Suggest { taken_by, suggestion }
                && taken_by@ == t@ && suggestion@ == s),
            None => r matches ConflictResolution::NoFallback,
        },
{
    match conflict {
        None => ConflictResolution::Free(combo),
        Some(taken_by) => {
            let taken = vec![combo.normalized()];
            assert(strs(taken@) =~= seq![normalized_of(combo@)]);
            match find_free_combo(taken.as_slice()) {
                Some(suggestion) => ConflictResolution::Suggest { taken_by, suggestion },
                None => ConflictResolution::NoFallback,
            }
        },
    }
}

/// What to do to make a new shortcut take effect in a desktop environment.
pub open spec fn reload_hint_for(de: DesktopEnv) -> Seq<char> {
    match de {
        DesktopEnv::Hyprland => "Reload Hyprland with Super+Shift+R to activate."@,
        DesktopEnv::Gnome => "The shortcut is active immediately."@,
        DesktopEnv::Kde => "Log out and back in to activate the shortcut."@,
        DesktopEnv::Unknown => ""@,
    }
}

/// What to do to make a new shortcut take effect.
pub fn reload_hint(de: DesktopEnv) -> (r: &'static str)
    ensures
        r@ == reload_hint_for(de),
{
    match de {
        DesktopEnv::Hyprland => "Reload Hyprland with Super+Shift+R to activate.",
        DesktopEnv::Gnome => "The shortcut is active immediately.",
        DesktopEnv::Kde => "Log out and back in to activate the shortcut.",
        DesktopEnv::Unknown => "",
    }
}

/// Where the Hyprland bindings live, for a configuration directory.
pub fn hyprland_bindings_path_from(config_dir: Option<String>) -> (r: Result<String, DirError>)
    ensures
        match config_dir {
            Some(d) => r matches Ok(p) && p@ == join_path(join_path(d@, "hypr"@), "bindings.conf"@),
            None => r == Err::<String, DirError>(DirError::NoConfigDir),
        },
{
    match config_dir {
        Some(d) => {
            proof {
                reveal_strlit("hypr");
                reveal_strlit("bindings.conf");
            }
            let h = join_path_str(d.as_str(), "hypr");
            Ok(join_path_str(h.as_str(), "bindings.conf"))
        },
        None => Err(DirError::NoConfigDir),
    }
}

/// Where the Hyprland bindings live: `hypr/bindings.conf` in the
/// configuration directory of this machine.
pub fn hyprland_bindings_path() -> (r: Result<String, DirError>)
    ensures
        r matches Ok(p) ==> exists|d: Seq<char>| p@ == join_path(join_path(d, "hypr"@), "bindings.conf"@),
        r matches Err(e) ==> e == DirError::NoConfigDir,
{
    hyprland_bindings_path_from(config_dir())
}

/// Where the KDE global shortcuts live, for a configuration directory.
pub fn kde_shortcuts_path_from(config_dir: Option<String>) -> (r: Result<String, DirError>)
    ensures
        match config_dir {
            Some(d) => r matches Ok(p) && p@ == join_path(d@, "kglobalshortcutsrc"@),
            None => r == Err::<String, DirError>(DirError::NoConfigDir),
        },
{
    match config_dir {
        Some(d) => {
            proof {
                reveal_strlit("kglobalshortcutsrc");
            }
            Ok(join_path_str(d.as_str(), "kglobalshortcutsrc"))
        },
        None => Err(DirError::NoConfigDir),
    }
}

/// Where the KDE global shortcuts live: `kglobalshortcutsrc` in the
/// configuration directory of this machine.
pub fn kde_shortcuts_path() -> (r: Result<String, DirError>)
    ensures
        r matches Ok(p) ==> exists|d: Seq<char>| p@ == join_path(d, "kglobalshortcutsrc"@),
        r matches Err(e) ==> e == DirError::NoConfigDir,
{
    kde_shortcuts_path_from(config_dir())
}

/// Where the `.desktop` entry is installed, for a data directory.
pub fn desktop_file_path_from(data_dir: Option<String>) -> (r: Result<String, DirError>)
    ensures
        match data_dir {
            Some(d) => r matches Ok(p) && p@ == join_path(
                join_path(d@, "applications"@),
                "tmuxido.desktop"@,
            ),
            None => r == Err::<String, DirError>(DirError::NoDataDir),
        },
{
    match data_dir {
        Some(d) => {
            proof {
                reveal_strlit("applications");
                reveal_strlit("tmuxido.desktop");
            }
            let a = join_path_str(d.as_str(), "applications");
            Ok(join_path_str(a.as_str(), "tmuxido.desktop"))
        },
        None => Err(DirError::NoDataDir),
    }
}

/// Where the `.desktop` entry is installed: `applications/tmuxido.desktop`
/// in the data directory of this machine.
pub fn desktop_file_path() -> (r: Result<String, DirError>)
    ensures
        r matches Ok(p) ==> exists|d: Seq<char>|
            p@ == join_path(join_path(d, "applications"@), "tmuxido.desktop"@),
        r matches Err(e) ==> e == DirError::NoDataDir,
{
    desktop_file_path_from(data_dir())
}

/// The icon file below a data directory.
pub open spec fn icon_path_in(d: Seq<char>) -> Seq<char> {
    join_path(
        join_path(join_path(join_path(join_path(d, "icons"@), "hicolor"@), "96x96"@), "apps"@),
        "tmuxido.png"@,
    )
}

/// Where the 96x96 icon is installed, for a data directory.
pub fn icon_install_path_from(data_dir: Option<String>) -> (r: Result<String, DirError>)
    ensures
        match data_dir {
            Some(d) => r matches Ok(p) && p@ == icon_path_in(d@),
            None => r == Err::<String, DirError>(DirError::NoDataDir),
        },
{
    match data_dir {
        Some(d) => {
            proof {
                reveal_strlit("icons");
                reveal_strlit("hicolor");
                reveal_strlit("96x96");
                reveal_strlit("apps");
                reveal_strlit("tmuxido.png");
            }
            let a = join_path_str(d.as_str(), "icons");
            let b = join_path_str(a.as_str(), "hicolor");
            let c = join_path_str(b.as_str(), "96x96");
            let e = join_path_str(c.as_str(), "apps");
            Ok(join_path_str(e.as_str(), "tmuxido.png"))
        },
        None => Err(DirError::NoDataDir),
    }
}

/// Where the 96x96 icon is installed:
/// `icons/hicolor/96x96/apps/tmuxido.png` in the data directory.
pub fn icon_install_path() -> (r: Result<String, DirError>)
    ensures
        r matches Ok(p) ==> exists|d: Seq<char>| p@ == icon_path_in(d),
        r matches Err(e) ==> e == DirError::NoDataDir,
{
    icon_install_path_from(data_dir())
}

/// Where the icon is downloaded from.
pub const ICON_URL: &'static str = "https://raw.githubusercontent.com/cinco/tmuxido/refs/heads/main/docs/assets/tmuxido-icon_96.png";

/// The `.desktop` entry that launches tmuxido in a terminal.
pub const DESKTOP_CONTENT: &'static str = "[Desktop Entry]
Name=Tmuxido
Comment=Quickly find and open projects in tmux
Exec=tmuxido
Icon=tmuxido
Type=Application
Categories=Development;Utility;
Terminal=true
Keywords=tmux;project;fzf;dev;
StartupWMClass=tmuxido
";

/// What installing the desktop integration did.
#[derive(Debug)]
pub struct DesktopInstallResult {
    pub desktop_path: String,
    pub icon_path: String,
    pub icon_downloaded: bool,
}

/// The arguments of the `curl` call that downloads the icon to `icon_path`.
pub fn icon_download_args(icon_path: &str) -> (r: Vec<String>)
    ensures
        strs(r@) == seq!["-fsSL"@, ICON_URL@, "-o"@, icon_path@],
{
    let words = vec!["-fsSL", ICON_URL, "-o", icon_path];
    let r = crate::text::owned_all(words.as_slice());
    assert(words@.map_values(|w: &str| w@) =~= seq!["-fsSL"@, ICON_URL@, "-o"@, icon_path@]);
    r
}

/// The icon theme directory that holds an icon installed at
/// `.../hicolor/96x96/apps/name.png`: three levels above it.
pub open spec fn theme_dir_of(icon_path: Seq<char>) -> Option<Seq<char>> {
    match path_parent(icon_path) {
        Some(a) => match path_parent(a) {
            Some(b) => path_parent(b),
            None => None,
        },
        None => None,
    }
}

/// The icon theme directory whose cache is refreshed after the icon is
/// installed at `icon_path`.
pub fn theme_dir(icon_path: &str) -> (r: Option<String>)
    ensures
        opt_text(r) == theme_dir_of(icon_path@),
{
    match parent_of(icon_path) {
        Some(a) => match parent_of(a.as_str()) {
            Some(b) => parent_of(b.as_str()),
            None => None,
        },
        None => None,
    }
}

/// The text of an optional string.
pub open spec fn opt_text(o: Option<String>) -> Option<Seq<char>> {
    crate::session::opt_view(o)
}


/// Writing the KDE shortcut leaves a `[tmuxido]` section in the file, so a
/// second write finds it and adds nothing.
pub proof fn law_kde_write_once(content: Seq<char>, c: (Seq<Seq<char>>, Seq<char>))
    ensures
        has_substr(content + kde_entry(c), "[tmuxido]"@),
{
    reveal_strlit("\n[tmuxido]\nLaunch Tmuxido=");
    reveal_strlit("[tmuxido]");
    let head = "\n[tmuxido]\nLaunch Tmuxido="@;
    let rest = kde_of(c) + ",none,Launch Tmuxido\n"@;
    assert(kde_entry(c) =~= head + rest);
    let s = content + kde_entry(c);
    let i: int = content.len() as int + 1;
    assert(s.subrange(i, i + 9) =~= "[tmuxido]"@);
}

/// Whichever launch command is chosen, the Hyprland binding line mentions
/// tmuxido, so a second write finds it and adds nothing.
pub proof fn law_hyprland_write_once(
    content: Seq<char>,
    c: (Seq<Seq<char>>, Seq<char>),
    omarchy_available: bool,
)
    ensures
        has_substr(content + hyprland_line(c, hyprland_launch(omarchy_available)), "tmuxido"@),
{
    reveal_strlit("omarchy-launch-tui tmuxido");
    reveal_strlit("xdg-terminal-exec -e tmuxido");
    reveal_strlit("tmuxido");
    let launch = hyprland_launch(omarchy_available);
    let t = "tmuxido"@;
    let front = if omarchy_available {
        "omarchy-launch-tui "@
    } else {
        "xdg-terminal-exec -e "@
    };
    reveal_strlit("omarchy-launch-tui ");
    reveal_strlit("xdg-terminal-exec -e ");
    assert(launch =~= front + t);
    crate::text::lemma_substr_suffix(front, t);
    let a = "bindd = "@ + hyprland_of(c) + ", Tmuxido, exec, "@;
    assert(hyprland_line(c, launch) =~= a + launch + "\n"@);
    crate::text::lemma_substr_concat(a, launch, t);
    crate::text::lemma_substr_concat(a + launch, "\n"@, t);
    crate::text::lemma_substr_concat(content, hyprland_line(c, launch), t);
}


/// The keybinding list that the GNOME setup writes reads back as the same
/// entries, so the next setup sees every slot already taken: each entry
/// must be non-empty, hold no comma, and neither begin nor end with a quote.
pub proof fn law_gsettings_read_back(items: Seq<Seq<char>>)
    requires
        forall|i: int|
            0 <= i < items.len() ==> {
                &&& (#[trigger] items[i]).len() > 0
                &&& !items[i].contains(',')
                &&& items[i][0] != '\''
                &&& items[i].last() != '\''
            },
    ensures
        gsettings_list(gsettings_value(items)) == items,
{
    reveal_strlit("[");
    reveal_strlit("]");
    reveal_strlit("'");
    reveal_strlit(", ");
    reveal_strlit("@as");
    let quote = CharClass::Only('\'');
    let q = items.map_values(|s: Seq<char>| "'"@ + s + "'"@);
    let j = join(q, ", "@);
    let value = gsettings_value(items);
    assert(value =~= seq!['['] + (j + seq![']']));
    assert forall|i: int| 0 <= i < q.len() implies #[trigger] q[i] == seq!['\''] + (items[i]
        + seq!['\'']) by {
        assert(q[i] =~= seq!['\''] + (items[i] + seq!['\'']));
    }
    crate::text::lemma_trim_by_noop(value, CharClass::Whitespace);
    assert(!"@as"@.is_prefix_of(value)) by {
        assert(value[0] == '[');
        assert("@as"@[0] == '@');
    }
    if items.len() == 0 {
        assert(j =~= Seq::<char>::empty());
        crate::text::lemma_trim_start_one('[', j + seq![']'], CharClass::Only('['));
        crate::text::lemma_trim_end_one(j, ']', CharClass::Only(']'));
        assert(gsettings_inner(value) =~= Seq::<char>::empty());
        assert(gsettings_list(value) =~= items);
    } else {
        assert forall|i: int| 0 <= i < q.len() implies (#[trigger] q[i]).len() > 0 by {
            assert(q[i] == seq!['\''] + (items[i] + seq!['\'']));
        }
        crate::text::lemma_join_ends(q, ", "@);
        assert(q[0][0] == '\'');
        assert(q.last() == q[q.len() - 1]);
        assert(q.last().last() == '\'');
        crate::text::lemma_trim_start_one('[', j + seq![']'], CharClass::Only('['));
        crate::text::lemma_trim_end_one(j, ']', CharClass::Only(']'));
        crate::text::lemma_trim_by_noop(j, CharClass::Whitespace);
        assert(gsettings_inner(value) == j);
        assert forall|i: int| 0 <= i < q.len() implies !(#[trigger] q[i]).contains(',') by {
            assert(!items[i].contains(','));
            if q[i].contains(',') {
                let x = choose|x: int| 0 <= x < q[i].len() && q[i][x] == ',';
                assert(x != 0 && x != q[i].len() - 1);
                assert(items[i][x - 1] == ',');
            }
        }
        reveal_strlit(" ");
        assert(", "@ =~= seq![','] + " "@);
        assert(!" "@.contains(',')) by {
            assert(" "@.len() == 1 && " "@[0] == ' ');
        }
        crate::text::lemma_split_join(q, ',', " "@);
        let pieces = split(j, ',');
        let mapped = pieces.map_values(|p: Seq<char>| gsettings_entry(p));
        assert forall|i: int| 0 <= i < items.len() implies #[trigger] mapped[i] == items[i] by {
            let qi = q[i];
            let inner = items[i] + seq!['\''];
            assert(qi == seq!['\''] + inner);
            assert(inner[0] == items[i][0]);
            assert(inner.last() == '\'');
            if i == 0 {
                assert(pieces[i] == qi);
                crate::text::lemma_trim_by_noop(qi, CharClass::Whitespace);
            } else {
                assert(pieces[i] == " "@ + qi);
                assert(" "@ + qi =~= seq![' '] + qi);
                crate::text::lemma_trim_start_one(' ', qi, CharClass::Whitespace);
                crate::text::lemma_trim_by_noop(qi, CharClass::Whitespace);
            }
            assert(trim(pieces[i]) == qi);
            crate::text::lemma_trim_start_one('\'', inner, quote);
            assert(items[i].last() == items[i][items[i].len() - 1]);
            crate::text::lemma_trim_end_one(items[i], '\'', quote);
        }
        assert(mapped =~= items);
        crate::text::lemma_nonempty_only_all(items);
    }
}


/// Whether `x` can stand in a gsettings list and read back unchanged: not
/// empty, without a comma, and neither beginning nor ending with a quote.
pub open spec fn gsettings_clean(x: Seq<char>) -> bool {
    &&& x.len() > 0
    &&& !x.contains(',')
    &&& x[0] != '\''
    &&& x.last() != '\''
}

/// A decimal number holds no comma.
proof fn lemma_dec_no_comma(n: nat)
    ensures
        !dec(n).contains(','),
    decreases n,
{
    if n >= 10 {
        lemma_dec_no_comma(n / 10);
        let d = dec(n);
        assert(d == dec(n / 10).push(crate::text::digit_char((n % 10) as int)));
        if d.contains(',') {
            let x = choose|x: int| 0 <= x < d.len() && d[x] == ',';
            if x < d.len() - 1 {
                assert(dec(n / 10)[x] == ',');
            }
        }
    } else {
        let d = dec(n);
        if d.contains(',') {
            let x = choose|x: int| 0 <= x < d.len() && d[x] == ',';
            assert(d[0] == crate::text::digit_char(n as int));
        }
    }
}

/// The path of every keybinding slot can stand in a gsettings list.
proof fn lemma_gnome_slot_clean(n: nat)
    ensures
        gsettings_clean(gnome_slot(n)),
{
    reveal_strlit("/org/gnome/settings-daemon/plugins/media-keys/custom-keybindings");
    reveal_strlit("/custom");
    reveal_strlit("/");
    let p = GNOME_CUSTOM_PATH@;
    assert(p == "/org/gnome/settings-daemon/plugins/media-keys/custom-keybindings"@);
    let c = "/custom"@;
    let d = dec(n);
    let e = "/"@;
    let g = gnome_slot(n);
    assert(g == p + c + d + e);
    lemma_dec_no_comma(n);
    assert(g[0] == p[0]);
    assert(g.last() == e[0]);
    if g.contains(',') {
        let x = choose|x: int| 0 <= x < g.len() && g[x] == ',';
        if x < p.len() {
            assert(p[x] == ',');
        } else if x < p.len() + c.len() {
            assert(c[x - p.len()] == ',');
        } else if x < p.len() + c.len() + d.len() {
            assert(d[x - p.len() - c.len()] == ',');
            assert(d.contains(','));
        } else {
            assert(e[x - p.len() - c.len() - d.len()] == ',');
        }
    }
}

/// Every entry read from a gsettings list can stand in one again.
proof fn lemma_gsettings_list_clean(input: Seq<char>)
    ensures
        forall|i: int| 0 <= i < gsettings_list(input).len() ==> gsettings_clean(#[trigger] gsettings_list(input)[i]),
{
    let inner = gsettings_inner(input);
    if inner.len() > 0 {
        let pieces = split(inner, ',');
        let mapped = pieces.map_values(|p: Seq<char>| gsettings_entry(p));
        lemma_nonempty_only_members(mapped);
        lemma_split_pieces_lack_sep(inner, ',');
        assert forall|i: int| 0 <= i < gsettings_list(input).len() implies gsettings_clean(#[trigger] gsettings_list(input)[i]) by {
            let e = gsettings_list(input)[i];
            assert(nonempty_only(mapped)[i] == e);
            let m = choose|m: int| 0 <= m < mapped.len() && mapped[m] == e;
            let p = pieces[m];
            let quote = CharClass::Only('\'');
            let t = trim(p);
            assert(e == trim_by(t, quote));
            lemma_trim_clean(p, CharClass::Whitespace);
            lemma_trim_clean(t, quote);
            assert(!p.contains(','));
            if e.contains(',') {
                assert(t.contains(','));
                assert(p.contains(','));
            }
            lemma_trim_start_shape(t, quote);
            let x1 = trim_start_by(t, quote);
            lemma_trim_end_shape(x1, quote);
            let j = choose|j: int| 0 <= j <= x1.len() && trim_end_by(x1, quote) == x1.take(j);
            assert(e == x1.take(j));
            assert(e[0] == x1[0]);
        }
    }
}

/// Law: the GNOME setup keeps the keybindings already registered: the list
/// it writes to `custom-keybindings` reads back as every path registered
/// before, in order, followed by the new slot.
pub proof fn law_gnome_keeps_registered_keybindings(output: Option<Seq<char>>, slot: nat, binding: Seq<char>)
    ensures
        ({
            let existing = registered_paths(output);
            let calls = gnome_calls(existing, slot, binding);
            &&& calls.len() == 4
            &&& calls[3].0.len() == 4
            &&& calls[3].0.take(3) == seq!["set"@, GNOME_MEDIA_KEYS_SCHEMA@, "custom-keybindings"@]
            &&& gsettings_list(calls[3].0[3]) == existing.push(gnome_slot(slot))
        }),
{
    let existing = registered_paths(output);
    let calls = gnome_calls(existing, slot, binding);
    let items = existing.push(gnome_slot(slot));
    match output {
        Some(o) => lemma_gsettings_list_clean(trim(o)),
        None => lemma_gsettings_list_clean("@as []"@),
    }
    lemma_gnome_slot_clean(slot);
    assert forall|i: int| 0 <= i < items.len() implies {
        &&& (#[trigger] items[i]).len() > 0
        &&& !items[i].contains(',')
        &&& items[i][0] != '\''
        &&& items[i].last() != '\''
    } by {
        if i < existing.len() {
            assert(items[i] == existing[i]);
            assert(gsettings_clean(existing[i]));
        } else {
            assert(items[i] == gnome_slot(slot));
        }
    }
    law_gsettings_read_back(items);
    assert(calls[3].0.take(3) =~= seq!["set"@, GNOME_MEDIA_KEYS_SCHEMA@, "custom-keybindings"@]);
}

/// The fallback combo offered is free: its normalized form is not among the
/// taken ones, and it is what one of the candidates parses to; none is
/// offered only when every candidate that parses is taken.
pub proof fn law_first_free_is_free(candidates: Seq<Seq<char>>, taken: Seq<Seq<char>>)
    ensures
        match first_free(candidates, taken) {
            Some(c) => !taken.contains(normalized_of(c)) && exists|i: int|
                0 <= i < candidates.len() && #[trigger] parse_combo(candidates[i]) == Some(c),
            None => forall|i: int|
                0 <= i < candidates.len() ==> match #[trigger] parse_combo(candidates[i]) {
                    Some(c) => taken.contains(normalized_of(c)),
                    None => true,
                },
        },
    decreases candidates.len(),
{
    if candidates.len() > 0 {
        let rest = candidates.drop_first();
        law_first_free_is_free(rest, taken);
        match first_free(candidates, taken) {
            Some(c) => {
                if parse_combo(candidates[0]) == Some(c) && !taken.contains(normalized_of(c)) {
                } else {
                    let i = choose|i: int|
                        0 <= i < rest.len() && #[trigger] parse_combo(rest[i]) == Some(c);
                    assert(candidates[i + 1] == rest[i]);
                }
            },
            None => {
                assert forall|i: int| 0 <= i < candidates.len() implies match #[trigger] parse_combo(
                    candidates[i],
                ) {
                    Some(c) => taken.contains(normalized_of(c)),
                    None => true,
                } by {
                    if i > 0 {
                        assert(candidates[i] == rest[i - 1]);
                    }
                }
            },
        }
    }
}


/// The scan reads each line only through its trimmed form.
proof fn lemma_kde_scan_trimmed(a: Seq<Seq<char>>, b: Seq<Seq<char>>, section: Seq<char>, binding: Seq<char>)
    requires
        a.len() == b.len(),
        forall|i: int| 0 <= i < a.len() ==> trim(#[trigger] a[i]) == trim(b[i]),
    ensures
        kde_scan(a, section, binding) == kde_scan(b, section, binding),
    decreases a.len(),
{
    if a.len() > 0 {
        assert(trim(a[0]) == trim(b[0]));
        let t = trim(a[0]);
        let ad = a.drop_first();
        let bd = b.drop_first();
        assert forall|i: int| 0 <= i < ad.len() implies trim(#[trigger] ad[i]) == trim(bd[i]) by {
            assert(ad[i] == a[i + 1]);
            assert(bd[i] == b[i + 1]);
        }
        if is_section_header(t) {
            lemma_kde_scan_trimmed(ad, bd, t.subrange(1, t.len() - 1), binding);
        } else {
            lemma_kde_scan_trimmed(ad, bd, section, binding);
        }
    }
}

/// When the first lines hold no binding of `binding`, scanning more lines
/// after them is scanning those lines in some section.
proof fn lemma_kde_scan_append(
    a: Seq<Seq<char>>,
    b: Seq<Seq<char>>,
    section: Seq<char>,
    binding: Seq<char>,
)
    requires
        kde_scan(a, section, binding) is None,
    ensures
        exists|s2: Seq<char>| kde_scan(a + b, section, binding) == kde_scan(b, s2, binding),
    decreases a.len(),
{
    if a.len() == 0 {
        assert(a + b =~= b);
        assert(kde_scan(a + b, section, binding) == kde_scan(b, section, binding));
    } else {
        assert((a + b)[0] == a[0]);
        assert((a + b).drop_first() =~= a.drop_first() + b);
        let t = trim(a[0]);
        if is_section_header(t) {
            lemma_kde_scan_append(a.drop_first(), b, t.subrange(1, t.len() - 1), binding);
        } else {
            lemma_kde_scan_append(a.drop_first(), b, section, binding);
        }
    }
}

/// The line of the tmuxido entry binds the combo's KDE notation, when that
/// notation holds no comma.
proof fn lemma_kde_entry_line(k: Seq<char>)
    requires
        !k.contains(','),
    ensures
        ({
            let l = "Launch Tmuxido="@ + k + ",none,Launch Tmuxido"@;
            &&& trim(l) == l
            &&& !is_section_header(l)
            &&& l.contains('=')
            &&& line_binding(l) == k
        }),
{
    reveal_strlit("Launch Tmuxido=");
    reveal_strlit(",none,Launch Tmuxido");
    let l = "Launch Tmuxido="@ + k + ",none,Launch Tmuxido"@;
    assert(l[0] == 'L');
    assert(l.last() == 'o');
    crate::text::lemma_trim_by_noop(l, CharClass::Whitespace);
    assert(l[14] == '=');
    reveal_strlit("Launch Tmuxido");
    assert(l.take(14) =~= "Launch Tmuxido"@);
    assert(!l.take(14).contains('='));
    lemma_first_piece(l, '=', 14);
    let v = l.skip(15);
    assert(v =~= k + ",none,Launch Tmuxido"@);
    assert(v[k.len() as int] == ',');
    assert(v.take(k.len() as int) =~= k);
    lemma_first_piece(v, ',', k.len() as int);
}

/// After the KDE setup appends its entry to a `kglobalshortcutsrc` text in
/// which the combo was free, the conflict check finds the combo bound in
/// the `[tmuxido]` section. This needs the combo's KDE notation to hold no
/// comma and no newline.
pub proof fn law_kde_entry_read_back(content: Seq<char>, c: (Seq<Seq<char>>, Seq<char>))
    requires
        kde_conflict(content, c) is None,
        !kde_of(c).contains(','),
        !kde_of(c).contains('\n'),
    ensures
        kde_conflict(content + kde_entry(c), c) == Some("tmuxido"@),
{
    reveal_strlit("\n[tmuxido]\nLaunch Tmuxido=");
    reveal_strlit(",none,Launch Tmuxido\n");
    reveal_strlit("[tmuxido]");
    reveal_strlit("tmuxido");
    reveal_strlit("Launch Tmuxido=");
    reveal_strlit(",none,Launch Tmuxido");
    let k = kde_of(c);
    let l = "Launch Tmuxido="@ + k + ",none,Launch Tmuxido"@;
    let h = "[tmuxido]"@;
    lemma_kde_entry_line(k);
    assert(!l.contains('\n')) by {
        if l.contains('\n') {
            let x = choose|x: int| 0 <= x < l.len() && l[x] == '\n';
            if 15 <= x < 15 + k.len() {
                assert(k[x - 15] == '\n');
            }
        }
    }
    assert(!h.contains('\n'));
    let r = h + seq!['\n'] + (l + seq!['\n'] + Seq::<char>::empty());
    assert(content + kde_entry(c) =~= content + seq!['\n'] + r);
    lemma_split_at_sep(content, r, '\n');
    lemma_split_at_sep(h, l + seq!['\n'] + Seq::<char>::empty(), '\n');
    lemma_split_at_sep(l, Seq::<char>::empty(), '\n');
    crate::text::lemma_split_no_sep(h, '\n');
    crate::text::lemma_split_no_sep(l, '\n');
    crate::text::lemma_split_nonempty(content, '\n');
    let ps = split(content, '\n');
    assert(split(Seq::<char>::empty(), '\n') =~= seq![Seq::<char>::empty()]);
    let all = split(content + kde_entry(c), '\n');
    assert(all =~= ps + seq![h, l, Seq::<char>::empty()]);
    let stripped = ps.map_values(|p: Seq<char>| strip_cr(p));
    assert(h.last() == ']');
    assert(l.last() == 'o');
    assert(lines(content + kde_entry(c)) =~= stripped + seq![h, l]);
    // The text before the entry binds nothing, read line by line.
    let before = lines(content);
    assert(kde_scan(before, Seq::<char>::empty(), k) is None);
    if ps.last().len() == 0 {
        assert(strip_cr(ps.last()) == ps.last());
        assert forall|i: int| 0 <= i < stripped.len() implies #[trigger] stripped[i] == before.push(
            Seq::<char>::empty(),
        )[i] by {
            if i < ps.len() - 1 {
                assert(before[i] == strip_cr(ps.drop_last()[i]));
            } else {
                assert(stripped[i] == strip_cr(ps[ps.len() - 1]));
            }
        }
        assert(stripped =~= before.push(Seq::<char>::empty()));
        lemma_kde_scan_append(before, seq![Seq::<char>::empty()], Seq::<char>::empty(), k);
        let s2 = choose|s2: Seq<char>|
            kde_scan(before + seq![Seq::<char>::empty()], Seq::<char>::empty(), k) == kde_scan(
                seq![Seq::<char>::empty()],
                s2,
                k,
            );
        crate::text::lemma_trim_by_noop(Seq::<char>::empty(), CharClass::Whitespace);
        assert(!Seq::<char>::empty().contains('='));
        assert(seq![Seq::<char>::empty()].drop_first() =~= Seq::<Seq<char>>::empty());
        assert(kde_scan(Seq::<Seq<char>>::empty(), s2, k) is None);
        assert(trim(seq![Seq::<char>::empty()][0]) =~= Seq::<char>::empty());
        assert(kde_scan(seq![Seq::<char>::empty()], s2, k) is None);
        assert(before + seq![Seq::<char>::empty()] =~= stripped);
    } else {
        assert forall|i: int| 0 <= i < stripped.len() implies trim(#[trigger] stripped[i]) == trim(
            before[i],
        ) by {
            crate::text::lemma_trim_strip_cr(ps[i]);
        }
        assert(stripped.len() == before.len());
        lemma_kde_scan_trimmed(stripped, before, Seq::<char>::empty(), k);
    }
    assert(kde_scan(stripped, Seq::<char>::empty(), k) is None);
    lemma_kde_scan_append(stripped, seq![h, l], Seq::<char>::empty(), k);
    let s2 = choose|s2: Seq<char>|
        kde_scan(stripped + seq![h, l], Seq::<char>::empty(), k) == kde_scan(seq![h, l], s2, k);
    crate::text::lemma_trim_by_noop(h, CharClass::Whitespace);
    assert(is_section_header(h));
    assert(h.subrange(1, h.len() - 1) =~= "tmuxido"@);
    assert(seq![h, l].drop_first() =~= seq![l]);
    assert(kde_scan(seq![l], "tmuxido"@, k) == Some("tmuxido"@));
    assert(trim(seq![h, l][0]) == h);
    assert(kde_scan(seq![h, l], s2, k) == kde_scan(seq![l], "tmuxido"@, k));
    assert(kde_conflict(content + kde_entry(c), c) == kde_scan(stripped + seq![h, l], Seq::<char>::empty(), k));
}

} // verus!
