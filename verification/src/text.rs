//! Character-level string handling with specifications over `Seq<char>`.
use vstd::prelude::*;
use vstd::string::*;

verus! {

/// The characters for which `char::is_whitespace` holds (the Unicode
/// `White_Space` property).
pub open spec fn is_ws(c: char) -> bool {
    let u = c as u32;
    ||| 0x09 <= u <= 0x0D
    ||| u == 0x20
    ||| u == 0x85
    ||| u == 0xA0
    ||| u == 0x1680
    ||| 0x2000 <= u <= 0x200A
    ||| u == 0x2028
    ||| u == 0x2029
    ||| u == 0x202F
    ||| u == 0x205F
    ||| u == 0x3000
}

/// Decides `is_ws`.
pub fn is_whitespace(c: char) -> (r: bool)
    ensures
        r == is_ws(c),
{
    let u = c as u32;
    (0x09 <= u && u <= 0x0D) || u == 0x20 || u == 0x85 || u == 0xA0 || u == 0x1680 || (0x2000
        <= u && u <= 0x200A) || u == 0x2028 || u == 0x2029 || u == 0x202F || u == 0x205F || u
        == 0x3000
}

/// The characters of a string slice, in order.
pub fn chars_of(s: &str) -> (v: Vec<char>)
    ensures
        v@ == s@,
{
    let n = s.unicode_len();
    let mut v: Vec<char> = Vec::new();
    let mut i: usize = 0;
    while i < n
        invariant
            n == s@.len(),
            i <= n,
            v@ == s@.take(i as int),
        decreases n - i,
    {
        v.push(s.get_char(i));
        i = i + 1;
        assert(v@ =~= s@.take(i as int));
    }
    assert(v@ =~= s@);
    v
}

/// Appends one character to a string (`String::push`).
#[verifier::external_body]
fn push_char(s: &mut String, c: char)
    ensures
        final(s)@ == old(s)@.push(c),
{
    s.push(c);
}

/// The string made of the given characters.
pub fn string_of(v: &[char]) -> (s: String)
    ensures
        s@ == v@,
{
    let mut s = String::new();
    let mut i: usize = 0;
    while i < v.len()
        invariant
            i <= v@.len(),
            s@ == v@.take(i as int),
        decreases v@.len() - i,
    {
        push_char(&mut s, v[i]);
        i = i + 1;
        assert(s@ =~= v@.take(i as int));
    }
    assert(v@.take(v@.len() as int) =~= v@);
    s
}


/// A set of characters that a trim removes: whitespace, or one given character.
#[derive(Clone, Copy, PartialEq, Eq, Structural)]
pub enum CharClass {
    Whitespace,
    Only(char),
}

/// Whether `c` belongs to the class `k`.
pub open spec fn in_class(c: char, k: CharClass) -> bool {
    match k {
        CharClass::Whitespace => is_ws(c),
        CharClass::Only(x) => c == x,
    }
}

/// Decides `in_class`.
pub fn class_has(c: char, k: CharClass) -> (r: bool)
    ensures
        r == in_class(c, k),
{
    match k {
        CharClass::Whitespace => is_whitespace(c),
        CharClass::Only(x) => c == x,
    }
}

/// `s` without its leading characters of class `k` (`trim_start_matches`).
pub open spec fn trim_start_by(s: Seq<char>, k: CharClass) -> Seq<char>
    decreases s.len(),
{
    if s.len() > 0 && in_class(s[0], k) {
        trim_start_by(s.drop_first(), k)
    } else {
        s
    }
}

/// `s` without its trailing characters of class `k` (`trim_end_matches`).
pub open spec fn trim_end_by(s: Seq<char>, k: CharClass) -> Seq<char>
    decreases s.len(),
{
    if s.len() > 0 && in_class(s.last(), k) {
        trim_end_by(s.drop_last(), k)
    } else {
        s
    }
}

/// `s` without leading and trailing characters of class `k` (`trim_matches`).
pub open spec fn trim_by(s: Seq<char>, k: CharClass) -> Seq<char> {
    trim_end_by(trim_start_by(s, k), k)
}

/// `str::trim`: `s` without leading and trailing whitespace.
pub open spec fn trim(s: Seq<char>) -> Seq<char> {
    trim_by(s, CharClass::Whitespace)
}

proof fn lemma_trim_start_step(s: Seq<char>, i: int, k: CharClass)
    requires
        0 <= i < s.len(),
        in_class(s[i], k),
    ensures
        trim_start_by(s.skip(i), k) == trim_start_by(s.skip(i + 1), k),
{
    assert(s.skip(i).drop_first() =~= s.skip(i + 1));
}

proof fn lemma_trim_end_step(s: Seq<char>, j: int, k: CharClass)
    requires
        0 < j <= s.len(),
        in_class(s[j - 1], k),
    ensures
        trim_end_by(s.take(j), k) == trim_end_by(s.take(j - 1), k),
{
    assert(s.take(j).drop_last() =~= s.take(j - 1));
}

/// The position where `trim_start_by` of `v` begins.
pub fn trim_start_index(v: &[char], k: CharClass) -> (i: usize)
    ensures
        i <= v@.len(),
        trim_start_by(v@, k) == v@.skip(i as int),
        forall|j: int| 0 <= j < i ==> in_class(#[trigger] v@[j], k),
{
    let mut i: usize = 0;
    assert(v@.skip(0) =~= v@);
    while i < v.len() && class_has(v[i], k)
        invariant
            i <= v@.len(),
            trim_start_by(v@, k) == trim_start_by(v@.skip(i as int), k),
            forall|j: int| 0 <= j < i ==> in_class(#[trigger] v@[j], k),
        decreases v@.len() - i,
    {
        proof {
            lemma_trim_start_step(v@, i as int, k);
        }
        i = i + 1;
    }
    i
}

/// The position where `trim_end_by` of the first `n` characters of `v` ends.
pub fn trim_end_index(v: &[char], n: usize, k: CharClass) -> (j: usize)
    requires
        n <= v@.len(),
    ensures
        j <= n,
        trim_end_by(v@.take(n as int), k) == v@.take(j as int),
        forall|x: int| j <= x < n ==> in_class(#[trigger] v@[x], k),
{
    let mut j: usize = n;
    while j > 0 && class_has(v[j - 1], k)
        invariant
            j <= n <= v@.len(),
            trim_end_by(v@.take(n as int), k) == trim_end_by(v@.take(j as int), k),
            forall|x: int| j <= x < n ==> in_class(#[trigger] v@[x], k),
        decreases j,
    {
        proof {
            lemma_trim_end_step(v@, j as int, k);
        }
        j = j - 1;
    }
    j
}

/// The characters of `v` without leading and trailing ones of class `k`.
pub fn trim_chars(v: &[char], k: CharClass) -> (r: Vec<char>)
    ensures
        r@ == trim_by(v@, k),
{
    let i = trim_start_index(v, k);
    let tail = slice_from(v, i);
    let j = trim_end_index(&tail, tail.len(), k);
    assert(tail@.take(tail@.len() as int) =~= tail@);
    slice_range(&tail, 0, j)
}

/// The characters of `v` from position `i` on.
pub fn slice_from(v: &[char], i: usize) -> (r: Vec<char>)
    requires
        i <= v@.len(),
    ensures
        r@ == v@.skip(i as int),
{
    slice_range(v, i, v.len())
}

/// The characters of `v` at positions `i` up to `j`.
pub fn slice_range(v: &[char], i: usize, j: usize) -> (r: Vec<char>)
    requires
        i <= j <= v@.len(),
    ensures
        r@ == v@.subrange(i as int, j as int),
{
    let mut r: Vec<char> = Vec::new();
    let mut x: usize = i;
    while x < j
        invariant
            i <= x <= j <= v@.len(),
            r@ == v@.subrange(i as int, x as int),
        decreases j - x,
    {
        r.push(v[x]);
        x = x + 1;
        assert(r@ =~= v@.subrange(i as int, x as int));
    }
    r
}


/// `str::split` on one separator character: the pieces between separators,
/// in order; there is always at least one piece.
pub open spec fn split(s: Seq<char>, sep: char) -> Seq<Seq<char>>
    decreases s.len(),
{
    if s.len() == 0 {
        seq![Seq::<char>::empty()]
    } else {
        let prev = split(s.drop_last(), sep);
        if s.last() == sep {
            prev.push(Seq::<char>::empty())
        } else {
            prev.update(prev.len() - 1, prev.last().push(s.last()))
        }
    }
}

/// `split` always yields at least one piece.
pub proof fn lemma_split_nonempty(s: Seq<char>, sep: char)
    ensures
        split(s, sep).len() >= 1,
    decreases s.len(),
{
    if s.len() > 0 {
        lemma_split_nonempty(s.drop_last(), sep);
    }
}

/// No piece of `split(s, sep)` contains `sep`.
pub proof fn lemma_split_pieces_lack_sep(s: Seq<char>, sep: char)
    ensures
        forall|i: int| 0 <= i < split(s, sep).len() ==> !(#[trigger] split(s, sep)[i]).contains(sep),
    decreases s.len(),
{
    if s.len() > 0 {
        lemma_split_nonempty(s.drop_last(), sep);
        lemma_split_pieces_lack_sep(s.drop_last(), sep);
        let prev = split(s.drop_last(), sep);
        assert forall|i: int| 0 <= i < split(s, sep).len() implies !(#[trigger] split(s, sep)[i]).contains(sep) by {
            if i < prev.len() - 1 {
                assert(split(s, sep)[i] == prev[i]);
            } else if i == prev.len() - 1 {
                if s.last() != sep {
                    let q = prev.last().push(s.last());
                    assert(split(s, sep)[i] == q);
                    if q.contains(sep) {
                        let x = choose|x: int| 0 <= x < q.len() && q[x] == sep;
                        assert(prev.last()[x] == sep);
                        assert(prev[prev.len() - 1].contains(sep));
                    }
                }
            } else {
                assert(split(s, sep)[i] =~= Seq::<char>::empty());
            }
        }
    }
}

/// The contents of each vector of characters in `v`.
pub open spec fn char_vecs(v: Seq<Vec<char>>) -> Seq<Seq<char>> {
    v.map_values(|p: Vec<char>| p@)
}

/// The contents of each string in `v`.
pub open spec fn strs(v: Seq<String>) -> Seq<Seq<char>> {
    v.map_values(|p: String| p@)
}

/// The characters of `v`, cut at each `sep`, as `split` says.
pub fn split_chars(v: &[char], sep: char) -> (r: Vec<Vec<char>>)
    ensures
        char_vecs(r@) == split(v@, sep),
{
    let mut pieces: Vec<Vec<char>> = Vec::new();
    let mut cur: Vec<char> = Vec::new();
    let mut i: usize = 0;
    assert(v@.take(0) =~= Seq::<char>::empty());
    assert(char_vecs(pieces@).push(cur@) =~= split(v@.take(0), sep));
    while i < v.len()
        invariant
            i <= v@.len(),
            char_vecs(pieces@).push(cur@) == split(v@.take(i as int), sep),
        decreases v@.len() - i,
    {
        let c = v[i];
        let ghost before = char_vecs(pieces@);
        assert(v@.take(i + 1).drop_last() =~= v@.take(i as int));
        if c == sep {
            let done = cur;
            pieces.push(done);
            cur = Vec::new();
            assert(char_vecs(pieces@) =~= before.push(done@));
            assert(char_vecs(pieces@).push(cur@) =~= split(v@.take(i + 1), sep));
        } else {
            cur.push(c);
            assert(char_vecs(pieces@).push(cur@) =~= split(v@.take(i + 1), sep));
        }
        i = i + 1;
    }
    let ghost before = char_vecs(pieces@);
    let ghost last = cur@;
    pieces.push(cur);
    assert(char_vecs(pieces@) =~= before.push(last));
    assert(v@.take(v@.len() as int) =~= v@);
    pieces
}

/// A run without the separator is one piece.
pub proof fn lemma_split_no_sep(s: Seq<char>, sep: char)
    requires
        !s.contains(sep),
    ensures
        split(s, sep) == seq![s],
    decreases s.len(),
{
    if s.len() > 0 {
        assert(!s.drop_last().contains(sep)) by {
            if s.drop_last().contains(sep) {
                let i = choose|i: int| 0 <= i < s.drop_last().len() && s.drop_last()[i] == sep;
                assert(s[i] == sep);
            }
        }
        lemma_split_no_sep(s.drop_last(), sep);
        assert(s.last() != sep) by {
            assert(s[s.len() - 1] == s.last());
        }
        assert(s.drop_last().push(s.last()) =~= s);
    } else {
        assert(s =~= Seq::<char>::empty());
    }
}

/// Cutting at a separator between two runs cuts each run on its own.
pub proof fn lemma_split_at_sep(a: Seq<char>, b: Seq<char>, sep: char)
    ensures
        split(a + seq![sep] + b, sep) == split(a, sep) + split(b, sep),
    decreases b.len(),
{
    lemma_split_nonempty(a, sep);
    lemma_split_nonempty(b, sep);
    if b.len() == 0 {
        assert((a + seq![sep] + b).drop_last() =~= a);
        assert(split(b, sep) =~= seq![Seq::<char>::empty()]);
    } else {
        lemma_split_at_sep(a, b.drop_last(), sep);
        assert((a + seq![sep] + b).drop_last() =~= a + seq![sep] + b.drop_last());
        assert((a + seq![sep] + b).last() == b.last());
        lemma_split_nonempty(b.drop_last(), sep);
        let pa = split(a, sep);
        let pb = split(b.drop_last(), sep);
        if b.last() == sep {
            assert((pa + pb).push(Seq::<char>::empty()) =~= pa + pb.push(Seq::<char>::empty()));
        } else {
            let q = pb.last().push(b.last());
            assert((pa + pb).update((pa + pb).len() - 1, (pa + pb).last().push(b.last())) =~= pa
                + pb.update(pb.len() - 1, pb.last().push(b.last())));
        }
    }
}

/// The first position of `c` in `v`, if it occurs.
pub fn find_char(v: &[char], c: char) -> (r: Option<usize>)
    ensures
        match r {
            Some(i) => i < v@.len() && v@[i as int] == c && !v@.take(i as int).contains(c),
            None => !v@.contains(c),
        },
{
    let mut i: usize = 0;
    while i < v.len()
        invariant
            i <= v@.len(),
            forall|j: int| 0 <= j < i ==> v@[j] != c,
        decreases v@.len() - i,
    {
        if v[i] == c {
            proof {
                if v@.take(i as int).contains(c) {
                    let j = choose|j: int| 0 <= j < i && v@.take(i as int)[j] == c;
                    assert(v@[j] == c);
                }
            }
            return Some(i);
        }
        i = i + 1;
    }
    proof {
        if v@.contains(c) {
            let j = choose|j: int| 0 <= j < v@.len() && v@[j] == c;
            assert(v@[j] != c);
        }
    }
    None
}

/// The first piece of `s` cut at `sep`: what precedes its first `sep`, or
/// all of it.
pub open spec fn first_piece(s: Seq<char>, sep: char) -> Seq<char> {
    split(s, sep)[0]
}

/// The first piece ends at the first separator.
pub proof fn lemma_first_piece(s: Seq<char>, sep: char, i: int)
    requires
        0 <= i < s.len(),
        s[i] == sep,
        !s.take(i).contains(sep),
    ensures
        first_piece(s, sep) == s.take(i),
{
    assert(s =~= s.take(i) + seq![sep] + s.skip(i + 1));
    lemma_split_at_sep(s.take(i), s.skip(i + 1), sep);
    lemma_split_no_sep(s.take(i), sep);
}

/// Computes `first_piece`.
pub fn first_piece_of(v: &[char], sep: char) -> (r: Vec<char>)
    ensures
        r@ == first_piece(v@, sep),
{
    match find_char(v, sep) {
        Some(i) => {
            proof {
                lemma_first_piece(v@, sep, i as int);
            }
            slice_range(v, 0, i)
        },
        None => {
            proof {
                lemma_split_no_sep(v@, sep);
            }
            slice_range(v, 0, v.len())
        },
    }
}

/// `p` without one trailing carriage return.
pub open spec fn strip_cr(p: Seq<char>) -> Seq<char> {
    if p.len() > 0 && p.last() == '\r' {
        p.drop_last()
    } else {
        p
    }
}

/// `str::lines`: the pieces between newlines, each line that a newline ends
/// without a trailing carriage return, and no empty last line.
pub open spec fn lines(s: Seq<char>) -> Seq<Seq<char>> {
    let ps = split(s, '\n');
    let body = ps.drop_last().map_values(|p: Seq<char>| strip_cr(p));
    if ps.last().len() == 0 {
        body
    } else {
        body.push(ps.last())
    }
}

/// `p` without one trailing carriage return.
fn strip_cr_chars(p: &[char]) -> (r: Vec<char>)
    ensures
        r@ == strip_cr(p@),
{
    let n = p.len();
    if n > 0 && p[n - 1] == '\r' {
        assert(p@.subrange(0, n - 1) =~= p@.drop_last());
        slice_range(p, 0, n - 1)
    } else {
        assert(p@.subrange(0, n as int) =~= p@);
        slice_range(p, 0, n)
    }
}

/// Computes `lines`.
pub fn lines_of(v: &[char]) -> (r: Vec<Vec<char>>)
    ensures
        char_vecs(r@) == lines(v@),
{
    let ps = split_chars(v, '\n');
    let ghost pv = split(v@, '\n');
    proof {
        lemma_split_nonempty(v@, '\n');
    }
    let n = ps.len() - 1;
    let ghost body = pv.drop_last().map_values(|p: Seq<char>| strip_cr(p));
    let mut out: Vec<Vec<char>> = Vec::new();
    let mut i: usize = 0;
    while i < n
        invariant
            i <= n,
            n + 1 == ps@.len(),
            char_vecs(ps@) == pv,
            body == pv.drop_last().map_values(|p: Seq<char>| strip_cr(p)),
            char_vecs(out@) == body.take(i as int),
        decreases n - i,
    {
        assert(char_vecs(ps@)[i as int] == ps@[i as int]@);
        let line = strip_cr_chars(ps[i].as_slice());
        let ghost before = char_vecs(out@);
        out.push(line);
        assert(char_vecs(out@) =~= before.push(body[i as int]));
        i = i + 1;
        assert(char_vecs(out@) =~= body.take(i as int));
    }
    assert(body.take(n as int) =~= body);
    assert(char_vecs(ps@)[n as int] == ps@[n as int]@);
    if ps[n].len() > 0 {
        let ghost before = char_vecs(out@);
        let last = slice_range(ps[n].as_slice(), 0, ps[n].len());
        assert(last@ =~= pv.last());
        out.push(last);
        assert(char_vecs(out@) =~= before.push(pv.last()));
    }
    out
}

/// The non-empty members of `ss`, in order.
pub open spec fn nonempty_only(ss: Seq<Seq<char>>) -> Seq<Seq<char>>
    decreases ss.len(),
{
    if ss.len() == 0 {
        ss
    } else {
        let r = nonempty_only(ss.drop_last());
        if ss.last().len() > 0 {
            r.push(ss.last())
        } else {
            r
        }
    }
}

/// Every member of `nonempty_only(ss)` is a non-empty member of `ss`.
pub proof fn lemma_nonempty_only_members(ss: Seq<Seq<char>>)
    ensures
        forall|i: int|
            0 <= i < nonempty_only(ss).len() ==> (#[trigger] nonempty_only(ss)[i]).len() > 0
                && ss.contains(nonempty_only(ss)[i]),
        nonempty_only(ss).len() <= ss.len(),
    decreases ss.len(),
{
    if ss.len() > 0 {
        lemma_nonempty_only_members(ss.drop_last());
        let r = nonempty_only(ss.drop_last());
        assert forall|i: int| 0 <= i < nonempty_only(ss).len() implies (#[trigger] nonempty_only(ss)[i]).len() > 0
            && ss.contains(nonempty_only(ss)[i]) by {
            if i < r.len() {
                assert(nonempty_only(ss)[i] == r[i]);
                let x = choose|x: int| 0 <= x < ss.drop_last().len() && ss.drop_last()[x] == r[i];
                assert(ss[x] == r[i]);
            } else {
                assert(nonempty_only(ss)[i] == ss[ss.len() - 1]);
            }
        }
    }
}

/// The pieces of `s` between `sep`s, each trimmed of whitespace, the empty
/// ones dropped: `s.split(sep).map(str::trim).filter(|p| !p.is_empty())`.
pub open spec fn split_trim_nonempty(s: Seq<char>, sep: char) -> Seq<Seq<char>> {
    nonempty_only(split(s, sep).map_values(|p: Seq<char>| trim(p)))
}

/// Computes `split_trim_nonempty` as owned strings.
pub fn split_trimmed_nonempty(v: &[char], sep: char) -> (r: Vec<String>)
    ensures
        strs(r@) == split_trim_nonempty(v@, sep),
{
    let pieces = split_chars(v, sep);
    let ghost mapped = split(v@, sep).map_values(|p: Seq<char>| trim(p));
    let mut out: Vec<String> = Vec::new();
    let mut i: usize = 0;
    assert(mapped.take(0) =~= Seq::<Seq<char>>::empty());
    while i < pieces.len()
        invariant
            i <= pieces@.len(),
            char_vecs(pieces@) == split(v@, sep),
            mapped == split(v@, sep).map_values(|p: Seq<char>| trim(p)),
            strs(out@) == nonempty_only(mapped.take(i as int)),
        decreases pieces@.len() - i,
    {
        assert(char_vecs(pieces@)[i as int] == pieces@[i as int]@);
        let t = trim_chars(pieces[i].as_slice(), CharClass::Whitespace);
        assert(t@ == mapped[i as int]);
        assert(mapped.take(i + 1).drop_last() =~= mapped.take(i as int));
        assert(mapped.take(i + 1).last() == mapped[i as int]);
        if t.len() > 0 {
            let ghost before = strs(out@);
            let st = string_of(t.as_slice());
            out.push(st);
            assert(strs(out@) =~= before.push(t@));
        }
        i = i + 1;
    }
    assert(mapped.take(pieces@.len() as int) =~= mapped);
    out
}

/// `str::contains` for a pattern: `p` occurs in `s` at some position.
pub open spec fn has_substr(s: Seq<char>, p: Seq<char>) -> bool {
    exists|i: int| 0 <= i && i + p.len() <= s.len() && #[trigger] s.subrange(i, i + p.len()) == p
}

/// A pattern found in either part of a concatenation is found in the whole.
pub proof fn lemma_substr_concat(a: Seq<char>, b: Seq<char>, p: Seq<char>)
    ensures
        has_substr(a, p) ==> has_substr(a + b, p),
        has_substr(b, p) ==> has_substr(a + b, p),
{
    if has_substr(a, p) {
        let i = choose|i: int| 0 <= i && i + p.len() <= a.len() && #[trigger] a.subrange(i, i + p.len()) == p;
        assert((a + b).subrange(i, i + p.len()) =~= a.subrange(i, i + p.len()));
    }
    if has_substr(b, p) {
        let i = choose|i: int| 0 <= i && i + p.len() <= b.len() && #[trigger] b.subrange(i, i + p.len()) == p;
        assert((a + b).subrange(a.len() + i, a.len() + i + p.len()) =~= b.subrange(i, i + p.len()));
    }
}

/// A pattern is found in any text that ends with it.
pub proof fn lemma_substr_suffix(a: Seq<char>, p: Seq<char>)
    ensures
        has_substr(a + p, p),
{
    assert((a + p).subrange(a.len() as int, (a.len() + p.len()) as int) =~= p);
}

/// Trimming a text that neither begins nor ends with a character of the
/// class leaves it as it is.
pub proof fn lemma_trim_by_noop(s: Seq<char>, k: CharClass)
    requires
        s.len() > 0 ==> !in_class(s[0], k) && !in_class(s.last(), k),
    ensures
        trim_start_by(s, k) == s,
        trim_end_by(s, k) == s,
        trim_by(s, k) == s,
{
}

/// A leading character of the class is dropped, and the trim stops at a
/// character outside it.
pub proof fn lemma_trim_start_one(c: char, s: Seq<char>, k: CharClass)
    requires
        in_class(c, k),
        s.len() > 0 ==> !in_class(s[0], k),
    ensures
        trim_start_by(seq![c] + s, k) == s,
{
    assert((seq![c] + s).drop_first() =~= s);
    assert(trim_start_by(s, k) == s);
}

/// A trailing character of the class is dropped, and the trim stops at a
/// character outside it.
pub proof fn lemma_trim_end_one(s: Seq<char>, c: char, k: CharClass)
    requires
        in_class(c, k),
        s.len() > 0 ==> !in_class(s.last(), k),
    ensures
        trim_end_by(s + seq![c], k) == s,
{
    assert((s + seq![c]).drop_last() =~= s);
    assert(trim_end_by(s, k) == s);
}

/// Cutting a join at the first character of its separator gives back the
/// parts, each after the first preceded by the rest of the separator.
pub proof fn lemma_split_join(parts: Seq<Seq<char>>, sep: char, rest: Seq<char>)
    requires
        parts.len() > 0,
        forall|i: int| 0 <= i < parts.len() ==> !(#[trigger] parts[i]).contains(sep),
        !rest.contains(sep),
    ensures
        split(join(parts, seq![sep] + rest), sep) == Seq::new(
            parts.len(),
            |i: int|
                if i == 0 {
                    parts[0]
                } else {
                    rest + parts[i]
                },
        ),
    decreases parts.len(),
{
    if parts.len() == 1 {
        lemma_split_no_sep(parts[0], sep);
        assert(split(join(parts, seq![sep] + rest), sep) =~= Seq::new(
            parts.len(),
            |i: int|
                if i == 0 {
                    parts[0]
                } else {
                    rest + parts[i]
                },
        ));
    } else {
        let dl = parts.drop_last();
        assert forall|i: int| 0 <= i < dl.len() implies !(#[trigger] dl[i]).contains(sep) by {
            assert(dl[i] == parts[i]);
        }
        lemma_split_join(dl, sep, rest);
        let tail = rest + parts.last();
        assert(!tail.contains(sep)) by {
            assert(!parts[parts.len() - 1].contains(sep));
            if tail.contains(sep) {
                let x = choose|x: int| 0 <= x < tail.len() && tail[x] == sep;
                if x < rest.len() {
                    assert(rest[x] == sep);
                } else {
                    assert(parts.last()[x - rest.len()] == sep);
                }
            }
        }
        lemma_split_no_sep(tail, sep);
        assert(join(parts, seq![sep] + rest) =~= join(dl, seq![sep] + rest) + seq![sep] + tail);
        lemma_split_at_sep(join(dl, seq![sep] + rest), tail, sep);
        assert(split(join(parts, seq![sep] + rest), sep) =~= Seq::new(
            parts.len(),
            |i: int|
                if i == 0 {
                    parts[0]
                } else {
                    rest + parts[i]
                },
        ));
    }
}

/// A join of non-empty parts begins with the first character of its first
/// part and ends with the last character of its last part.
pub proof fn lemma_join_ends(parts: Seq<Seq<char>>, sep: Seq<char>)
    requires
        parts.len() > 0,
        forall|i: int| 0 <= i < parts.len() ==> (#[trigger] parts[i]).len() > 0,
    ensures
        join(parts, sep).len() > 0,
        join(parts, sep)[0] == parts[0][0],
        join(parts, sep).last() == parts.last().last(),
    decreases parts.len(),
{
    if parts.len() > 1 {
        let dl = parts.drop_last();
        assert forall|i: int| 0 <= i < dl.len() implies (#[trigger] dl[i]).len() > 0 by {
            assert(dl[i] == parts[i]);
        }
        lemma_join_ends(dl, sep);
        assert(parts[parts.len() - 1].len() > 0);
    }
}

/// Dropping empty members of a sequence without any leaves it as it is.
pub proof fn lemma_nonempty_only_all(ss: Seq<Seq<char>>)
    requires
        forall|i: int| 0 <= i < ss.len() ==> (#[trigger] ss[i]).len() > 0,
    ensures
        nonempty_only(ss) == ss,
    decreases ss.len(),
{
    if ss.len() > 0 {
        let dl = ss.drop_last();
        assert forall|i: int| 0 <= i < dl.len() implies (#[trigger] dl[i]).len() > 0 by {
            assert(dl[i] == ss[i]);
        }
        lemma_nonempty_only_all(dl);
        assert(ss[ss.len() - 1].len() > 0);
        assert(dl.push(ss.last()) =~= ss);
    }
}

/// Trimming the front of a concatenation trims the front of its first
/// part, or of the second when the first is all of the class.
pub proof fn lemma_trim_start_concat(q: Seq<char>, r: Seq<char>, k: CharClass)
    ensures
        trim_start_by(q + r, k) == if trim_start_by(q, k).len() > 0 {
            trim_start_by(q, k) + r
        } else {
            trim_start_by(r, k)
        },
    decreases q.len(),
{
    if q.len() == 0 {
        assert(q + r =~= r);
    } else if in_class(q[0], k) {
        assert((q + r).drop_first() =~= q.drop_first() + r);
        lemma_trim_start_concat(q.drop_first(), r, k);
    }
}

/// A trailing carriage return does not change what `trim` leaves.
pub proof fn lemma_trim_strip_cr(p: Seq<char>)
    ensures
        trim(strip_cr(p)) == trim(p),
{
    if p.len() > 0 && p.last() == '\r' {
        let q = p.drop_last();
        let ws = CharClass::Whitespace;
        assert(q + seq!['\r'] =~= p);
        lemma_trim_start_concat(q, seq!['\r'], ws);
        if trim_start_by(q, ws).len() > 0 {
            assert(trim_end_by(trim_start_by(q, ws) + seq!['\r'], ws) == trim_end_by(
                trim_start_by(q, ws),
                ws,
            )) by {
                assert((trim_start_by(q, ws) + seq!['\r']).drop_last() =~= trim_start_by(q, ws));
            }
        } else {
            assert(seq!['\r'].drop_first() =~= Seq::<char>::empty());
            assert(trim_start_by(seq!['\r'], ws) == trim_start_by(Seq::<char>::empty(), ws));
        }
    }
}

/// Trimming the front leaves a suffix that does not begin with a character
/// of the class.
pub proof fn lemma_trim_start_shape(s: Seq<char>, k: CharClass)
    ensures
        exists|i: int| 0 <= i <= s.len() && trim_start_by(s, k) == s.skip(i),
        trim_start_by(s, k).len() > 0 ==> !in_class(trim_start_by(s, k)[0], k),
    decreases s.len(),
{
    if s.len() > 0 && in_class(s[0], k) {
        lemma_trim_start_shape(s.drop_first(), k);
        let i = choose|i: int|
            0 <= i <= s.drop_first().len() && trim_start_by(s.drop_first(), k) == s.drop_first().skip(i);
        assert(s.drop_first().skip(i) =~= s.skip(i + 1));
    } else {
        assert(s.skip(0) =~= s);
    }
}

/// Trimming the back leaves a prefix that does not end with a character of
/// the class.
pub proof fn lemma_trim_end_shape(s: Seq<char>, k: CharClass)
    ensures
        exists|j: int| 0 <= j <= s.len() && trim_end_by(s, k) == s.take(j),
        trim_end_by(s, k).len() > 0 ==> !in_class(trim_end_by(s, k).last(), k),
    decreases s.len(),
{
    if s.len() > 0 && in_class(s.last(), k) {
        lemma_trim_end_shape(s.drop_last(), k);
        let j = choose|j: int|
            0 <= j <= s.drop_last().len() && trim_end_by(s.drop_last(), k) == s.drop_last().take(j);
        assert(s.drop_last().take(j) =~= s.take(j));
    } else {
        assert(s.take(s.len() as int) =~= s);
    }
}

/// What a trim leaves is a piece of the text, and trimming it again
/// changes nothing.
pub proof fn lemma_trim_clean(s: Seq<char>, k: CharClass)
    ensures
        trim_by(trim_by(s, k), k) == trim_by(s, k),
        forall|c: char| trim_by(s, k).contains(c) ==> s.contains(c),
{
    let x = trim_start_by(s, k);
    lemma_trim_start_shape(s, k);
    lemma_trim_end_shape(x, k);
    let i = choose|i: int| 0 <= i <= s.len() && x == s.skip(i);
    let j = choose|j: int| 0 <= j <= x.len() && trim_end_by(x, k) == x.take(j);
    let y = trim_end_by(x, k);
    if y.len() > 0 {
        assert(y[0] == x[0]);
    }
    lemma_trim_by_noop(y, k);
    assert forall|c: char| y.contains(c) implies s.contains(c) by {
        let n = choose|n: int| 0 <= n < y.len() && y[n] == c;
        assert(s[i + n] == c);
    }
}

/// The pieces that `split_trim_nonempty` keeps are non-empty, trimmed, and
/// free of the separator.
pub proof fn lemma_split_trim_nonempty_clean(s: Seq<char>, sep: char)
    ensures
        forall|i: int|
            0 <= i < split_trim_nonempty(s, sep).len() ==> {
                let p = #[trigger] split_trim_nonempty(s, sep)[i];
                &&& p.len() > 0
                &&& trim(p) == p
                &&& !p.contains(sep)
            },
{
    let pieces = split(s, sep);
    let mapped = pieces.map_values(|p: Seq<char>| trim(p));
    lemma_nonempty_only_members(mapped);
    lemma_split_pieces_lack_sep(s, sep);
    assert forall|i: int| 0 <= i < split_trim_nonempty(s, sep).len() implies {
        let p = #[trigger] split_trim_nonempty(s, sep)[i];
        &&& p.len() > 0
        &&& trim(p) == p
        &&& !p.contains(sep)
    } by {
        let p = split_trim_nonempty(s, sep)[i];
        assert(nonempty_only(mapped)[i] == p);
        let j = choose|j: int| 0 <= j < mapped.len() && mapped[j] == p;
        assert(mapped[j] == trim(pieces[j]));
        assert(!pieces[j].contains(sep));
        lemma_trim_clean(pieces[j], CharClass::Whitespace);
    }
}

/// Decides whether `p` occurs in `s` at position `i`.
fn occurs_at(s: &[char], p: &[char], i: usize) -> (r: bool)
    requires
        i + p@.len() <= s@.len(),
    ensures
        r == (s@.subrange(i as int, i + p@.len()) == p@),
{
    let n = s.len();
    let mut x: usize = 0;
    while x < p.len()
        invariant
            n == s@.len(),
            x <= p@.len(),
            i + p@.len() <= s@.len(),
            forall|y: int| 0 <= y < x ==> s@[i + y] == p@[y],
        decreases p@.len() - x,
    {
        assert(i + x < s@.len());
        if s[i + x] != p[x] {
            assert(s@.subrange(i as int, i + p@.len())[x as int] != p@[x as int]);
            return false;
        }
        x = x + 1;
    }
    assert(s@.subrange(i as int, i + p@.len()) =~= p@);
    true
}

/// Decides `has_substr`.
pub fn contains_chars(s: &[char], p: &[char]) -> (r: bool)
    ensures
        r == has_substr(s@, p@),
{
    if p.len() > s.len() {
        return false;
    }
    let last = s.len() - p.len();
    let mut i: usize = 0;
    while i < last
        invariant
            i <= last,
            last + p@.len() == s@.len(),
            forall|j: int| 0 <= j < i ==> #[trigger] s@.subrange(j, j + p@.len()) != p@,
        decreases last - i,
    {
        if occurs_at(s, p, i) {
            return true;
        }
        i = i + 1;
    }
    occurs_at(s, p, last)
}

/// Decides `has_substr` on string slices.
pub fn str_contains(s: &str, p: &str) -> (r: bool)
    ensures
        r == has_substr(s@, p@),
{
    let a = chars_of(s);
    let b = chars_of(p);
    contains_chars(a.as_slice(), b.as_slice())
}

/// Decides whether `p` is a prefix of `s`.
pub fn starts_with_chars(s: &[char], p: &[char]) -> (r: bool)
    ensures
        r == p@.is_prefix_of(s@),
{
    if p.len() > s.len() {
        return false;
    }
    let r = occurs_at(s, p, 0);
    proof {
        if r {
            assert(p@.is_prefix_of(s@)) by {
                assert forall|i: int| 0 <= i < p@.len() implies p@[i] == s@[i] by {
                    assert(s@.subrange(0, p@.len() as int)[i] == s@[i]);
                }
            }
        } else {
            if p@.is_prefix_of(s@) {
                assert(s@.subrange(0, p@.len() as int) =~= p@);
            }
        }
    }
    r
}


/// The decimal digit character for `d` (`'9'` for any `d` above 8).
pub open spec fn digit_char(d: int) -> char {
    if d == 0 {
        '0'
    } else if d == 1 {
        '1'
    } else if d == 2 {
        '2'
    } else if d == 3 {
        '3'
    } else if d == 4 {
        '4'
    } else if d == 5 {
        '5'
    } else if d == 6 {
        '6'
    } else if d == 7 {
        '7'
    } else if d == 8 {
        '8'
    } else {
        '9'
    }
}

/// The decimal representation of `n`, without leading zeros.
pub open spec fn dec(n: nat) -> Seq<char>
    decreases n,
{
    if n < 10 {
        seq![digit_char(n as int)]
    } else {
        dec(n / 10).push(digit_char((n % 10) as int))
    }
}

/// The digit character of a number below ten.
fn digit_of(d: u64) -> (c: char)
    requires
        d < 10,
    ensures
        c == digit_char(d as int),
{
    if d == 0 {
        '0'
    } else if d == 1 {
        '1'
    } else if d == 2 {
        '2'
    } else if d == 3 {
        '3'
    } else if d == 4 {
        '4'
    } else if d == 5 {
        '5'
    } else if d == 6 {
        '6'
    } else if d == 7 {
        '7'
    } else if d == 8 {
        '8'
    } else {
        '9'
    }
}

/// The characters of `dec(n)`.
pub fn dec_chars(n: u64) -> (r: Vec<char>)
    ensures
        r@ == dec(n as nat),
{
    let mut m: u64 = n;
    let mut tail: Vec<char> = Vec::new();
    while m >= 10
        invariant
            dec(n as nat) == dec(m as nat) + tail@,
        decreases m,
    {
        let c = digit_of(m % 10);
        let ghost old_tail = tail@;
        tail.insert(0, c);
        assert(dec(m as nat) == dec((m / 10) as nat).push(c));
        assert(dec((m / 10) as nat) + tail@ =~= dec((m / 10) as nat).push(c) + old_tail);
        m = m / 10;
    }
    let c = digit_of(m);
    let ghost old_tail = tail@;
    tail.insert(0, c);
    assert(tail@ =~= dec(n as nat));
    tail
}

/// The decimal representation of `n` as a string (`n.to_string()`).
pub fn dec_string(n: u64) -> (r: String)
    ensures
        r@ == dec(n as nat),
{
    let v = dec_chars(n);
    string_of(v.as_slice())
}

/// `dec` has at least one character, and only one below ten.
pub proof fn lemma_dec_len(n: nat)
    ensures
        dec(n).len() >= 1,
        n >= 10 ==> dec(n).len() >= 2,
    decreases n,
{
    if n >= 10 {
        lemma_dec_len(n / 10);
    }
}

proof fn lemma_digit_char_injective(x: int, y: int)
    requires
        0 <= x < 10,
        0 <= y < 10,
        digit_char(x) == digit_char(y),
    ensures
        x == y,
{
}

/// Distinct numbers have distinct decimal representations.
pub proof fn lemma_dec_injective(a: nat, b: nat)
    requires
        dec(a) == dec(b),
    ensures
        a == b,
    decreases a,
{
    lemma_dec_len(a);
    lemma_dec_len(b);
    if a >= 10 && b >= 10 {
        assert(dec(a).last() == digit_char((a % 10) as int));
        assert(dec(b).last() == digit_char((b % 10) as int));
        lemma_digit_char_injective((a % 10) as int, (b % 10) as int);
        assert(dec(a).drop_last() =~= dec(a / 10));
        assert(dec(b).drop_last() =~= dec(b / 10));
        lemma_dec_injective(a / 10, b / 10);
        assert(a == (a / 10) * 10 + a % 10);
        assert(b == (b / 10) * 10 + b % 10);
    } else if a < 10 && b < 10 {
        assert(dec(a) == seq![digit_char(a as int)]);
        assert(dec(b) == seq![digit_char(b as int)]);
        assert(dec(a)[0] == dec(b)[0]);
        assert(seq![digit_char(a as int)][0] == digit_char(a as int));
        assert(seq![digit_char(b as int)][0] == digit_char(b as int));
        lemma_digit_char_injective(a as int, b as int);
    }
}

/// Whether `c` is an ASCII decimal digit.
pub open spec fn is_digit(c: char) -> bool {
    48 <= (c as u32) <= 57
}

/// The value of a digit character.
pub open spec fn digit_value(c: char) -> nat {
    ((c as u32) - 48) as nat
}

/// The value of a sequence of decimal digits.
pub open spec fn digits_value(d: Seq<char>) -> nat
    decreases d.len(),
{
    if d.len() == 0 {
        0
    } else {
        digits_value(d.drop_last()) * 10 + digit_value(d.last())
    }
}

/// Whether every character of `d` is a decimal digit.
pub open spec fn all_digits(d: Seq<char>) -> bool {
    forall|i: int| 0 <= i < d.len() ==> is_digit(#[trigger] d[i])
}

/// The digits that an unsigned `str::parse` reads: all of `s`, or what
/// follows one leading `+`.
pub open spec fn unsigned_digits(s: Seq<char>) -> Seq<char> {
    if s.len() > 0 && s[0] == '+' {
        s.drop_first()
    } else {
        s
    }
}

/// What `str::parse` gives for an unsigned integer type whose largest value is
/// `max`: the value when `s` is an optional `+` and then one or more decimal
/// digits whose value is at most `max`, and no value otherwise.
pub open spec fn parse_unsigned(s: Seq<char>, max: nat) -> Option<nat> {
    let d = unsigned_digits(s);
    if d.len() > 0 && all_digits(d) && digits_value(d) <= max {
        Some(digits_value(d))
    } else {
        None
    }
}

/// A longer run of digits is worth at least as much as its prefix.
proof fn lemma_digits_value_grows(d: Seq<char>, k: int)
    requires
        0 <= k <= d.len(),
        all_digits(d),
    ensures
        digits_value(d.take(k)) <= digits_value(d),
    decreases d.len() - k,
{
    if k < d.len() {
        lemma_digits_value_grows(d, k + 1);
        assert(d.take(k + 1).drop_last() =~= d.take(k));
    } else {
        assert(d.take(k) =~= d);
    }
}

/// Parses an unsigned decimal number as `str::parse` does for a type whose
/// largest value is `max`.
pub fn parse_unsigned_chars(v: &[char], max: u64) -> (r: Option<u64>)
    ensures
        match r {
            Some(x) => parse_unsigned(v@, max as nat) == Some(x as nat),
            None => parse_unsigned(v@, max as nat) is None,
        },
{
    let start: usize = if v.len() > 0 && v[0] == '+' {
        1
    } else {
        0
    };
    let ghost d = unsigned_digits(v@);
    assert(d =~= v@.skip(start as int));
    if start >= v.len() {
        return None;
    }
    let mut acc: u64 = 0;
    let mut i: usize = start;
    assert(d.take(0) =~= Seq::<char>::empty());
    while i < v.len()
        invariant
            start <= i <= v@.len(),
            d == v@.skip(start as int),
            d == unsigned_digits(v@),
            all_digits(d.take(i - start)),
            acc as nat == digits_value(d.take(i - start)),
            acc <= max,
        decreases v@.len() - i,
    {
        let c = v[i];
        let code = c as u32;
        assert(d[i - start] == c);
        if code < 48 || code > 57 {
            assert(!is_digit(d[i - start]));
            assert(!all_digits(d));
            assert(parse_unsigned(v@, max as nat) is None);
            return None;
        }
        let wide: u128 = (acc as u128) * 10 + ((code - 48) as u128);
        assert(d.take(i - start + 1).drop_last() =~= d.take(i - start));
        assert(d.take(i - start + 1).last() == c);
        assert(wide == digits_value(d.take(i - start + 1)));
        if wide > max as u128 {
            proof {
                if all_digits(d) {
                    lemma_digits_value_grows(d, i - start + 1);
                    assert(digits_value(d) > max);
                }
                assert(parse_unsigned(v@, max as nat) is None);
            }
            return None;
        }
        acc = wide as u64;
        i = i + 1;
        assert(all_digits(d.take(i - start))) by {
            assert forall|j: int| 0 <= j < i - start implies is_digit(#[trigger] d.take(i - start)[j]) by {
                if j < i - start - 1 {
                    assert(d.take(i - start)[j] == d.take(i - start - 1)[j]);
                }
            }
        }
    }
    assert(d.take(i - start) =~= d);
    Some(acc)
}

/// The concatenation of `parts`, with `sep` between neighbours.
pub open spec fn join(parts: Seq<Seq<char>>, sep: Seq<char>) -> Seq<char>
    decreases parts.len(),
{
    if parts.len() == 0 {
        Seq::<char>::empty()
    } else if parts.len() == 1 {
        parts[0]
    } else {
        join(parts.drop_last(), sep) + sep + parts.last()
    }
}

/// A string holding the characters of `s`.
pub fn owned(s: &str) -> (r: String)
    ensures
        r@ == s@,
{
    String::from_str(s)
}

/// `a` followed by `b`.
pub fn concat(a: &str, b: &str) -> (r: String)
    ensures
        r@ == a@ + b@,
{
    let mut r = String::from_str(a);
    r.append(b);
    r
}

/// Owned copies of the given string slices.
pub fn owned_all(items: &[&str]) -> (r: Vec<String>)
    ensures
        strs(r@) == items@.map_values(|p: &str| p@),
{
    let mut r: Vec<String> = Vec::new();
    let mut i: usize = 0;
    while i < items.len()
        invariant
            i <= items@.len(),
            strs(r@) == items@.take(i as int).map_values(|p: &str| p@),
        decreases items@.len() - i,
    {
        let ghost before = strs(r@);
        let o = owned(items[i]);
        r.push(o);
        assert(strs(r@) =~= before.push(items@[i as int]@));
        i = i + 1;
        assert(strs(r@) =~= items@.take(i as int).map_values(|p: &str| p@));
    }
    assert(items@.take(items@.len() as int) =~= items@);
    r
}

/// Joins `parts` with `sep` between neighbours (`parts.join(sep)`).
pub fn join_strings(parts: &[String], sep: &str) -> (r: String)
    ensures
        r@ == join(strs(parts@), sep@),
{
    let mut r = String::new();
    let mut i: usize = 0;
    assert(strs(parts@).take(0) =~= Seq::<Seq<char>>::empty());
    while i < parts.len()
        invariant
            i <= parts@.len(),
            r@ == join(strs(parts@).take(i as int), sep@),
        decreases parts@.len() - i,
    {
        let ghost before = r@;
        assert(strs(parts@).take(i + 1).drop_last() =~= strs(parts@).take(i as int));
        if i > 0 {
            r.append(sep);
        }
        r.append(parts[i].as_str());
        proof {
            if i == 0 {
                assert(r@ =~= strs(parts@).take(1)[0]);
            } else {
                assert(r@ =~= before + sep@ + strs(parts@).take(i + 1).last());
            }
        }
        i = i + 1;
    }
    assert(strs(parts@).take(parts@.len() as int) =~= strs(parts@));
    r
}

/// Decides whether two runs of characters are equal.
pub fn chars_eq(a: &[char], b: &[char]) -> (r: bool)
    ensures
        r == (a@ == b@),
{
    if a.len() != b.len() {
        return false;
    }
    let mut i: usize = 0;
    while i < a.len()
        invariant
            i <= a@.len(),
            a@.len() == b@.len(),
            forall|j: int| 0 <= j < i ==> a@[j] == b@[j],
        decreases a@.len() - i,
    {
        if a[i] != b[i] {
            return false;
        }
        i = i + 1;
    }
    assert(a@ =~= b@);
    true
}

/// Decides whether two string slices hold the same characters.
pub fn str_eq(a: &str, b: &str) -> (r: bool)
    ensures
        r == (a@ == b@),
{
    let x = chars_of(a);
    let y = chars_of(b);
    chars_eq(x.as_slice(), y.as_slice())
}

/// Decides whether a string is empty.
pub fn is_empty_str(s: &str) -> (r: bool)
    ensures
        r == (s@.len() == 0),
{
    s.unicode_len() == 0
}

/// Decides whether `list` holds a string equal to `s`.
pub fn contains_string(list: &[String], s: &str) -> (r: bool)
    ensures
        r == strs(list@).contains(s@),
{
    let mut i: usize = 0;
    while i < list.len()
        invariant
            i <= list@.len(),
            forall|j: int| 0 <= j < i ==> strs(list@)[j] != s@,
        decreases list@.len() - i,
    {
        if str_eq(list[i].as_str(), s) {
            assert(strs(list@)[i as int] == s@);
            return true;
        }
        i = i + 1;
    }
    false
}

/// What `str::to_uppercase` gives for a string.
pub uninterp spec fn upper(s: Seq<char>) -> Seq<char>;

/// What `str::to_lowercase` gives for a string.
pub uninterp spec fn lower(s: Seq<char>) -> Seq<char>;

/// What `char::to_uppercase` yields for a character, collected.
pub uninterp spec fn char_upper(c: char) -> Seq<char>;

/// Whether every character of `s` is ASCII.
pub open spec fn all_ascii(s: Seq<char>) -> bool {
    forall|i: int| 0 <= i < s.len() ==> (#[trigger] s[i] as u32) < 128
}

/// The ASCII uppercase of a character: `a` to `z` become `A` to `Z`, any
/// other character is kept.
pub open spec fn ascii_upper_char(c: char) -> char {
    if 'a' <= c && c <= 'z' {
        ((c as u32) - 32) as char
    } else {
        c
    }
}

/// The ASCII lowercase of a character: `A` to `Z` become `a` to `z`, any
/// other character is kept.
pub open spec fn ascii_lower_char(c: char) -> char {
    if 'A' <= c && c <= 'Z' {
        ((c as u32) + 32) as char
    } else {
        c
    }
}

/// `str::to_uppercase`: the result is the function `upper` of the input,
/// and on ASCII text it is the ASCII uppercase of each character (std's
/// documentation points to it for uppercasing ASCII characters along with
/// the others); Unicode case mapping beyond ASCII is not written out here.
#[verifier::external_body]
pub(crate) fn to_upper(s: &str) -> (r: String)
    ensures
        r@ == upper(s@),
        all_ascii(s@) ==> r@ == s@.map_values(|c: char| ascii_upper_char(c)),
{
    s.to_uppercase()
}

/// `str::to_lowercase`: the result is the function `lower` of the input,
/// and on ASCII text it is the ASCII lowercase of each character; Unicode
/// case mapping beyond ASCII is not written out here.
#[verifier::external_body]
pub(crate) fn to_lower(s: &str) -> (r: String)
    ensures
        r@ == lower(s@),
        all_ascii(s@) ==> r@ == s@.map_values(|c: char| ascii_lower_char(c)),
{
    s.to_lowercase()
}

/// `char::to_uppercase`, its characters collected into a string: the result
/// is the function `char_upper` of the input, and for an ASCII character
/// the one character of its ASCII uppercase.
#[verifier::external_body]
pub(crate) fn char_to_upper(c: char) -> (r: String)
    ensures
        r@ == char_upper(c),
        (c as u32) < 128 ==> r@ == seq![ascii_upper_char(c)],
{
    c.to_uppercase().collect::<String>()
}

/// The ASCII uppercase of each character of `s`.
pub open spec fn ascii_upper(s: Seq<char>) -> Seq<char> {
    s.map_values(|c: char| ascii_upper_char(c))
}

/// ASCII uppercasing keeps a character ASCII, keeps `+` and non-`+`
/// apart, keeps whitespace and non-whitespace apart, and done twice is done
/// once.
pub proof fn lemma_ascii_upper_char(c: char)
    ensures
        (c as u32) < 128 ==> (ascii_upper_char(c) as u32) < 128,
        (ascii_upper_char(c) == '+') == (c == '+'),
        is_ws(ascii_upper_char(c)) == is_ws(c),
        ascii_upper_char(ascii_upper_char(c)) == ascii_upper_char(c),
{
    if 'a' <= c && c <= 'z' {
        let u = (c as u32) - 32;
        assert(65 <= u <= 90);
        assert((u as char) as u32 == u);
    }
}

/// The ASCII lowercase of each character of `s`.
pub open spec fn ascii_lower(s: Seq<char>) -> Seq<char> {
    s.map_values(|c: char| ascii_lower_char(c))
}

/// ASCII lowercasing keeps a character ASCII, keeps `+` and non-`+` apart,
/// keeps whitespace and non-whitespace apart, and uppercasing after it is
/// uppercasing alone.
pub proof fn lemma_ascii_lower_char(c: char)
    ensures
        (c as u32) < 128 ==> (ascii_lower_char(c) as u32) < 128,
        (ascii_lower_char(c) == '+') == (c == '+'),
        is_ws(ascii_lower_char(c)) == is_ws(c),
        ascii_upper_char(ascii_lower_char(c)) == ascii_upper_char(c),
{
    if 'A' <= c && c <= 'Z' {
        let u = (c as u32) + 32;
        assert(97 <= u <= 122);
        assert((u as char) as u32 == u);
        let v = u - 32;
        assert((v as char) as u32 == v);
        assert(v == c as u32);
    }
}

/// Every piece of ASCII text cut at a separator is ASCII.
pub proof fn lemma_split_ascii(s: Seq<char>, sep: char)
    requires
        all_ascii(s),
    ensures
        forall|i: int| 0 <= i < split(s, sep).len() ==> all_ascii(#[trigger] split(s, sep)[i]),
    decreases s.len(),
{
    if s.len() > 0 {
        assert(all_ascii(s.drop_last())) by {
            assert forall|i: int| 0 <= i < s.drop_last().len() implies (#[trigger] s.drop_last()[i] as u32) < 128 by {
                assert(s.drop_last()[i] == s[i]);
            }
        }
        lemma_split_nonempty(s.drop_last(), sep);
        lemma_split_ascii(s.drop_last(), sep);
        let prev = split(s.drop_last(), sep);
        assert((s[s.len() - 1] as u32) < 128);
        assert forall|i: int| 0 <= i < split(s, sep).len() implies all_ascii(#[trigger] split(s, sep)[i]) by {
            if i < prev.len() - 1 {
                assert(split(s, sep)[i] == prev[i]);
            } else if i == prev.len() - 1 {
                if s.last() != sep {
                    let q = prev.last().push(s.last());
                    assert(split(s, sep)[i] == q);
                    assert(all_ascii(prev[prev.len() - 1]));
                    assert forall|x: int| 0 <= x < q.len() implies (#[trigger] q[x] as u32) < 128 by {
                        if x < q.len() - 1 {
                            assert(q[x] == prev.last()[x]);
                        }
                    }
                } else {
                    assert(split(s, sep)[i] == prev[i]);
                }
            } else {
                assert(split(s, sep)[i] =~= Seq::<char>::empty());
            }
        }
    }
}

/// Joining ASCII pieces with an ASCII separator gives ASCII text.
pub proof fn lemma_join_ascii(xs: Seq<Seq<char>>, sep: Seq<char>)
    requires
        all_ascii(sep),
        forall|i: int| 0 <= i < xs.len() ==> all_ascii(#[trigger] xs[i]),
    ensures
        all_ascii(join(xs, sep)),
    decreases xs.len(),
{
    if xs.len() == 1 {
        assert(all_ascii(xs[0]));
    } else if xs.len() > 1 {
        let front = xs.drop_last();
        assert forall|i: int| 0 <= i < front.len() implies all_ascii(#[trigger] front[i]) by {
            assert(front[i] == xs[i]);
        }
        lemma_join_ascii(front, sep);
        let jf = join(front, sep);
        let l = xs.last();
        assert(all_ascii(xs[xs.len() - 1]));
        let j = jf + sep + l;
        assert forall|x: int| 0 <= x < j.len() implies (#[trigger] j[x] as u32) < 128 by {
            if x < jf.len() {
                assert(j[x] == jf[x]);
            } else if x < jf.len() + sep.len() {
                assert(j[x] == sep[x - jf.len()]);
            } else {
                assert(j[x] == l[x - jf.len() - sep.len()]);
            }
        }
    }
}

} // verus!
