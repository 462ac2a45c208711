//! Version numbers and the decisions of the self-update.
use vstd::prelude::*;
use std::cmp::Ordering;
use crate::text::{
    char_vecs, chars_of, concat, parse_unsigned, parse_unsigned_chars, split, split_chars, str_eq,
    trim_start_by, CharClass,
};

verus! {

/// The repository that releases are fetched from.
pub const REPO: &'static str = "cinco/Tmuxido";

/// The server that hosts the repository.
pub const BASE_URL: &'static str = "https://git.cincoeuzebio.com";

/// The numeric parts of a version string: its `.`-separated pieces that
/// parse as `u32`, in order (pieces that do not parse are skipped).
pub open spec fn version_parts(s: Seq<char>) -> Seq<nat> {
    split(s, '.').filter_map(|p: Seq<char>| parse_unsigned(p, 0xffff_ffff))
}

/// Compares two lists of version parts: the first differing part decides,
/// and when one list is a prefix of the other the shorter one is smaller.
/// `-1`, `0` and `1` stand for less, equal and greater.
pub open spec fn compare_parts(a: Seq<nat>, b: Seq<nat>) -> int
    decreases a.len(),
{
    if a.len() == 0 || b.len() == 0 {
        if a.len() < b.len() {
            -1
        } else if a.len() > b.len() {
            1
        } else {
            0
        }
    } else if a[0] < b[0] {
        -1
    } else if a[0] > b[0] {
        1
    } else {
        compare_parts(a.drop_first(), b.drop_first())
    }
}

/// How version `a` compares with version `b`.
pub open spec fn compare_versions(a: Seq<char>, b: Seq<char>) -> int {
    compare_parts(version_parts(a), version_parts(b))
}

/// The numeric parts of a version string, as `version_parts` says.
pub fn parse_version(s: &str) -> (r: Vec<u32>)
    ensures
        r@.map_values(|x: u32| x as nat) == version_parts(s@),
{
    let v = chars_of(s);
    let pieces = split_chars(v.as_slice(), '.');
    let ghost ps = split(s@, '.');
    let mut r: Vec<u32> = Vec::new();
    let mut i: usize = 0;
    assert(ps.take(0) =~= Seq::<Seq<char>>::empty());
    while i < pieces.len()
        invariant
            i <= pieces@.len(),
            char_vecs(pieces@) == ps,
            ps == split(s@, '.'),
            r@.map_values(|x: u32| x as nat) == ps.take(i as int).filter_map(
                |p: Seq<char>| parse_unsigned(p, 0xffff_ffff),
            ),
        decreases pieces@.len() - i,
    {
        assert(char_vecs(pieces@)[i as int] == pieces@[i as int]@);
        assert(ps.take(i + 1).drop_last() =~= ps.take(i as int));
        assert(ps.take(i + 1).last() == ps[i as int]);
        let ghost before = r@.map_values(|x: u32| x as nat);
        match parse_unsigned_chars(pieces[i].as_slice(), 0xffff_ffff) {
            Some(x) => {
                r.push(x as u32);
                assert(r@.map_values(|x: u32| x as nat) =~= before + seq![x as nat]);
            },
            None => {},
        }
        i = i + 1;
    }
    assert(ps.take(ps.len() as int) =~= ps);
    r
}

/// Compares two parsed versions, as `compare_parts` says.
fn compare_parsed(a: &[u32], b: &[u32]) -> (r: i8)
    ensures
        r as int == compare_parts(
            a@.map_values(|x: u32| x as nat),
            b@.map_values(|x: u32| x as nat),
        ),
{
    let ghost sa = a@.map_values(|x: u32| x as nat);
    let ghost sb = b@.map_values(|x: u32| x as nat);
    let mut i: usize = 0;
    assert(sa.skip(0) =~= sa);
    assert(sb.skip(0) =~= sb);
    while i < a.len() && i < b.len()
        invariant
            i <= a@.len(),
            i <= b@.len(),
            sa == a@.map_values(|x: u32| x as nat),
            sb == b@.map_values(|x: u32| x as nat),
            compare_parts(sa, sb) == compare_parts(sa.skip(i as int), sb.skip(i as int)),
        decreases a@.len() - i,
    {
        assert(sa.skip(i as int)[0] == a@[i as int] as nat);
        assert(sb.skip(i as int)[0] == b@[i as int] as nat);
        assert(sa.skip(i as int).drop_first() =~= sa.skip(i + 1));
        assert(sb.skip(i as int).drop_first() =~= sb.skip(i + 1));
        if a[i] < b[i] {
            return -1;
        }
        if a[i] > b[i] {
            return 1;
        }
        i = i + 1;
    }
    if a.len() < b.len() {
        -1
    } else if a.len() > b.len() {
        1
    } else {
        0
    }
}

/// The version of this build.
pub open spec fn this_version() -> Seq<char> {
    "0.9.1"@
}

/// The version of this build.
pub fn current_version() -> (r: &'static str)
    ensures
        r@ == this_version(),
{
    "0.9.1"
}

/// `tag` without its leading `v`s.
pub open spec fn tag_version(tag: Seq<char>) -> Seq<char> {
    trim_start_by(tag, CharClass::Only('v'))
}

/// What the self-update does about the latest release.
#[derive(Debug, Clone, Copy, PartialEq, Eq, Structural)]
pub enum UpdateDecision {
    AlreadyUpToDate,
    CurrentIsNewer,
    Install,
}

/// What the self-update does when the latest release is `latest_tag` and
/// this build is `current`.
pub open spec fn update_decision_for(current: Seq<char>, latest_tag: Seq<char>) -> UpdateDecision {
    let latest = tag_version(latest_tag);
    if latest == current {
        UpdateDecision::AlreadyUpToDate
    } else {
        let c = compare_versions(latest, current);
        if c < 0 {
            UpdateDecision::CurrentIsNewer
        } else if c == 0 {
            UpdateDecision::AlreadyUpToDate
        } else {
            UpdateDecision::Install
        }
    }
}

/// The version in a release tag: the tag without its leading `v`s.
pub fn version_of_tag(tag: &str) -> (r: String)
    ensures
        r@ == tag_version(tag@),
{
    let v = chars_of(tag);
    let i = crate::text::trim_start_index(v.as_slice(), CharClass::Only('v'));
    let rest = crate::text::slice_from(v.as_slice(), i);
    crate::text::string_of(rest.as_slice())
}

/// Decides what the self-update does when the latest release is
/// `latest_tag` and this build is `current`.
pub fn update_decision(current: &str, latest_tag: &str) -> (r: UpdateDecision)
    ensures
        r == update_decision_for(current@, latest_tag@),
{
    let latest = version_of_tag(latest_tag);
    if str_eq(latest.as_str(), current) {
        return UpdateDecision::AlreadyUpToDate;
    }
    let c = compare_version_strings(latest.as_str(), current);
    if c < 0 {
        UpdateDecision::CurrentIsNewer
    } else if c == 0 {
        UpdateDecision::AlreadyUpToDate
    } else {
        UpdateDecision::Install
    }
}

/// How version `a` compares with version `b`: `-1`, `0` or `1`.
pub fn compare_version_strings(a: &str, b: &str) -> (r: i8)
    ensures
        r as int == compare_versions(a@, b@),
{
    let pa = parse_version(a);
    let pb = parse_version(b);
    compare_parsed(pa.as_slice(), pb.as_slice())
}

/// The release asset built for a CPU architecture, if there is one.
pub open spec fn asset_for(arch: Seq<char>) -> Option<Seq<char>> {
    if arch == "x86_64"@ {
        Some("tmuxido-x86_64-linux"@)
    } else if arch == "aarch64"@ {
        Some("tmuxido-aarch64-linux"@)
    } else {
        None
    }
}

/// The release asset built for `arch` (as `std::env::consts::ARCH` names
/// it); `None` for an unsupported architecture.
pub fn asset_for_arch(arch: &str) -> (r: Option<&'static str>)
    ensures
        match r {
            Some(a) => asset_for(arch@) == Some(a@),
            None => asset_for(arch@) is None,
        },
{
    if str_eq(arch, "x86_64") {
        Some("tmuxido-x86_64-linux")
    } else if str_eq(arch, "aarch64") {
        Some("tmuxido-aarch64-linux")
    } else {
        None
    }
}

/// The API address that lists the latest release.
pub fn latest_release_url() -> (r: String)
    ensures
        r@ == BASE_URL@ + "/api/v1/repos/"@ + REPO@ + "/releases?limit=1&page=1"@,
{
    let a = concat(BASE_URL, "/api/v1/repos/");
    let b = concat(a.as_str(), REPO);
    concat(b.as_str(), "/releases?limit=1&page=1")
}

/// The download address of release asset `arch` of release `tag`.
pub fn download_url(tag: &str, arch: &str) -> (r: String)
    ensures
        r@ == BASE_URL@ + "/"@ + REPO@ + "/releases/download/"@ + tag@ + "/"@ + arch@,
{
    let a = concat(BASE_URL, "/");
    let b = concat(a.as_str(), REPO);
    let c = concat(b.as_str(), "/releases/download/");
    let d = concat(c.as_str(), tag);
    let e = concat(d.as_str(), "/");
    concat(e.as_str(), arch)
}


/// Compares two semver-like versions: their numeric parts are compared in
/// order, and a version whose parts are a prefix of the other's is smaller.
pub fn version_compare(a: &str, b: &str) -> (r: Ordering)
    ensures
        (r == Ordering::Less) == (compare_versions(a@, b@) < 0),
        (r == Ordering::Equal) == (compare_versions(a@, b@) == 0),
        (r == Ordering::Greater) == (compare_versions(a@, b@) > 0),
{
    let c = compare_version_strings(a, b);
    if c < 0 {
        Ordering::Less
    } else if c == 0 {
        Ordering::Equal
    } else {
        Ordering::Greater
    }
}

/// `compare_parts` answers `-1`, `0` or `1`.
pub proof fn lemma_compare_parts_range(a: Seq<nat>, b: Seq<nat>)
    ensures
        -1 <= compare_parts(a, b) <= 1,
    decreases a.len(),
{
    if a.len() > 0 && b.len() > 0 && a[0] == b[0] {
        lemma_compare_parts_range(a.drop_first(), b.drop_first());
    }
}

/// Every list of version parts compares equal to itself, and only to itself.
pub proof fn lemma_compare_parts_equal(a: Seq<nat>, b: Seq<nat>)
    ensures
        (compare_parts(a, b) == 0) == (a == b),
    decreases a.len(),
{
    if a.len() > 0 && b.len() > 0 {
        lemma_compare_parts_equal(a.drop_first(), b.drop_first());
        if a[0] == b[0] && a.drop_first() == b.drop_first() {
            assert(a =~= seq![a[0]] + a.drop_first());
            assert(b =~= seq![b[0]] + b.drop_first());
        }
        if a == b {
            assert(a.drop_first() == b.drop_first());
        }
    } else if a.len() == 0 && b.len() == 0 {
        assert(a =~= b);
    }
}

/// Swapping the arguments of `compare_parts` flips the answer.
pub proof fn lemma_compare_parts_antisymmetric(a: Seq<nat>, b: Seq<nat>)
    ensures
        compare_parts(a, b) == -compare_parts(b, a),
    decreases a.len(),
{
    if a.len() > 0 && b.len() > 0 && a[0] == b[0] {
        lemma_compare_parts_antisymmetric(a.drop_first(), b.drop_first());
    }
}

/// `compare_parts` orders transitively.
pub proof fn lemma_compare_parts_transitive(a: Seq<nat>, b: Seq<nat>, c: Seq<nat>)
    requires
        compare_parts(a, b) <= 0,
        compare_parts(b, c) <= 0,
    ensures
        compare_parts(a, c) <= 0,
        compare_parts(a, b) < 0 || compare_parts(b, c) < 0 ==> compare_parts(a, c) < 0,
    decreases a.len(),
{
    if a.len() > 0 && b.len() > 0 && c.len() > 0 && a[0] == b[0] && b[0] == c[0] {
        lemma_compare_parts_transitive(a.drop_first(), b.drop_first(), c.drop_first());
    }
}

/// Law: every version compares equal to itself.
pub proof fn law_version_compare_reflexive(a: Seq<char>)
    ensures
        compare_versions(a, a) == 0,
{
    lemma_compare_parts_equal(version_parts(a), version_parts(a));
}

/// Law: comparing `b` with `a` gives the opposite of comparing `a` with `b`.
pub proof fn law_version_compare_antisymmetric(a: Seq<char>, b: Seq<char>)
    ensures
        compare_versions(a, b) == -compare_versions(b, a),
{
    lemma_compare_parts_antisymmetric(version_parts(a), version_parts(b));
}

/// Law: if `a` is at most `b` and `b` at most `c`, then `a` is at most `c`,
/// and strictly below it when either step is strict.
pub proof fn law_version_compare_transitive(a: Seq<char>, b: Seq<char>, c: Seq<char>)
    requires
        compare_versions(a, b) <= 0,
        compare_versions(b, c) <= 0,
    ensures
        compare_versions(a, c) <= 0,
        compare_versions(a, b) < 0 || compare_versions(b, c) < 0 ==> compare_versions(a, c) < 0,
{
    lemma_compare_parts_transitive(version_parts(a), version_parts(b), version_parts(c));
}

/// Law: two versions compare equal exactly when their numeric parts agree.
pub proof fn law_version_compare_equal_parts(a: Seq<char>, b: Seq<char>)
    ensures
        (compare_versions(a, b) == 0) == (version_parts(a) == version_parts(b)),
{
    lemma_compare_parts_equal(version_parts(a), version_parts(b));
}

/// Law: the self-update installs a release only when it is strictly newer
/// than this build, and reports being up to date exactly when the release
/// compares equal to it.
pub proof fn law_update_only_when_newer(current: Seq<char>, latest_tag: Seq<char>)
    ensures
        (update_decision_for(current, latest_tag) == UpdateDecision::Install) == (compare_versions(
            tag_version(latest_tag),
            current,
        ) > 0),
        (update_decision_for(current, latest_tag) == UpdateDecision::AlreadyUpToDate) == (
        compare_versions(tag_version(latest_tag), current) == 0),
{
    if tag_version(latest_tag) == current {
        law_version_compare_reflexive(current);
    }
}

/// `compare_parts` is the lexicographic order of version parts: the first
/// position where both lists have a part and the parts differ decides,
/// whatever the number of parts; only when one list is a prefix of the
/// other does the number of parts decide, the shorter being older.
pub proof fn lemma_compare_parts_lexicographic(a: Seq<nat>, b: Seq<nat>, i: int)
    requires
        0 <= i <= a.len(),
        i <= b.len(),
        forall|j: int| 0 <= j < i ==> a[j] == b[j],
    ensures
        i < a.len() && i < b.len() && a[i] < b[i] ==> compare_parts(a, b) == -1,
        i < a.len() && i < b.len() && a[i] > b[i] ==> compare_parts(a, b) == 1,
        i == a.len() && i < b.len() ==> compare_parts(a, b) == -1,
        i < a.len() && i == b.len() ==> compare_parts(a, b) == 1,
        i == a.len() && i == b.len() ==> compare_parts(a, b) == 0,
    decreases i,
{
    if i > 0 {
        assert(a[0] == b[0]);
        let a1 = a.drop_first();
        let b1 = b.drop_first();
        assert forall|j: int| 0 <= j < i - 1 implies a1[j] == b1[j] by {
            assert(a1[j] == a[j + 1] && b1[j] == b[j + 1]);
        }
        lemma_compare_parts_lexicographic(a1, b1, i - 1);
        if i < a.len() {
            assert(a1[i - 1] == a[i]);
        }
        if i < b.len() {
            assert(b1[i - 1] == b[i]);
        }
    }
}

/// Law: a version is newer than another when, at the first numeric part
/// where they differ (a position both have), its part is greater, however
/// many parts either has; it is older when that part is smaller; and when
/// all the parts of one are the leading parts of the other, the one with
/// more parts is newer.
pub proof fn law_version_compare_first_difference(a: Seq<char>, b: Seq<char>, i: int)
    requires
        0 <= i <= version_parts(a).len(),
        i <= version_parts(b).len(),
        forall|j: int| 0 <= j < i ==> version_parts(a)[j] == version_parts(b)[j],
    ensures
        i < version_parts(a).len() && i < version_parts(b).len() && version_parts(a)[i]
            > version_parts(b)[i] ==> compare_versions(a, b) > 0,
        i < version_parts(a).len() && i < version_parts(b).len() && version_parts(a)[i]
            < version_parts(b)[i] ==> compare_versions(a, b) < 0,
        i == version_parts(a).len() && i < version_parts(b).len() ==> compare_versions(a, b) < 0,
        i < version_parts(a).len() && i == version_parts(b).len() ==> compare_versions(a, b) > 0,
{
    lemma_compare_parts_lexicographic(version_parts(a), version_parts(b), i);
}

/// Law: the self-update installs the latest release when its first numeric
/// part that differs from this build's is greater, even when it has fewer
/// parts (`1.0` over `0.9.9`).
pub proof fn law_update_when_first_difference_greater(current: Seq<char>, latest_tag: Seq<char>, i: int)
    requires
        0 <= i < version_parts(tag_version(latest_tag)).len(),
        i < version_parts(current).len(),
        forall|j: int| 0 <= j < i ==> version_parts(tag_version(latest_tag))[j] == version_parts(current)[j],
        version_parts(tag_version(latest_tag))[i] > version_parts(current)[i],
    ensures
        update_decision_for(current, latest_tag) == UpdateDecision::Install,
{
    law_version_compare_first_difference(tag_version(latest_tag), current, i);
    law_update_only_when_newer(current, latest_tag);
}

} // verus!
