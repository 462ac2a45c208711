//! Paths as strings, and the places on this machine where tmuxido keeps its
//! files.
use vstd::prelude::*;
use crate::text::{chars_of, concat, strs};

verus! {

/// `base` with the relative path `rel` appended, as `PathBuf::push` does:
/// a `/` is put between them unless `base` is empty or already ends in one.
pub open spec fn join_path(base: Seq<char>, rel: Seq<char>) -> Seq<char> {
    if base.len() == 0 || base.last() == '/' {
        base + rel
    } else {
        base + seq!['/'] + rel
    }
}

/// Appends a relative path to `base` (`Path::join` with a relative path).
pub fn join_path_str(base: &str, rel: &str) -> (r: String)
    requires
        rel@.len() == 0 || rel@[0] != '/',
    ensures
        r@ == join_path(base@, rel@),
{
    let v = chars_of(base);
    if v.len() == 0 || v[v.len() - 1] == '/' {
        concat(base, rel)
    } else {
        let a = concat(base, "/");
        proof {
            reveal_strlit("/");
        }
        concat(a.as_str(), rel)
    }
}

/// What `Path::starts_with` answers: whether the whole components of `base`
/// are the first components of `path`.
pub uninterp spec fn path_has_prefix(path: Seq<char>, base: Seq<char>) -> bool;

/// What `Path::file_name` gives, as text: the last component, unless the path
/// ends in `..` or has no normal component.
pub uninterp spec fn path_file_name(path: Seq<char>) -> Option<Seq<char>>;

/// What `Path::parent` gives, as text: the path without its last component,
/// or nothing when the path is a root or empty.
pub uninterp spec fn path_parent(path: Seq<char>) -> Option<Seq<char>>;

/// What `Path` equality answers: whether two paths have the same components.
pub uninterp spec fn path_same(a: Seq<char>, b: Seq<char>) -> bool;

/// What `Path` ordering answers: whether `a` sorts before or together
/// with `b` (components compared in turn).
pub uninterp spec fn path_le(a: Seq<char>, b: Seq<char>) -> bool;

/// Whether each path of `s` sorts before or together with the next.
pub open spec fn sorted_by_path(s: Seq<Seq<char>>) -> bool {
    forall|i: int| 0 <= i < s.len() - 1 ==> path_le(#[trigger] s[i], s[i + 1])
}

/// Whether the paths of `s` are in order under a total order consistent
/// with path equality, as std's `Ord` for `Path` is: each sorts before or
/// together with itself and every later one, sorting is transitive among
/// them, and
/// two of them are equal as paths exactly when each sorts before or
/// together with the other.
pub open spec fn ordered_paths(s: Seq<Seq<char>>) -> bool {
    &&& forall|i: int, j: int| 0 <= i <= j < s.len() ==> path_le(#[trigger] s[i], #[trigger] s[j])
    &&& forall|i: int, j: int, k: int|
        0 <= i < s.len() && 0 <= j < s.len() && 0 <= k < s.len() && path_le(#[trigger] s[i], #[trigger] s[j])
            && path_le(s[j], #[trigger] s[k]) ==> path_le(s[i], s[k])
    &&& forall|i: int, j: int|
        0 <= i < s.len() && 0 <= j < s.len() ==> (path_same(#[trigger] s[i], #[trigger] s[j]) <==> (
        path_le(s[i], s[j]) && path_le(s[j], s[i])))
}

/// `Path` equality: the answer is the function `path_same` of the two paths.
#[verifier::external_body]
pub(crate) fn same_path(a: &str, b: &str) -> (r: bool)
    ensures
        r == path_same(a@, b@),
{
    std::path::Path::new(a) == std::path::Path::new(b)
}

/// `Vec::<PathBuf>::sort` on paths given as text: the result holds the same
/// paths, each sorting before or together with the next under `path_le`,
/// and ordered as `ordered_paths` says (the laws that `Ord` and `Eq` set
/// for `Path`: a total order consistent with equality). Which of two paths
/// that sort together comes first is not stated here.
#[verifier::external_body]
pub(crate) fn sort_paths(v: &mut Vec<String>)
    ensures
        strs(final(v)@).to_multiset() == strs(old(v)@).to_multiset(),
        forall|i: int|
            0 <= i < final(v)@.len() - 1 ==> path_le(#[trigger] final(v)@[i]@, final(v)@[i + 1]@),
        ordered_paths(strs(final(v)@)),
{
    let mut p: Vec<std::path::PathBuf> = v.drain(..).map(std::path::PathBuf::from).collect();
    p.sort();
    *v = p.into_iter().map(|x| x.to_string_lossy().into_owned()).collect();
}

/// `Path::starts_with`: the answer is the function `path_has_prefix` of the
/// two paths; how paths are cut into components is not written out here.
#[verifier::external_body]
pub(crate) fn starts_with_path(path: &str, base: &str) -> (r: bool)
    ensures
        r == path_has_prefix(path@, base@),
{
    std::path::Path::new(path).starts_with(base)
}

/// `Path::file_name`, converted to text: the answer is the function
/// `path_file_name` of the path.
#[verifier::external_body]
pub(crate) fn file_name_of(path: &str) -> (r: Option<String>)
    ensures
        match r {
            Some(n) => path_file_name(path@) == Some(n@),
            None => path_file_name(path@) is None,
        },
{
    std::path::Path::new(path).file_name().map(|n| n.to_string_lossy().into_owned())
}

/// `Path::parent`, converted to text: the answer is the function
/// `path_parent` of the path.
#[verifier::external_body]
pub(crate) fn parent_of(path: &str) -> (r: Option<String>)
    ensures
        match r {
            Some(p) => path_parent(path@) == Some(p@),
            None => path_parent(path@) is None,
        },
{
    std::path::Path::new(path).parent().map(|p| p.to_string_lossy().into_owned())
}

/// `dirs::config_dir`, as text (a path that is not UTF-8 has its invalid
/// bytes replaced). Which directory it names depends on the environment
/// (`XDG_CONFIG_HOME`, `HOME`), so nothing is promised of it.
#[verifier::external_body]
pub(crate) fn config_dir() -> Option<String> {
    dirs::config_dir().map(|p| p.to_string_lossy().into_owned())
}

/// `dirs::cache_dir`, as text (a path that is not UTF-8 has its invalid
/// bytes replaced). Which directory it names depends on the environment
/// (`XDG_CACHE_HOME`, `HOME`), so nothing is promised of it.
#[verifier::external_body]
pub(crate) fn cache_dir() -> Option<String> {
    dirs::cache_dir().map(|p| p.to_string_lossy().into_owned())
}

/// `dirs::data_dir`, as text (a path that is not UTF-8 has its invalid
/// bytes replaced). Which directory it names depends on the environment
/// (`XDG_DATA_HOME`, `HOME`), so nothing is promised of it.
#[verifier::external_body]
pub(crate) fn data_dir() -> Option<String> {
    dirs::data_dir().map(|p| p.to_string_lossy().into_owned())
}

/// `dirs::home_dir`, as text (a path that is not UTF-8 has its invalid
/// bytes replaced). Which directory it names depends on the environment
/// (`HOME`, the password database), so nothing is promised of it.
#[verifier::external_body]
pub(crate) fn home_dir() -> Option<String> {
    dirs::home_dir().map(|p| p.to_string_lossy().into_owned())
}

/// Whether `shellexpand::tilde` replaces the start of `s`: `s` is `~` or
/// begins with `~/`.
pub open spec fn starts_with_home(s: Seq<char>) -> bool {
    s.len() > 0 && s[0] == '~' && (s.len() == 1 || s[1] == '/')
}

/// What `shellexpand::tilde_with_context` makes of `s` when the home
/// directory it is given is `home`: a path that is `~` or begins with `~/`
/// gets the home directory in place of the `~` when one is given, and is
/// left as it is otherwise; every other path is left as it is.
pub open spec fn tilde_expanded(s: Seq<char>, home: Option<Seq<char>>) -> Seq<char> {
    if starts_with_home(s) {
        match home {
            Some(h) => h + s.drop_first(),
            None => s,
        }
    } else {
        s
    }
}

/// The home directory that `shellexpand::tilde` uses: `dirs::home_dir`,
/// when it is known and is UTF-8 text. Which directory it names depends on
/// the environment (`HOME`, the password database), so nothing is promised
/// of it.
#[verifier::external_body]
pub(crate) fn tilde_home() -> Option<String> {
    dirs::home_dir().and_then(|p| p.into_os_string().into_string().ok())
}

/// `shellexpand::tilde_with_context` with the home directory `home`: the
/// result is `tilde_expanded` of the path and the home directory (on Unix,
/// where `\` is no separator).
#[verifier::external_body]
pub(crate) fn expand_tilde_with(s: &str, home: &Option<String>) -> (r: String)
    ensures
        r@ == tilde_expanded(
            s@,
            match home {
                Some(h) => Some(h@),
                None => None,
            },
        ),
{
    shellexpand::tilde_with_context(s, || home.as_ref()).into_owned()
}

/// The home directory that a path falls back on when none is known: the
/// empty path, as `unwrap_or_default` gives.
pub fn home_or_empty(home: Option<String>) -> (r: String)
    ensures
        r@ == match home {
            Some(h) => h@,
            None => Seq::<char>::empty(),
        },
{
    match home {
        Some(h) => h,
        None => String::new(),
    }
}

} // verus!
