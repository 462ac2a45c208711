//! The project cache: the projects found, when they were found, and the
//! modification times of the directories scanned, which tell what to rescan.
use vstd::prelude::*;
use crate::clock::{now_secs, seconds_between, seconds_since};
use crate::paths::{ordered_paths, path_has_prefix, path_le, path_same, same_path, sort_paths, sorted_by_path, starts_with_path};
use crate::text::{str_eq, strs};

verus! {

/// The text and value of each entry of a list of directory times.
pub open spec fn entries(v: Seq<(String, u64)>) -> Seq<(Seq<char>, u64)> {
    v.map_values(|e: (String, u64)| (e.0@, e.1))
}

/// Whether `d` is the text of a directory recorded in `dirs`.
pub open spec fn recorded_dir(dirs: Seq<(String, u64)>, d: Seq<char>) -> bool {
    exists|i: int| 0 <= i < dirs.len() && #[trigger] dirs[i].0@ == d
}

/// Every member kept by `keep_flagged` is a member of the list whose flag
/// is set.
proof fn lemma_keep_flagged_members<T>(items: Seq<T>, flags: Seq<bool>)
    requires
        flags.len() <= items.len(),
    ensures
        forall|x: T|
            #[trigger] keep_flagged(items, flags).contains(x) ==> exists|n: int|
                0 <= n < flags.len() && items[n] == x && flags[n],
    decreases flags.len(),
{
    if flags.len() > 0 {
        lemma_keep_flagged_members(items, flags.drop_last());
        let i = flags.len() - 1;
        let rest = keep_flagged(items, flags.drop_last());
        assert forall|x: T| #[trigger] keep_flagged(items, flags).contains(x) implies exists|n: int|
            0 <= n < flags.len() && items[n] == x && flags[n] by {
            let kept = keep_flagged(items, flags);
            let m = choose|m: int| 0 <= m < kept.len() && kept[m] == x;
            if flags[i] && m == rest.len() {
                assert(items[i] == x);
            } else {
                assert(kept[m] == rest[m]);
                assert(rest.contains(x));
                let n = choose|n: int| 0 <= n < flags.drop_last().len() && items[n] == x && flags.drop_last()[n];
                assert(flags[n]);
            }
        }
    }
}

/// Whether `d` is a directory recorded in `dirs` for which `dir_mtime`
/// answered a time other than the recorded one.
pub open spec fn changed_dir<M: Fn(&str) -> Option<u64>>(
    dir_mtime: M,
    dirs: Seq<(String, u64)>,
    d: Seq<char>,
) -> bool {
    exists|i: int, t: Option<u64>|
        #![trigger dirs[i], answered_for(dir_mtime, d, t)]
        0 <= i < dirs.len() && dirs[i].0@ == d && answered_for(dir_mtime, d, t) && t != Some(
            dirs[i].1,
        )
}

/// Whether two directories are one key of a table of directory times, as
/// for a `HashMap` keyed by paths: the same text, or equal as paths.
pub open spec fn same_dir(a: Seq<char>, b: Seq<char>) -> bool {
    a == b || path_same(a, b)
}

/// Whether no directory occurs twice in a list of directory times: no entry
/// is the same directory as a later one.
pub open spec fn distinct_keys(v: Seq<(Seq<char>, u64)>) -> bool {
    forall|i: int, j: int| 0 <= i < j < v.len() ==> !same_dir(#[trigger] v[i].0, #[trigger] v[j].0)
}

/// The list of directory times after recording time `t` for directory `k`,
/// as `HashMap::insert` does: the entry of the first directory that is the
/// same as `k` gets the time (and keeps its text), or a new entry is added
/// at the end.
pub open spec fn insert_entry(es: Seq<(Seq<char>, u64)>, k: Seq<char>, t: u64) -> Seq<(Seq<char>, u64)>
    decreases es.len(),
{
    if es.len() == 0 {
        seq![(k, t)]
    } else if same_dir(es[0].0, k) {
        es.update(0, (es[0].0, t))
    } else {
        seq![es[0]] + insert_entry(es.drop_first(), k, t)
    }
}

/// The list of directory times after recording each of `news` in order,
/// later ones winning (`HashMap::extend`).
pub open spec fn insert_entries(es: Seq<(Seq<char>, u64)>, news: Seq<(Seq<char>, u64)>) -> Seq<
    (Seq<char>, u64),
>
    decreases news.len(),
{
    if news.len() == 0 {
        es
    } else {
        let prev = insert_entries(es, news.drop_last());
        insert_entry(prev, news.last().0, news.last().1)
    }
}

/// Recording a directory that matches entry `i` and none before it
/// replaces the time of entry `i`.
proof fn lemma_insert_entry_at(es: Seq<(Seq<char>, u64)>, k: Seq<char>, t: u64, i: int)
    requires
        0 <= i < es.len(),
        same_dir(es[i].0, k),
        forall|j: int| 0 <= j < i ==> !same_dir(#[trigger] es[j].0, k),
    ensures
        insert_entry(es, k, t) == es.update(i, (es[i].0, t)),
    decreases es.len(),
{
    if i > 0 {
        let rest = es.drop_first();
        assert forall|j: int| 0 <= j < i - 1 implies !same_dir(#[trigger] rest[j].0, k) by {
            assert(rest[j] == es[j + 1]);
        }
        assert(!same_dir(es[0].0, k));
        lemma_insert_entry_at(rest, k, t, i - 1);
        assert(seq![es[0]] + rest.update(i - 1, (rest[i - 1].0, t)) =~= es.update(i, (es[i].0, t)));
    }
}

/// Recording a directory that matches no entry adds it at the end.
proof fn lemma_insert_entry_new(es: Seq<(Seq<char>, u64)>, k: Seq<char>, t: u64)
    requires
        forall|j: int| 0 <= j < es.len() ==> !same_dir(#[trigger] es[j].0, k),
    ensures
        insert_entry(es, k, t) == es.push((k, t)),
    decreases es.len(),
{
    if es.len() > 0 {
        let rest = es.drop_first();
        assert forall|j: int| 0 <= j < rest.len() implies !same_dir(#[trigger] rest[j].0, k) by {
            assert(rest[j] == es[j + 1]);
        }
        assert(!same_dir(es[0].0, k));
        lemma_insert_entry_new(rest, k, t);
        assert(seq![es[0]] + rest.push((k, t)) =~= es.push((k, t)));
    }
}

/// Records time `t` for directory `k`: the entry of the first directory
/// that is the same as `k` gets the time, or one is added (as
/// `HashMap::insert` does).
pub fn insert_time(v: &mut Vec<(String, u64)>, k: String, t: u64)
    requires
        distinct_keys(entries(old(v)@)),
    ensures
        distinct_keys(entries(final(v)@)),
        entries(final(v)@) == insert_entry(entries(old(v)@), k@, t),
{
    let ghost e0 = entries(v@);
    let mut i: usize = 0;
    while i < v.len()
        invariant
            i <= v@.len(),
            v@ == old(v)@,
            e0 == entries(v@),
            distinct_keys(e0),
            forall|j: int| 0 <= j < i ==> !same_dir(#[trigger] e0[j].0, k@),
        decreases v@.len() - i,
    {
        if str_eq(v[i].0.as_str(), k.as_str()) || same_path(v[i].0.as_str(), k.as_str()) {
            assert(e0[i as int].0 == v@[i as int].0@);
            proof {
                lemma_insert_entry_at(e0, k@, t, i as int);
            }
            let kept = v[i].0.clone();
            v.set(i, (kept, t));
            let ghost e1 = entries(v@);
            assert(e1 =~= e0.update(i as int, (e0[i as int].0, t)));
            assert(distinct_keys(e1)) by {
                assert forall|a: int, b: int| 0 <= a < b < e1.len() implies !same_dir(
                    #[trigger] e1[a].0,
                    #[trigger] e1[b].0,
                ) by {
                    assert(e1[a].0 == e0[a].0 && e1[b].0 == e0[b].0);
                }
            }
            return;
        }
        assert(e0[i as int].0 == v@[i as int].0@);
        i = i + 1;
    }
    proof {
        lemma_insert_entry_new(e0, k@, t);
    }
    let ghost kv = k@;
    v.push((k, t));
    let ghost e1 = entries(v@);
    assert(e1 =~= e0.push((kv, t)));
    assert(distinct_keys(e1)) by {
        assert forall|a: int, b: int| 0 <= a < b < e1.len() implies !same_dir(
            #[trigger] e1[a].0,
            #[trigger] e1[b].0,
        ) by {
            if b < e0.len() {
                assert(e1[a] == e0[a] && e1[b] == e0[b]);
            } else {
                assert(e1[a] == e0[a]);
            }
        }
    }
}

/// Records each of `new` in order (`HashMap::extend`).
pub fn extend_times(v: &mut Vec<(String, u64)>, new: Vec<(String, u64)>)
    requires
        distinct_keys(entries(old(v)@)),
    ensures
        distinct_keys(entries(final(v)@)),
        entries(final(v)@) == insert_entries(entries(old(v)@), entries(new@)),
{
    let ghost start = entries(v@);
    let ghost es = entries(new@);
    let mut i: usize = 0;
    let n = new.len();
    assert(es.take(0) =~= Seq::<(Seq<char>, u64)>::empty());
    while i < n
        invariant
            i <= n,
            n == new@.len(),
            es == entries(new@),
            distinct_keys(entries(v@)),
            entries(v@) == insert_entries(start, es.take(i as int)),
        decreases n - i,
    {
        let k = new[i].0.clone();
        let t = new[i].1;
        assert(k@ == es[i as int].0);
        assert(es.take(i + 1).drop_last() =~= es.take(i as int));
        insert_time(v, k, t);
        i = i + 1;
    }
    assert(es.take(n as int) =~= es);
}

/// The members of `s` that satisfy `p`, in order.
pub open spec fn keep_if<T>(s: Seq<T>, p: spec_fn(T) -> bool) -> Seq<T>
    decreases s.len(),
{
    if s.len() == 0 {
        s
    } else {
        let r = keep_if(s.drop_last(), p);
        if p(s.last()) {
            r.push(s.last())
        } else {
            r
        }
    }
}

/// The members `items[i]` for which `flags[i]` holds, in order.
pub open spec fn keep_flagged<T>(items: Seq<T>, flags: Seq<bool>) -> Seq<T>
    decreases flags.len(),
{
    if flags.len() == 0 {
        Seq::<T>::empty()
    } else {
        let i = flags.len() - 1;
        let rest = keep_flagged(items, flags.drop_last());
        if flags[i] {
            rest.push(items[i])
        } else {
            rest
        }
    }
}

/// Keeping only some members of a list makes it no longer, and equally long
/// only when every member is kept.
proof fn lemma_keep_flagged_len<T>(items: Seq<T>, flags: Seq<bool>)
    ensures
        keep_flagged(items, flags).len() <= flags.len(),
        (keep_flagged(items, flags).len() == flags.len()) == (forall|i: int|
            0 <= i < flags.len() ==> #[trigger] flags[i]),
    decreases flags.len(),
{
    if flags.len() > 0 {
        lemma_keep_flagged_len(items, flags.drop_last());
        if !flags[flags.len() - 1] {
            assert(!(forall|i: int| 0 <= i < flags.len() ==> #[trigger] flags[i]));
        } else {
            if forall|i: int| 0 <= i < flags.drop_last().len() ==> #[trigger] flags.drop_last()[i] {
                assert forall|i: int| 0 <= i < flags.len() implies #[trigger] flags[i] by {
                    if i < flags.len() - 1 {
                        assert(flags.drop_last()[i] == flags[i]);
                    }
                }
            } else {
                let j = choose|j: int| 0 <= j < flags.drop_last().len() && !#[trigger] flags.drop_last()[j];
                assert(!flags[j]);
            }
        }
    }
}

/// Keeping every member keeps the list as it is.
proof fn lemma_keep_flagged_all<T>(items: Seq<T>, flags: Seq<bool>)
    requires
        flags.len() <= items.len(),
        forall|i: int| 0 <= i < flags.len() ==> #[trigger] flags[i],
    ensures
        keep_flagged(items, flags) == items.take(flags.len() as int),
    decreases flags.len(),
{
    if flags.len() > 0 {
        assert forall|i: int| 0 <= i < flags.drop_last().len() implies #[trigger] flags.drop_last()[i] by {
            assert(flags.drop_last()[i] == flags[i]);
        }
        lemma_keep_flagged_all(items, flags.drop_last());
        assert(flags[flags.len() - 1]);
        assert(items.take(flags.len() - 1).push(items[flags.len() - 1]) =~= items.take(flags.len() as int));
    } else {
        assert(items.take(0) =~= Seq::<T>::empty());
    }
}

/// Whether path `p` lies outside directory `root`.
pub open spec fn outside(root: Seq<char>) -> spec_fn(Seq<char>) -> bool {
    |p: Seq<char>| !path_has_prefix(p, root)
}

/// Whether the directory of a time entry lies outside directory `root`.
pub open spec fn entry_outside(root: Seq<char>) -> spec_fn((Seq<char>, u64)) -> bool {
    |e: (Seq<char>, u64)| !path_has_prefix(e.0, root)
}


/// Keeping some members of a list without repeated directories repeats none.
proof fn lemma_keep_if_distinct(v: Seq<(Seq<char>, u64)>, p: spec_fn((Seq<char>, u64)) -> bool)
    requires
        distinct_keys(v),
    ensures
        distinct_keys(keep_if(v, p)),
        forall|x: int| 0 <= x < keep_if(v, p).len() ==> exists|j: int| 0 <= j < v.len() && #[trigger] keep_if(v, p)[x] == v[j],
    decreases v.len(),
{
    if v.len() > 0 {
        let dl = v.drop_last();
        assert forall|a: int, b: int| 0 <= a < b < dl.len() implies !same_dir(#[trigger] dl[a].0, #[trigger] dl[b].0) by {
            assert(dl[a] == v[a] && dl[b] == v[b]);
        }
        lemma_keep_if_distinct(dl, p);
        let r = keep_if(dl, p);
        let w = keep_if(v, p);
        assert forall|x: int| 0 <= x < w.len() implies exists|j: int| 0 <= j < v.len() && #[trigger] w[x] == v[j] by {
            if x < r.len() {
                let j = choose|j: int| 0 <= j < dl.len() && #[trigger] r[x] == dl[j];
                assert(w[x] == v[j]);
            } else {
                assert(w[x] == v[v.len() - 1]);
            }
        }
        assert forall|a: int, b: int| 0 <= a < b < w.len() implies !same_dir(#[trigger] w[a].0, #[trigger] w[b].0) by {
            if b < r.len() {
                assert(w[a] == r[a] && w[b] == r[b]);
            } else {
                let j = choose|j: int| 0 <= j < dl.len() && #[trigger] r[a] == dl[j];
                assert(w[a] == v[j]);
                assert(w[b] == v[v.len() - 1]);
                assert(!same_dir(v[j].0, v[v.len() - 1].0));
            }
        }
    }
}

/// Drops the paths under `root` (`retain(|p| !p.starts_with(root))`).
pub fn retain_outside(v: &mut Vec<String>, root: &str)
    ensures
        strs(final(v)@) == keep_if(strs(old(v)@), outside(root@)),
{
    let ghost s0 = strs(v@);
    let mut out: Vec<String> = Vec::new();
    let mut i: usize = 0;
    assert(s0.take(0) =~= Seq::<Seq<char>>::empty());
    while i < v.len()
        invariant
            i <= v@.len(),
            s0 == strs(v@),
            strs(out@) == keep_if(s0.take(i as int), outside(root@)),
        decreases v@.len() - i,
    {
        assert(s0.take(i + 1).drop_last() =~= s0.take(i as int));
        assert(s0.take(i + 1).last() == v@[i as int]@);
        if !starts_with_path(v[i].as_str(), root) {
            let ghost before = strs(out@);
            out.push(v[i].clone());
            assert(strs(out@) =~= before.push(v@[i as int]@));
        }
        i = i + 1;
    }
    assert(s0.take(v@.len() as int) =~= s0);
    *v = out;
}

/// Drops the time entries of directories under `root`.
pub fn retain_times_outside(v: &mut Vec<(String, u64)>, root: &str)
    requires
        distinct_keys(entries(old(v)@)),
    ensures
        distinct_keys(entries(final(v)@)),
        entries(final(v)@) == keep_if(entries(old(v)@), entry_outside(root@)),
{
    let ghost e0 = entries(v@);
    let mut out: Vec<(String, u64)> = Vec::new();
    let mut i: usize = 0;
    assert(e0.take(0) =~= Seq::<(Seq<char>, u64)>::empty());
    while i < v.len()
        invariant
            i <= v@.len(),
            e0 == entries(v@),
            distinct_keys(e0),
            entries(out@) == keep_if(e0.take(i as int), entry_outside(root@)),
            distinct_keys(entries(out@)),
            forall|x: int|
                0 <= x < out@.len() ==> exists|j: int|
                    0 <= j < i && #[trigger] entries(out@)[x] == e0[j],
        decreases v@.len() - i,
    {
        assert(e0.take(i + 1).drop_last() =~= e0.take(i as int));
        assert(e0.take(i + 1).last() == e0[i as int]);
        if !starts_with_path(v[i].0.as_str(), root) {
            let ghost before = entries(out@);
            let k = v[i].0.clone();
            let t = v[i].1;
            assert(k@ == e0[i as int].0);
            out.push((k, t));
            let ghost after = entries(out@);
            assert(after =~= before.push(e0[i as int]));
            assert forall|x: int| 0 <= x < out@.len() implies exists|j: int|
                0 <= j < i + 1 && #[trigger] entries(out@)[x] == e0[j] by {
                if x < before.len() {
                    assert(after[x] == before[x]);
                    let j = choose|j: int| 0 <= j < i && #[trigger] before[x] == e0[j];
                    assert(after[x] == e0[j]);
                } else {
                    assert(after[x] == e0[i as int]);
                }
            }
            assert(distinct_keys(after)) by {
                assert forall|a: int, b: int| 0 <= a < b < after.len() implies !same_dir(
                    #[trigger] after[a].0,
                    #[trigger] after[b].0,
                ) by {
                    if b == before.len() {
                        let j = choose|j: int| 0 <= j < i && #[trigger] before[a] == e0[j];
                        assert(!same_dir(e0[j].0, e0[i as int].0));
                        assert(after[a] == before[a]);
                    } else {
                        assert(after[a] == before[a] && after[b] == before[b]);
                    }
                }
            }
        }
        i = i + 1;
    }
    assert(e0.take(v@.len() as int) =~= e0);
    *v = out;
}


/// `s` with each path that equals (as a path) the last one kept dropped:
/// what `Vec::dedup` leaves of a list of paths.
pub open spec fn dedup_paths(s: Seq<Seq<char>>) -> Seq<Seq<char>>
    decreases s.len(),
{
    if s.len() == 0 {
        s
    } else {
        let r = dedup_paths(s.drop_last());
        if r.len() > 0 && path_same(s.last(), r.last()) {
            r
        } else {
            r.push(s.last())
        }
    }
}

/// Drops each path that equals the last one kept (`Vec::dedup`).
pub fn dedup_path_list(v: Vec<String>) -> (r: Vec<String>)
    ensures
        strs(r@) == dedup_paths(strs(v@)),
{
    let ghost s0 = strs(v@);
    let mut out: Vec<String> = Vec::new();
    let mut i: usize = 0;
    assert(s0.take(0) =~= Seq::<Seq<char>>::empty());
    while i < v.len()
        invariant
            i <= v@.len(),
            s0 == strs(v@),
            strs(out@) == dedup_paths(s0.take(i as int)),
        decreases v@.len() - i,
    {
        assert(s0.take(i + 1).drop_last() =~= s0.take(i as int));
        assert(s0.take(i + 1).last() == v@[i as int]@);
        let n = out.len();
        if n > 0 && same_path(v[i].as_str(), out[n - 1].as_str()) {
        } else {
            let ghost before = strs(out@);
            out.push(v[i].clone());
            assert(strs(out@) =~= before.push(v@[i as int]@));
        }
        i = i + 1;
    }
    assert(s0.take(v@.len() as int) =~= s0);
    out
}

/// Sorts paths and drops repeated ones, as `sort` then `dedup` do.
pub fn sort_dedup_paths(v: Vec<String>) -> (r: Vec<String>)
    ensures
        exists|sorted: Seq<Seq<char>>|
            sorted.to_multiset() == strs(v@).to_multiset() && sorted_by_path(sorted) && ordered_paths(
                sorted,
            ) && strs(r@) == dedup_paths(sorted),
{
    let mut v = v;
    sort_paths(&mut v);
    assert(sorted_by_path(strs(v@))) by {
        assert forall|i: int| 0 <= i < strs(v@).len() - 1 implies crate::paths::path_le(
            #[trigger] strs(v@)[i],
            strs(v@)[i + 1],
        ) by {
            assert(strs(v@)[i] == v@[i]@);
            assert(strs(v@)[i + 1] == v@[i + 1]@);
        }
    }
    dedup_path_list(v)
}

/// Whether directory `d` has no other directory of `dirs` among its
/// ancestors (by `Path::starts_with`).
pub open spec fn no_other_ancestor(dirs: Seq<Seq<char>>) -> spec_fn(Seq<char>) -> bool {
    |d: Seq<char>|
        !(exists|j: int|
            0 <= j < dirs.len() && !path_same(#[trigger] dirs[j], d) && path_has_prefix(d, dirs[j]))
}

/// Decides whether `d` has no other directory of `dirs` among its ancestors.
fn has_no_other_ancestor(dirs: &[String], d: &str) -> (r: bool)
    ensures
        r == no_other_ancestor(strs(dirs@))(d@),
{
    let ghost s = strs(dirs@);
    let mut j: usize = 0;
    while j < dirs.len()
        invariant
            j <= dirs@.len(),
            s == strs(dirs@),
            forall|x: int| 0 <= x < j ==> !(!path_same(#[trigger] s[x], d@) && path_has_prefix(d@, s[x])),
        decreases dirs@.len() - j,
    {
        assert(s[j as int] == dirs@[j as int]@);
        if !same_path(dirs[j].as_str(), d) && starts_with_path(d, dirs[j].as_str()) {
            return false;
        }
        j = j + 1;
    }
    true
}

/// The directories of `dirs` that have no other directory of `dirs` among
/// their ancestors, in order: rescanning them covers every changed subtree
/// once.
pub fn minimal_roots(dirs: &[String]) -> (r: Vec<String>)
    ensures
        strs(r@) == keep_if(strs(dirs@), no_other_ancestor(strs(dirs@))),
{
    let ghost s0 = strs(dirs@);
    let mut out: Vec<String> = Vec::new();
    let mut i: usize = 0;
    assert(s0.take(0) =~= Seq::<Seq<char>>::empty());
    while i < dirs.len()
        invariant
            i <= dirs@.len(),
            s0 == strs(dirs@),
            strs(out@) == keep_if(s0.take(i as int), no_other_ancestor(s0)),
        decreases dirs@.len() - i,
    {
        assert(s0.take(i + 1).drop_last() =~= s0.take(i as int));
        assert(s0.take(i + 1).last() == dirs@[i as int]@);
        if has_no_other_ancestor(dirs, dirs[i].as_str()) {
            let ghost before = strs(out@);
            out.push(dirs[i].clone());
            assert(strs(out@) =~= before.push(dirs@[i as int]@));
        }
        i = i + 1;
    }
    assert(s0.take(dirs@.len() as int) =~= s0);
    out
}


/// Whether `f` answered `r` for some argument whose text is `arg`.
pub open spec fn answered_for<R, F: Fn(&str) -> R>(f: F, arg: Seq<char>, r: R) -> bool {
    exists|p: &str| p@ == arg && #[trigger] call_ensures(f, (p,), r)
}

/// Whether `answers[i]` is what `git_exists` answered for project `i`.
pub open spec fn git_answers<G: Fn(&str) -> bool>(git_exists: G, projects: Seq<String>, answers: Seq<bool>) -> bool {
    &&& answers.len() == projects.len()
    &&& forall|i: int| 0 <= i < answers.len() ==> answered_for(git_exists, projects[i]@, #[trigger] answers[i])
}

/// Whether `current[i]` is what `dir_mtime` answered for directory `i`.
pub open spec fn mtime_answers<M: Fn(&str) -> Option<u64>>(
    dir_mtime: M,
    dirs: Seq<(String, u64)>,
    current: Seq<Option<u64>>,
) -> bool {
    &&& current.len() == dirs.len()
    &&& forall|i: int| 0 <= i < current.len() ==> answered_for(dir_mtime, dirs[i].0@, #[trigger] current[i])
}

/// The directories whose present time (`current[i]` for the `i`th) is not
/// the one recorded, in order.
pub open spec fn changed_keys(dirs: Seq<(String, u64)>, current: Seq<Option<u64>>) -> Seq<Seq<char>> {
    keep_flagged(
        entries(dirs).map_values(|e: (Seq<char>, u64)| e.0),
        Seq::new(current.len(), |i: int| current[i] != Some(dirs[i].1)),
    )
}

/// Whether each step's scan result is what `scan_fn` answered for its root.
pub open spec fn scans_answered<E, S: Fn(&str) -> Result<(Vec<String>, Vec<(String, u64)>), E>>(
    scan_fn: S,
    steps: Seq<(Seq<char>, (Vec<String>, Vec<(String, u64)>))>,
) -> bool {
    forall|i: int|
        0 <= i < steps.len() ==> answered_for(
            scan_fn,
            steps[i].0,
            Ok::<(Vec<String>, Vec<(String, u64)>), E>(#[trigger] steps[i].1),
        )
}

/// The projects and directory times after rescanning, in order, the roots
/// of `steps` with the results recorded there: each rescan drops what lay
/// under its root and adds what it found.
pub open spec fn rescanned(
    projects: Seq<Seq<char>>,
    times: Seq<(Seq<char>, u64)>,
    steps: Seq<(Seq<char>, (Vec<String>, Vec<(String, u64)>))>,
) -> (Seq<Seq<char>>, Seq<(Seq<char>, u64)>)
    decreases steps.len(),
{
    if steps.len() == 0 {
        (projects, times)
    } else {
        let prev = rescanned(projects, times, steps.drop_last());
        let root = steps.last().0;
        let found = steps.last().1;
        (
            keep_if(prev.0, outside(root)) + strs(found.0@),
            insert_entries(keep_if(prev.1, entry_outside(root)), entries(found.1@)),
        )
    }
}

/// What an incremental update with the rescans `steps` leaves, after the
/// projects were pruned to `pruned` and the directories `changed` were
/// found changed: the roots rescanned are the changed directories with no
/// other changed directory above them (none when none changed); the cache
/// changed when a project was pruned or a root rescanned; the directory
/// times are those after the rescans; and when some directory changed and
/// the cache changed, the projects after the rescans are sorted and
/// repeats dropped and the update time set to `now`, otherwise they stay
/// as pruned.
pub open spec fn update_steps<E, S: Fn(&str) -> Result<(Vec<String>, Vec<(String, u64)>), E>>(
    scan_fn: S,
    before: ProjectCache,
    after: ProjectCache,
    pruned: Seq<String>,
    changed: Seq<Seq<char>>,
    b: bool,
    steps: Seq<(Seq<char>, (Vec<String>, Vec<(String, u64)>))>,
    now: u64,
) -> bool {
    let roots = if changed.len() == 0 {
        Seq::<Seq<char>>::empty()
    } else {
        keep_if(changed, no_other_ancestor(changed))
    };
    let result = rescanned(strs(pruned), entries(before.dir_mtimes@), steps);
    let pruned_any = pruned.len() != before.projects@.len();
    &&& steps.map_values(|st: (Seq<char>, (Vec<String>, Vec<(String, u64)>))| st.0) == roots
    &&& scans_answered::<E, S>(scan_fn, steps)
    &&& b == (pruned_any || steps.len() > 0)
    &&& entries(after.dir_mtimes@) == result.1
    &&& (changed.len() > 0 && b) ==> exists|sorted: Seq<Seq<char>>|
        sorted.to_multiset() == result.0.to_multiset() && sorted_by_path(sorted) && ordered_paths(sorted)
            && after.project_list()
            == dedup_paths(sorted)
    &&& (changed.len() > 0 && b) ==> after.last_updated == now
    &&& !(changed.len() > 0 && b) ==> after.projects@ == pruned && after.dir_mtimes@
        == before.dir_mtimes@ && after.last_updated == before.last_updated
}

/// Whether some rescans explain an incremental update (see `update_steps`).
pub open spec fn update_outcome<E, S: Fn(&str) -> Result<(Vec<String>, Vec<(String, u64)>), E>>(
    scan_fn: S,
    before: ProjectCache,
    after: ProjectCache,
    pruned: Seq<String>,
    changed: Seq<Seq<char>>,
    b: bool,
    now: u64,
) -> bool {
    exists|steps: Seq<(Seq<char>, (Vec<String>, Vec<(String, u64)>))>|
        #[trigger] update_steps::<E, S>(scan_fn, before, after, pruned, changed, b, steps, now)
}

/// Whether `e` is the error of the first rescan that failed when the
/// directories `changed` were found changed: the roots to rescan before it
/// were rescanned in order with the results in `steps`, and `scan_fn`
/// answered `e` for the next one.
pub open spec fn rescan_failed<E, S: Fn(&str) -> Result<(Vec<String>, Vec<(String, u64)>), E>>(
    scan_fn: S,
    changed: Seq<Seq<char>>,
    e: E,
) -> bool {
    let roots = keep_if(changed, no_other_ancestor(changed));
    exists|steps: Seq<(Seq<char>, (Vec<String>, Vec<(String, u64)>))>|
        #[trigger] scans_answered::<E, S>(scan_fn, steps) && steps.len() < roots.len()
            && steps.map_values(|st: (Seq<char>, (Vec<String>, Vec<(String, u64)>))| st.0)
            == roots.take(steps.len() as int) && answered_for(
            scan_fn,
            roots[steps.len() as int],
            Err::<(Vec<String>, Vec<(String, u64)>), E>(e),
        )
}

/// What an incremental update (see `ProjectCache::validate_and_update`)
/// leaves when it took the cache from `before` to `after` and answered `r`,
/// given the answers of `git_exists`, `dir_mtime` and `scan_fn`, when an
/// update that changed the cache sets the update time to `now`.
pub open spec fn validated<E, G, M, S>(
    git_exists: G,
    dir_mtime: M,
    scan_fn: S,
    before: ProjectCache,
    after: ProjectCache,
    r: Result<bool, E>,
    now: u64,
) -> bool where
    G: Fn(&str) -> bool,
    M: Fn(&str) -> Option<u64>,
    S: Fn(&str) -> Result<(Vec<String>, Vec<(String, u64)>), E>,
 {
    &&& (r matches Err(e) ==> after.last_updated == before.last_updated && exists|
        current: Seq<Option<u64>>,
    |
        #[trigger] mtime_answers(dir_mtime, before.dir_mtimes@, current) && rescan_failed::<E, S>(
            scan_fn,
            changed_keys(before.dir_mtimes@, current),
            e,
        ))
    &&& (r matches Ok(false) ==> after.projects@ == before.projects@
        && after.dir_mtimes@ == before.dir_mtimes@ && after.last_updated
        == before.last_updated)
    &&& (r matches Ok(b) ==> exists|has_git: Seq<bool>|
        #[trigger] git_answers(git_exists, before.projects@, has_git) && {
            let pruned = keep_flagged(before.projects@, has_git);
            let pruned_any = pruned.len() != before.projects@.len();
            &&& before.dir_mtimes@.len() == 0 ==> {
                &&& b == pruned_any
                &&& after.projects@ == pruned
                &&& after.dir_mtimes@ == before.dir_mtimes@
                &&& after.last_updated == before.last_updated
            }
            &&& before.dir_mtimes@.len() > 0 ==> exists|current: Seq<Option<u64>>|
                #[trigger] mtime_answers(dir_mtime, before.dir_mtimes@, current)
                    && update_outcome::<E, S>(
                    scan_fn,
                    before,
                    after,
                    pruned,
                    changed_keys(before.dir_mtimes@, current),
                    b,
                    now,
                )
        })
}

/// The cached list of projects, when it was last brought up to date, and
/// the modification time (seconds) of each directory visited by the scan.
#[derive(Debug)]
pub struct ProjectCache {
    pub projects: Vec<String>,
    pub last_updated: u64,
    pub dir_mtimes: Vec<(String, u64)>,
}

impl ProjectCache {
    /// Whether no directory has two time entries (as paths, the way a
    /// `HashMap` keyed by paths holds them).
    pub open spec fn wf(&self) -> bool {
        distinct_keys(entries(self.dir_mtimes@))
    }

    /// The projects, as text.
    pub open spec fn project_list(&self) -> Seq<Seq<char>> {
        strs(self.projects@)
    }

    /// A cache of `projects` and `dir_mtimes` brought up to date at `now`.
    pub fn new_at(projects: Vec<String>, dir_mtimes: Vec<(String, u64)>, now: u64) -> (r: Self)
        ensures
            r.projects@ == projects@,
            r.dir_mtimes@ == dir_mtimes@,
            r.last_updated == now,
    {
        ProjectCache { projects, last_updated: now, dir_mtimes }
    }

    /// A cache of `projects` and `dir_mtimes` brought up to date now.
    pub fn new(projects: Vec<String>, dir_mtimes: Vec<(String, u64)>) -> (r: Self)
        ensures
            r.projects@ == projects@,
            r.dir_mtimes@ == dir_mtimes@,
    {
        Self::new_at(projects, dir_mtimes, now_secs())
    }

    /// A cache read back from storage: its projects and update time as
    /// stored, and one time per directory, a later entry for a directory
    /// replacing an earlier one.
    pub fn from_stored(projects: Vec<String>, last_updated: u64, dir_mtimes: Vec<(String, u64)>) -> (r:
        Self)
        ensures
            r.wf(),
            r.projects@ == projects@,
            r.last_updated == last_updated,
            entries(r.dir_mtimes@) == insert_entries(Seq::empty(), entries(dir_mtimes@)),
    {
        let mut times: Vec<(String, u64)> = Vec::new();
        assert(entries(times@) =~= Seq::<(Seq<char>, u64)>::empty());
        extend_times(&mut times, dir_mtimes);
        ProjectCache { projects, last_updated, dir_mtimes: times }
    }

    /// Seconds from the last update to `now` (none when the update is later).
    pub fn age_at(&self, now: u64) -> (r: u64)
        ensures
            r == seconds_since(now, self.last_updated),
    {
        seconds_between(now, self.last_updated)
    }

    /// Seconds since the last update, by the clock of this machine.
    pub fn age_in_seconds(&self) -> (r: u64)
        ensures
            exists|now: u64| r == seconds_since(now, self.last_updated),
    {
        self.age_at(now_secs())
    }

    /// Keeps the projects for which `has_git[i]` (whether the project
    /// still has a `.git`) holds; answers whether any was dropped.
    pub fn prune_missing(&mut self, has_git: &[bool]) -> (changed: bool)
        requires
            has_git@.len() == old(self).projects@.len(),
        ensures
            final(self).projects@ == keep_flagged(old(self).projects@, has_git@),
            changed == (exists|i: int| 0 <= i < has_git@.len() && !#[trigger] has_git@[i]),
            final(self).dir_mtimes@ == old(self).dir_mtimes@,
            final(self).last_updated == old(self).last_updated,
    {
        let ghost p0 = self.projects@;
        let mut kept: Vec<String> = Vec::new();
        let mut i: usize = 0;
        while i < has_git.len()
            invariant
                i <= has_git@.len(),
                has_git@.len() == p0.len(),
                self.projects@ == p0,
                kept@ == keep_flagged(p0, has_git@.take(i as int)),
            decreases has_git@.len() - i,
        {
            assert(has_git@.take(i + 1).drop_last() =~= has_git@.take(i as int));
            if has_git[i] {
                kept.push(self.projects[i].clone());
            }
            i = i + 1;
        }
        assert(has_git@.take(has_git@.len() as int) =~= has_git@);
        proof {
            lemma_keep_flagged_len(p0, has_git@);
        }
        let changed = kept.len() != has_git.len();
        self.projects = kept;
        changed
    }

    /// The directories whose time is not what the cache holds, in order, when
    /// `current[i]` is the present time of the `i`th directory (none when it
    /// cannot be read, which counts as a change).
    pub fn changed_dirs(&self, current: &[Option<u64>]) -> (r: Vec<String>)
        requires
            current@.len() == self.dir_mtimes@.len(),
        ensures
            strs(r@) == keep_flagged(
                entries(self.dir_mtimes@).map_values(|e: (Seq<char>, u64)| e.0),
                Seq::new(
                    current@.len(),
                    |i: int| current@[i] != Some(self.dir_mtimes@[i].1),
                ),
            ),
    {
        let ghost keys = entries(self.dir_mtimes@).map_values(|e: (Seq<char>, u64)| e.0);
        let ghost flags = Seq::new(
            current@.len(),
            |i: int| current@[i] != Some(self.dir_mtimes@[i].1),
        );
        let mut out: Vec<String> = Vec::new();
        let mut i: usize = 0;
        while i < current.len()
            invariant
                i <= current@.len(),
                current@.len() == self.dir_mtimes@.len(),
                keys == entries(self.dir_mtimes@).map_values(|e: (Seq<char>, u64)| e.0),
                flags == Seq::new(
                    current@.len(),
                    |i: int| current@[i] != Some(self.dir_mtimes@[i].1),
                ),
                strs(out@) == keep_flagged(keys, flags.take(i as int)),
            decreases current@.len() - i,
        {
            assert(flags.take(i + 1).drop_last() =~= flags.take(i as int));
            let stored = self.dir_mtimes[i].1;
            let differs = match current[i] {
                Some(t) => t != stored,
                None => true,
            };
            assert(differs == flags[i as int]);
            if differs {
                let ghost before = strs(out@);
                out.push(self.dir_mtimes[i].0.clone());
                assert(strs(out@) =~= before.push(keys[i as int]));
            }
            i = i + 1;
        }
        assert(flags.take(current@.len() as int) =~= flags);
        out
    }

    /// Replaces what the cache holds under `root` with what a rescan of it
    /// found: the projects under `root` are dropped and `found` appended,
    /// the times of directories under `root` are dropped and `times`
    /// recorded.
    pub fn rescan_root(&mut self, root: &str, found: Vec<String>, times: Vec<(String, u64)>)
        requires
            old(self).wf(),
        ensures
            final(self).wf(),
            final(self).project_list() == keep_if(old(self).project_list(), outside(root@)) + strs(
                found@,
            ),
            entries(final(self).dir_mtimes@) == insert_entries(
                keep_if(entries(old(self).dir_mtimes@), entry_outside(root@)),
                entries(times@),
            ),
            final(self).last_updated == old(self).last_updated,
    {
        retain_outside(&mut self.projects, root);
        let ghost kept = strs(self.projects@);
        let mut found = found;
        let ghost f = strs(found@);
        self.projects.append(&mut found);
        assert(strs(self.projects@) =~= kept + f);
        retain_times_outside(&mut self.dir_mtimes, root);
        extend_times(&mut self.dir_mtimes, times);
    }

    /// Brings the cache up to date without a full rescan: drops the projects
    /// that `git_exists` says lost their `.git`; then, unless the cache holds
    /// no directory times (an older format, for which the caller rescans
    /// everything), finds the directories whose time `dir_mtime` reports
    /// changed, rescans with `scan_fn` each of them that has no other
    /// changed directory above it, and, when anything changed, puts the
    /// project list in order and sets the update time to the time of this
    /// machine. Answers whether the cache changed; a scan error is passed
    /// on. See `validate_and_update_at`.
    pub fn validate_and_update<E, G, M, S>(
        &mut self,
        git_exists: &G,
        dir_mtime: &M,
        scan_fn: &S,
    ) -> (r: Result<bool, E>) where
        G: Fn(&str) -> bool,
        M: Fn(&str) -> Option<u64>,
        S: Fn(&str) -> Result<(Vec<String>, Vec<(String, u64)>), E>,

        requires
            old(self).wf(),
            forall|p: &str| old(self).project_list().contains(p@) ==> call_requires(*git_exists, (p,)),
            forall|p: &str| recorded_dir(old(self).dir_mtimes@, p@) ==> call_requires(*dir_mtime, (p,)),
            forall|p: &str| changed_dir(*dir_mtime, old(self).dir_mtimes@, p@) ==> call_requires(*scan_fn, (p,)),
        ensures
            final(self).wf(),
            exists|now: u64|
                #[trigger] validated::<E, G, M, S>(
                    *git_exists,
                    *dir_mtime,
                    *scan_fn,
                    *old(self),
                    *final(self),
                    r,
                    now,
                ),
    {
        let now = now_secs();
        self.validate_and_update_at(now, git_exists, dir_mtime, scan_fn)
    }

    /// `validate_and_update` at time `now`: when the cache changed because
    /// some directory changed, the update time becomes `now`. Only the
    /// cached projects are asked about, only recorded directories have their
    /// time read, and only recorded directories whose time `dir_mtime`
    /// reported changed are rescanned: there is no full rescan (and none of
    /// this when the cache holds no directory times).
    pub fn validate_and_update_at<E, G, M, S>(
        &mut self,
        now: u64,
        git_exists: &G,
        dir_mtime: &M,
        scan_fn: &S,
    ) -> (r: Result<bool, E>) where
        G: Fn(&str) -> bool,
        M: Fn(&str) -> Option<u64>,
        S: Fn(&str) -> Result<(Vec<String>, Vec<(String, u64)>), E>,

        requires
            old(self).wf(),
            forall|p: &str| old(self).project_list().contains(p@) ==> call_requires(*git_exists, (p,)),
            forall|p: &str| recorded_dir(old(self).dir_mtimes@, p@) ==> call_requires(*dir_mtime, (p,)),
            forall|p: &str| changed_dir(*dir_mtime, old(self).dir_mtimes@, p@) ==> call_requires(*scan_fn, (p,)),
        ensures
            final(self).wf(),
            validated::<E, G, M, S>(*git_exists, *dir_mtime, *scan_fn, *old(self), *final(self), r, now),
    {
        let ghost p0 = self.projects@;
        let mut has_git: Vec<bool> = Vec::new();
        let mut i: usize = 0;
        while i < self.projects.len()
            invariant
                i <= self.projects@.len(),
                has_git@.len() == i,
                forall|p: &str| old(self).project_list().contains(p@) ==> call_requires(*git_exists, (p,)),
                forall|x: int| 0 <= x < i ==> answered_for(*git_exists, self.projects@[x]@, #[trigger] has_git@[x]),
                self.projects@ == old(self).projects@,
                self.dir_mtimes@ == old(self).dir_mtimes@,
                self.last_updated == old(self).last_updated,
                self.wf(),
            decreases self.projects@.len() - i,
        {
            let p = self.projects[i].as_str();
            assert(old(self).project_list()[i as int] == p@);
            assert(old(self).project_list().contains(p@));
            let a = git_exists(p);
            has_git.push(a);
            proof {
                assert(answered_for(*git_exists, self.projects@[i as int]@, a));
                assert forall|x: int| 0 <= x < i + 1 implies answered_for(*git_exists, self.projects@[x]@, #[trigger] has_git@[x]) by {
                    if x < i {
                    }
                }
            }
            i = i + 1;
        }
        assert(git_answers(*git_exists, old(self).projects@, has_git@));
        let changed = self.prune_missing(has_git.as_slice());
        proof {
            lemma_keep_flagged_len(p0, has_git@);
            if !changed {
                lemma_keep_flagged_all(p0, has_git@);
                assert(p0.take(p0.len() as int) =~= p0);
            }
        }
        let ghost pruned = self.projects@;
        let ghost hg = has_git@;
        if self.dir_mtimes.len() == 0 {
            return Ok(changed);
        }
        let mut current: Vec<Option<u64>> = Vec::new();
        let mut j: usize = 0;
        while j < self.dir_mtimes.len()
            invariant
                j <= self.dir_mtimes@.len(),
                current@.len() == j,
                forall|p: &str| recorded_dir(old(self).dir_mtimes@, p@) ==> call_requires(*dir_mtime, (p,)),
                forall|x: int| 0 <= x < j ==> answered_for(*dir_mtime, self.dir_mtimes@[x].0@, #[trigger] current@[x]),
                self.projects@ == pruned,
                self.dir_mtimes@ == old(self).dir_mtimes@,
                self.last_updated == old(self).last_updated,
                self.wf(),
            decreases self.dir_mtimes@.len() - j,
        {
            let d = self.dir_mtimes[j].0.as_str();
            assert(old(self).dir_mtimes@[j as int].0@ == d@);
            assert(recorded_dir(old(self).dir_mtimes@, d@));
            let t = dir_mtime(d);
            current.push(t);
            proof {
                assert(answered_for(*dir_mtime, self.dir_mtimes@[j as int].0@, t));
                assert forall|x: int| 0 <= x < j + 1 implies answered_for(*dir_mtime, self.dir_mtimes@[x].0@, #[trigger] current@[x]) by {
                    if x < j {
                    }
                }
            }
            j = j + 1;
        }
        assert(mtime_answers(*dir_mtime, old(self).dir_mtimes@, current@));
        let dirs = self.changed_dirs(current.as_slice());
        let ghost ch = changed_keys(old(self).dir_mtimes@, current@);
        assert(strs(dirs@) == ch);
        if dirs.len() == 0 {
            proof {
                let steps = Seq::<(Seq<char>, (Vec<String>, Vec<(String, u64)>))>::empty();
                assert(steps.map_values(|st: (Seq<char>, (Vec<String>, Vec<(String, u64)>))| st.0) =~= Seq::<Seq<char>>::empty());
                assert(update_steps::<E, S>(*scan_fn, *old(self), *self, pruned, ch, changed, steps, now));
            }
            return Ok(changed);
        }
        let roots = minimal_roots(dirs.as_slice());
        let ghost rs = keep_if(ch, no_other_ancestor(ch));
        assert(strs(roots@) == rs);
        proof {
            let keys = entries(old(self).dir_mtimes@).map_values(|e: (Seq<char>, u64)| e.0);
            let flags = Seq::new(current@.len(), |i: int| current@[i] != Some(old(self).dir_mtimes@[i].1));
            assert(ch == keep_flagged(keys, flags));
            lemma_keep_flagged_members(keys, flags);
            lemma_keep_if_members(ch, no_other_ancestor(ch));
            assert forall|x: int| 0 <= x < roots@.len() implies changed_dir(*dir_mtime, old(self).dir_mtimes@, #[trigger] strs(roots@)[x]) by {
                let r = strs(roots@)[x];
                assert(rs.contains(r));
                assert(ch.contains(r));
                let n = choose|n: int| 0 <= n < flags.len() && keys[n] == r && flags[n];
                assert(old(self).dir_mtimes@[n].0@ == r);
                assert(answered_for(*dir_mtime, old(self).dir_mtimes@[n].0@, current@[n]));
                assert(current@[n] != Some(old(self).dir_mtimes@[n].1));
            }
        }
        let ghost mid = *self;
        let ghost first = changed;
        let ghost mut steps: Seq<(Seq<char>, (Vec<String>, Vec<(String, u64)>))> = Seq::empty();
        let mut changed = changed;
        let mut k: usize = 0;
        assert(entries(self.dir_mtimes@) == entries(old(self).dir_mtimes@));
        while k < roots.len()
            invariant
                k <= roots@.len(),
                self.wf(),
                forall|p: &str| changed_dir(*dir_mtime, old(self).dir_mtimes@, p@) ==> call_requires(*scan_fn, (p,)),
                forall|x: int| 0 <= x < roots@.len() ==> changed_dir(*dir_mtime, old(self).dir_mtimes@, #[trigger] strs(roots@)[x]),
                steps.len() == k,
                steps.map_values(|st: (Seq<char>, (Vec<String>, Vec<(String, u64)>))| st.0) == strs(roots@).take(k as int),
                scans_answered::<E, S>(*scan_fn, steps),
                self.project_list() == rescanned(strs(pruned), entries(old(self).dir_mtimes@), steps).0,
                entries(self.dir_mtimes@) == rescanned(strs(pruned), entries(old(self).dir_mtimes@), steps).1,
                changed == (first || k > 0),
                !changed ==> self.projects@ == mid.projects@ && self.dir_mtimes@
                    == mid.dir_mtimes@ && self.last_updated == mid.last_updated,
                mid.projects@ == pruned,
                mid.dir_mtimes@ == old(self).dir_mtimes@,
                mid.last_updated == old(self).last_updated,
                self.last_updated == old(self).last_updated,
                mtime_answers(*dir_mtime, old(self).dir_mtimes@, current@),
                ch == changed_keys(old(self).dir_mtimes@, current@),
                strs(roots@) == keep_if(ch, no_other_ancestor(ch)),
            decreases roots@.len() - k,
        {
            let root = roots[k].as_str();
            assert(strs(roots@)[k as int] == root@);
            assert(changed_dir(*dir_mtime, old(self).dir_mtimes@, root@));
            let scanned = scan_fn(root);
            let (found, times) = match scanned {
                Ok(s) => {
                    proof {
                        let ghost before = steps;
                        assert(answered_for(*scan_fn, root@, Ok::<(Vec<String>, Vec<(String, u64)>), E>(s)));
                        steps = steps.push((root@, s));
                        assert(steps.drop_last() =~= before);
                        assert forall|x: int| 0 <= x < steps.len() implies answered_for(*scan_fn, steps[x].0, Ok::<(Vec<String>, Vec<(String, u64)>), E>(#[trigger] steps[x].1)) by {
                            if x < before.len() {
                                assert(steps[x] == before[x]);
                            }
                        }
                        assert(steps.map_values(|st: (Seq<char>, (Vec<String>, Vec<(String, u64)>))| st.0) =~= strs(roots@).take(k + 1)) by {
                            assert(before.map_values(|st: (Seq<char>, (Vec<String>, Vec<(String, u64)>))| st.0) == strs(roots@).take(k as int));
                            assert forall|x: int| 0 <= x < k implies steps[x].0 == strs(roots@).take(k as int)[x] by {
                                assert(steps[x] == before[x]);
                                assert(before.map_values(|st: (Seq<char>, (Vec<String>, Vec<(String, u64)>))| st.0)[x] == before[x].0);
                            }
                        }
                    }
                    s
                },
                Err(e) => {
                    proof {
                        assert(call_ensures(*scan_fn, (root,), Err::<(Vec<String>, Vec<(String, u64)>), E>(e)));
                        assert(strs(roots@)[k as int] == root@);
                        assert(answered_for(*scan_fn, strs(roots@)[k as int], Err::<(Vec<String>, Vec<(String, u64)>), E>(e)));
                        assert(steps.len() == k);
                        assert(rescan_failed::<E, S>(*scan_fn, ch, e));
                    }
                    return Err(e);
                },
            };
            self.rescan_root(root, found, times);
            changed = true;
            k = k + 1;
        }
        assert(strs(roots@).take(roots@.len() as int) =~= rs);
        if changed {
            self.finish_update(now);
        }
        proof {
            assert(update_steps::<E, S>(*scan_fn, *old(self), *self, pruned, ch, changed, steps, now));
        }
        Ok(changed)
    }

    /// Brings the project list into order after a change: sorted as paths,
    /// repeated paths dropped, and the update time set to `now`.
    pub fn finish_update(&mut self, now: u64)
        ensures
            exists|sorted: Seq<Seq<char>>|
                sorted.to_multiset() == old(self).project_list().to_multiset() && sorted_by_path(
                    sorted,
                ) && ordered_paths(sorted) && final(self).project_list() == dedup_paths(sorted),
            final(self).last_updated == now,
            final(self).dir_mtimes@ == old(self).dir_mtimes@,
    {
        let mut projects: Vec<String> = Vec::new();
        std::mem::swap(&mut projects, &mut self.projects);
        self.projects = sort_dedup_paths(projects);
        self.last_updated = now;
    }
}


/// The cache file inside the cache directory `dir`.
pub open spec fn cache_file_in(dir: Seq<char>) -> Seq<char> {
    crate::paths::join_path(crate::paths::join_path(dir, "tmuxido"@), "projects.json"@)
}

/// The directory of the cache files inside the cache directory `dir`.
pub open spec fn cache_folder_in(dir: Seq<char>) -> Seq<char> {
    crate::paths::join_path(dir, "tmuxido"@)
}

/// The folder of tmuxido's cache files and the project cache file, for a
/// cache directory, if one is known.
pub fn cache_path_from(dir: Option<String>) -> (r: Result<(String, String), crate::config::DirError>)
    ensures
        match dir {
            Some(d) => r matches Ok(p) && p.0@ == cache_folder_in(d@) && p.1@ == cache_file_in(d@),
            None => r == Err::<(String, String), crate::config::DirError>(
                crate::config::DirError::NoCacheDir,
            ),
        },
{
    match dir {
        Some(d) => {
            proof {
                reveal_strlit("tmuxido");
                reveal_strlit("projects.json");
            }
            let folder = crate::paths::join_path_str(d.as_str(), "tmuxido");
            let file = crate::paths::join_path_str(folder.as_str(), "projects.json");
            Ok((folder, file))
        },
        None => Err(crate::config::DirError::NoCacheDir),
    }
}

impl ProjectCache {
    /// The folder of tmuxido's cache files and the project cache file, in
    /// the cache directory of this machine (the caller creates the folder).
    pub fn cache_path() -> (r: Result<(String, String), crate::config::DirError>)
        ensures
            r matches Ok(p) ==> exists|d: Seq<char>|
                p.0@ == cache_folder_in(d) && p.1@ == cache_file_in(d),
            r matches Err(e) ==> e == crate::config::DirError::NoCacheDir,
    {
        cache_path_from(crate::paths::cache_dir())
    }
}


/// What `keep_if` keeps satisfies the test and comes from the list, and
/// every member of the list that satisfies the test is kept.
pub proof fn lemma_keep_if_members<T>(s: Seq<T>, p: spec_fn(T) -> bool)
    ensures
        forall|x: T| #[trigger] keep_if(s, p).contains(x) <==> s.contains(x) && p(x),
    decreases s.len(),
{
    if s.len() > 0 {
        let dl = s.drop_last();
        lemma_keep_if_members(dl, p);
        assert forall|x: T| #[trigger] keep_if(s, p).contains(x) <==> s.contains(x) && p(x) by {
            let r = keep_if(dl, p);
            if keep_if(s, p).contains(x) {
                let n = choose|n: int| 0 <= n < keep_if(s, p).len() && keep_if(s, p)[n] == x;
                if n < r.len() {
                    assert(r[n] == x);
                    assert(r.contains(x));
                    let m = choose|m: int| 0 <= m < dl.len() && dl[m] == x;
                    assert(s[m] == x);
                } else {
                    assert(s[s.len() - 1] == x);
                }
            }
            if s.contains(x) && p(x) {
                let m = choose|m: int| 0 <= m < s.len() && s[m] == x;
                if m < s.len() - 1 {
                    assert(dl[m] == x);
                    assert(r.contains(x));
                    let n = choose|n: int| 0 <= n < r.len() && r[n] == x;
                    assert(keep_if(s, p)[n] == x);
                } else {
                    assert(keep_if(s, p).last() == x);
                }
            }
        }
    }
}

/// The roots that an incremental update rescans are changed directories,
/// none lies under another changed directory, and every changed directory
/// with no other changed directory above it is rescanned.
pub proof fn law_minimal_roots(dirs: Seq<Seq<char>>)
    ensures
        forall|d: Seq<char>|
            #[trigger] keep_if(dirs, no_other_ancestor(dirs)).contains(d) <==> {
                &&& dirs.contains(d)
                &&& forall|j: int|
                    0 <= j < dirs.len() && path_has_prefix(d, #[trigger] dirs[j]) ==> path_same(
                        dirs[j],
                        d,
                    )
            },
{
    lemma_keep_if_members(dirs, no_other_ancestor(dirs));
}

/// After an update the project list holds no path right after the same
/// path: `dedup_paths` drops each repeat of the path kept before it.
pub proof fn law_dedup_no_repeats(s: Seq<Seq<char>>)
    ensures
        forall|i: int|
            0 <= i < dedup_paths(s).len() - 1 ==> !path_same(
                #[trigger] dedup_paths(s)[i + 1],
                dedup_paths(s)[i],
            ),
    decreases s.len(),
{
    if s.len() > 0 {
        law_dedup_no_repeats(s.drop_last());
        let r = dedup_paths(s.drop_last());
        assert forall|i: int| 0 <= i < dedup_paths(s).len() - 1 implies !path_same(
            #[trigger] dedup_paths(s)[i + 1],
            dedup_paths(s)[i],
        ) by {
            if i + 1 < r.len() {
                assert(dedup_paths(s)[i + 1] == r[i + 1]);
                assert(dedup_paths(s)[i] == r[i]);
            } else {
                assert(dedup_paths(s)[i] == r.last());
            }
        }
    }
}


/// What `dedup_paths` keeps of ordered paths: paths of the list, the last
/// one equal (as a path) to the last of the list, and no two equal.
proof fn lemma_dedup_ordered(s: Seq<Seq<char>>)
    requires
        ordered_paths(s),
    ensures
        forall|i: int| 0 <= i < dedup_paths(s).len() ==> s.contains(#[trigger] dedup_paths(s)[i]),
        s.len() > 0 ==> dedup_paths(s).len() > 0 && path_same(s.last(), dedup_paths(s).last()),
        forall|i: int, j: int|
            0 <= i < j < dedup_paths(s).len() ==> !path_same(
                #[trigger] dedup_paths(s)[i],
                #[trigger] dedup_paths(s)[j],
            ),
    decreases s.len(),
{
    if s.len() == 0 {
        return;
    }
    let sp = s.drop_last();
    assert(ordered_paths(sp)) by {
        assert forall|i: int, j: int| 0 <= i <= j < sp.len() implies path_le(#[trigger] sp[i], #[trigger] sp[j]) by {
            assert(sp[i] == s[i] && sp[j] == s[j]);
        }
        assert forall|i: int, j: int, k: int|
            0 <= i < sp.len() && 0 <= j < sp.len() && 0 <= k < sp.len() && path_le(#[trigger] sp[i], #[trigger] sp[j])
                && path_le(sp[j], #[trigger] sp[k]) implies path_le(sp[i], sp[k]) by {
            assert(sp[i] == s[i] && sp[j] == s[j] && sp[k] == s[k]);
        }
        assert forall|i: int, j: int| 0 <= i < sp.len() && 0 <= j < sp.len() implies (path_same(
            #[trigger] sp[i],
            #[trigger] sp[j],
        ) <==> (path_le(sp[i], sp[j]) && path_le(sp[j], sp[i]))) by {
            assert(sp[i] == s[i] && sp[j] == s[j]);
        }
    }
    lemma_dedup_ordered(sp);
    let rp = dedup_paths(sp);
    let r = dedup_paths(s);
    let m = s.len() - 1;
    let x = s.last();
    assert(s[m] == x);
    assert(path_le(s[m], s[m]));
    assert forall|i: int| 0 <= i < rp.len() implies s.contains(#[trigger] rp[i]) by {
        let a = choose|a: int| 0 <= a < sp.len() && sp[a] == rp[i];
        assert(s[a] == rp[i]);
    }
    if rp.len() > 0 && path_same(x, rp.last()) {
        assert(r == rp);
    } else {
        assert(r == rp.push(x));
        assert(path_same(s[m], s[m]));
        assert forall|i: int, j: int| 0 <= i < j < r.len() implies !path_same(
            #[trigger] r[i],
            #[trigger] r[j],
        ) by {
            if j < rp.len() {
                assert(r[i] == rp[i] && r[j] == rp[j]);
            } else {
                assert(r[j] == x);
                assert(r[i] == rp[i]);
                assert(s.contains(rp[i]));
                let a = choose|a: int| 0 <= a < s.len() && s[a] == rp[i];
                assert(s.contains(rp.last()));
                let c = choose|c: int| 0 <= c < s.len() && s[c] == rp.last();
                assert(sp.len() > 0);
                let q = m - 1;
                assert(s[q] == sp.last());
                assert(a <= q) by {
                    let a2 = choose|a2: int| 0 <= a2 < sp.len() && sp[a2] == rp[i];
                    assert(s[a2] == rp[i]);
                    if a > q {
                        assert(a == m);
                    }
                }
                if path_same(s[a], s[m]) {
                    assert(path_le(s[m], s[a]));
                    assert(path_le(s[a], s[q]));
                    assert(path_le(s[q], s[m]));
                    assert(path_same(s[q], s[c]));
                    assert(path_le(s[q], s[c]));
                    assert(path_le(s[m], s[q]));
                    assert(path_le(s[m], s[c]));
                    assert(path_le(s[c], s[m]));
                    assert(path_same(s[m], s[c]));
                }
            }
        }
    }
}

/// Ordered paths keep no two equal paths once repeats are dropped: after
/// an update the project list holds each path once.
pub proof fn law_dedup_ordered_distinct(s: Seq<Seq<char>>)
    requires
        ordered_paths(s),
    ensures
        forall|i: int, j: int|
            0 <= i < j < dedup_paths(s).len() ==> !path_same(
                #[trigger] dedup_paths(s)[i],
                #[trigger] dedup_paths(s)[j],
            ),
{
    lemma_dedup_ordered(s);
}

/// After an incremental update that changed the cache because some
/// directory changed, no project is listed twice.
pub proof fn law_update_lists_each_project_once<E, S: Fn(&str) -> Result<(Vec<String>, Vec<(String, u64)>), E>>(
    scan_fn: S,
    before: ProjectCache,
    after: ProjectCache,
    pruned: Seq<String>,
    changed: Seq<Seq<char>>,
    b: bool,
    steps: Seq<(Seq<char>, (Vec<String>, Vec<(String, u64)>))>,
    now: u64,
)
    requires
        update_steps::<E, S>(scan_fn, before, after, pruned, changed, b, steps, now),
        changed.len() > 0,
        b,
    ensures
        forall|i: int, j: int|
            0 <= i < j < after.project_list().len() ==> !path_same(
                #[trigger] after.project_list()[i],
                #[trigger] after.project_list()[j],
            ),
{
    let result = rescanned(strs(pruned), entries(before.dir_mtimes@), steps);
    let sorted = choose|sorted: Seq<Seq<char>>|
        sorted.to_multiset() == result.0.to_multiset() && sorted_by_path(sorted) && ordered_paths(sorted)
            && after.project_list() == dedup_paths(sorted);
    law_dedup_ordered_distinct(sorted);
}

/// An incremental update rescans only directories whose time changed, and
/// none of them lies under another changed directory; when no directory
/// changed, nothing is rescanned.
pub proof fn law_update_rescans_only_changed<E, S: Fn(&str) -> Result<(Vec<String>, Vec<(String, u64)>), E>>(
    scan_fn: S,
    before: ProjectCache,
    after: ProjectCache,
    pruned: Seq<String>,
    changed: Seq<Seq<char>>,
    b: bool,
    steps: Seq<(Seq<char>, (Vec<String>, Vec<(String, u64)>))>,
    now: u64,
)
    requires
        update_steps::<E, S>(scan_fn, before, after, pruned, changed, b, steps, now),
    ensures
        changed.len() == 0 ==> steps.len() == 0,
        forall|k: int|
            0 <= k < steps.len() ==> changed.contains(#[trigger] steps[k].0) && forall|j: int|
                0 <= j < changed.len() && path_has_prefix(steps[k].0, #[trigger] changed[j])
                    ==> path_same(changed[j], steps[k].0),
{
    let roots = steps.map_values(|st: (Seq<char>, (Vec<String>, Vec<(String, u64)>))| st.0);
    if changed.len() > 0 {
        law_minimal_roots(changed);
        assert forall|k: int| 0 <= k < steps.len() implies changed.contains(#[trigger] steps[k].0)
            && forall|j: int|
            0 <= j < changed.len() && path_has_prefix(steps[k].0, #[trigger] changed[j])
                ==> path_same(changed[j], steps[k].0) by {
            assert(roots[k] == steps[k].0);
            assert(keep_if(changed, no_other_ancestor(changed)).contains(steps[k].0));
        }
    } else {
        assert(roots.len() == 0);
    }
}

} // verus!
