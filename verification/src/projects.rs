//! Finding projects: what the scan keeps of each directory it walks, how the
//! results of several roots are merged, and when the cache is used.
use vstd::prelude::*;
use crate::cache::{
    answered_for, changed_dir, recorded_dir, distinct_keys, validated, entries, extend_times, insert_entries, insert_entry, insert_time, keep_flagged,
    scans_answered, sort_dedup_paths, dedup_paths, ProjectCache,
};
use crate::clock::{now_secs, seconds_since};
use crate::config::Config;
use crate::paths::{expand_tilde_with, tilde_expanded, tilde_home, ordered_paths, parent_of, path_parent, path_same, sorted_by_path, starts_with_home};
use crate::session::opt_view;
use crate::text::{chars_of, str_eq, strs};

verus! {

/// Whether the walk enters an entry with this name: names that are not text
/// are skipped, as are hidden ones (a leading `.`) except `.git`.
pub open spec fn visible_name(name: Option<Seq<char>>) -> bool {
    match name {
        Some(n) => !(n.len() > 0 && n[0] == '.') || n == ".git"@,
        None => false,
    }
}

/// Decides whether the walk enters an entry with this name.
pub fn is_visible_entry(name: Option<&str>) -> (r: bool)
    ensures
        r == visible_name(match name {
            Some(n) => Some(n@),
            None => None,
        }),
{
    match name {
        Some(n) => {
            let v = chars_of(n);
            !(v.len() > 0 && v[0] == '.') || str_eq(n, ".git")
        },
        None => false,
    }
}

/// What a scan of one root found: the projects (directories holding a
/// `.git` directory) and the modification time of each other directory.
#[derive(Debug)]
pub struct ScanFindings {
    pub projects: Vec<String>,
    pub fingerprints: Vec<(String, u64)>,
}

impl ScanFindings {
    /// Nothing found yet.
    pub fn new() -> (r: Self)
        ensures
            r.projects@.len() == 0,
            r.fingerprints@.len() == 0,
    {
        ScanFindings { projects: Vec::new(), fingerprints: Vec::new() }
    }

    /// Whether no directory has two time entries.
    pub open spec fn wf(&self) -> bool {
        distinct_keys(entries(self.fingerprints@))
    }

    /// Records a directory met by the walk: a `.git` directory makes its
    /// parent a project; any other directory has its modification time
    /// recorded when it could be read.
    pub fn record_dir(&mut self, name: &str, path: &str, mtime: Option<u64>)
        requires
            old(self).wf(),
        ensures
            final(self).wf(),
            name@ == ".git"@ ==> final(self).fingerprints@ == old(self).fingerprints@ && strs(
                final(self).projects@,
            ) == match path_parent(path@) {
                Some(p) => strs(old(self).projects@).push(p),
                None => strs(old(self).projects@),
            },
            name@ != ".git"@ ==> final(self).projects@ == old(self).projects@ && entries(
                final(self).fingerprints@,
            ) == match mtime {
                Some(t) => insert_entry(entries(old(self).fingerprints@), path@, t),
                None => entries(old(self).fingerprints@),
            },
    {
        if str_eq(name, ".git") {
            match parent_of(path) {
                Some(p) => {
                    let ghost before = strs(self.projects@);
                    let ghost pv = p@;
                    self.projects.push(p);
                    assert(strs(self.projects@) =~= before.push(pv));
                },
                None => {},
            }
        } else {
            match mtime {
                Some(t) => insert_time(&mut self.fingerprints, crate::text::owned(path), t),
                None => {},
            }
        }
    }
}

/// Whether `root` is what `shellexpand::tilde` makes of the configured path
/// `p` with the home directory `home`.
pub open spec fn expanded_from(root: Seq<char>, p: Seq<char>, home: Option<Seq<char>>) -> bool {
    root == tilde_expanded(p, home)
}

/// The roots to scan with the home directory `home`: each configured path
/// with a leading `~` expanded.
pub fn expanded_roots_with(config: &Config, home: &Option<String>) -> (r: Vec<String>)
    ensures
        r@.len() == config.paths@.len(),
        forall|i: int| 0 <= i < r@.len() ==> #[trigger] expanded_from(r@[i]@, config.paths@[i]@, opt_view(*home)),
{
    let mut r: Vec<String> = Vec::new();
    let mut i: usize = 0;
    while i < config.paths.len()
        invariant
            i <= config.paths@.len(),
            r@.len() == i,
            forall|j: int| 0 <= j < i ==> #[trigger] expanded_from(r@[j]@, config.paths@[j]@, opt_view(*home)),
        decreases config.paths@.len() - i,
    {
        r.push(expand_tilde_with(config.paths[i].as_str(), home));
        i = i + 1;
    }
    r
}

/// Whether `roots` are the configured `paths`, each with a leading `~`
/// expanded with the home directory `home`.
pub open spec fn roots_expanded(roots: Seq<Seq<char>>, paths: Seq<String>, home: Option<Seq<char>>) -> bool {
    &&& roots.len() == paths.len()
    &&& forall|i: int| 0 <= i < roots.len() ==> #[trigger] expanded_from(roots[i], paths[i]@, home)
}

/// The roots to scan: each configured path with a leading `~` expanded,
/// all with the one home directory of this machine.
pub fn expanded_roots(config: &Config) -> (r: Vec<String>)
    ensures
        exists|home: Option<Seq<char>>| #[trigger] roots_expanded(strs(r@), config.paths@, home),
{
    let home = tilde_home();
    let r = expanded_roots_with(config, &home);
    assert(roots_expanded(strs(r@), config.paths@, opt_view(home))) by {
        assert forall|i: int| 0 <= i < strs(r@).len() implies #[trigger] expanded_from(
            strs(r@)[i],
            config.paths@[i]@,
            opt_view(home),
        ) by {
            assert(strs(r@)[i] == r@[i]@);
        }
    }
    r
}

/// The projects found by a series of root scans, in order.
pub open spec fn scanned_projects(scans: Seq<(Vec<String>, Vec<(String, u64)>)>) -> Seq<Seq<char>>
    decreases scans.len(),
{
    if scans.len() == 0 {
        Seq::empty()
    } else {
        scanned_projects(scans.drop_last()) + strs(scans.last().0@)
    }
}

/// The directory times recorded by a series of root scans, later ones
/// replacing earlier ones.
pub open spec fn scanned_times(scans: Seq<(Vec<String>, Vec<(String, u64)>)>) -> Seq<(Seq<char>, u64)>
    decreases scans.len(),
{
    if scans.len() == 0 {
        Seq::empty()
    } else {
        insert_entries(scanned_times(scans.drop_last()), entries(scans.last().1@))
    }
}

/// The scan results recorded in `steps`, without their roots.
pub open spec fn step_results(steps: Seq<(Seq<char>, (Vec<String>, Vec<(String, u64)>))>) -> Seq<
    (Vec<String>, Vec<(String, u64)>),
> {
    steps.map_values(|st: (Seq<char>, (Vec<String>, Vec<(String, u64)>))| st.1)
}

/// The roots recorded in `steps`.
pub open spec fn step_roots(steps: Seq<(Seq<char>, (Vec<String>, Vec<(String, u64)>))>) -> Seq<
    Seq<char>,
> {
    steps.map_values(|st: (Seq<char>, (Vec<String>, Vec<(String, u64)>))| st.0)
}

/// Whether the scan of every configured root explains `found`: `roots` are
/// the configured paths (a leading `~` expanded), `present[i]` is what
/// `path_exists` answered for root `i`, the roots found present were
/// scanned in order with the results in `steps`, and `found` merges those
/// results: the projects sorted as paths with repeats dropped, and the
/// directory times, later scans replacing earlier ones.
pub open spec fn roots_scanned<E, X, F>(
    config: Config,
    path_exists: X,
    scan_root: F,
    home: Option<Seq<char>>,
    roots: Seq<Seq<char>>,
    present: Seq<bool>,
    steps: Seq<(Seq<char>, (Vec<String>, Vec<(String, u64)>))>,
    found: (Vec<String>, Vec<(String, u64)>),
) -> bool where X: Fn(&str) -> bool, F: Fn(&str) -> Result<(Vec<String>, Vec<(String, u64)>), E> {
    &&& roots.len() == config.paths@.len()
    &&& forall|i: int| 0 <= i < roots.len() ==> #[trigger] expanded_from(roots[i], config.paths@[i]@, home)
    &&& present.len() == roots.len()
    &&& forall|i: int| 0 <= i < present.len() ==> answered_for(path_exists, roots[i], #[trigger] present[i])
    &&& step_roots(steps) == keep_flagged(roots, present)
    &&& scans_answered::<E, F>(scan_root, steps)
    &&& distinct_keys(entries(found.1@))
    &&& entries(found.1@) == scanned_times(step_results(steps))
    &&& exists|sorted: Seq<Seq<char>>|
        sorted.to_multiset() == scanned_projects(step_results(steps)).to_multiset()
            && sorted_by_path(sorted) && ordered_paths(sorted) && strs(found.0@) == dedup_paths(sorted)
}

/// A full scan lists no project twice.
pub proof fn law_scan_lists_each_project_once<E, X, F>(
    config: Config,
    path_exists: X,
    scan_root: F,
    home: Option<Seq<char>>,
    roots: Seq<Seq<char>>,
    present: Seq<bool>,
    steps: Seq<(Seq<char>, (Vec<String>, Vec<(String, u64)>))>,
    found: (Vec<String>, Vec<(String, u64)>),
) where X: Fn(&str) -> bool, F: Fn(&str) -> Result<(Vec<String>, Vec<(String, u64)>), E>
    requires
        roots_scanned::<E, X, F>(config, path_exists, scan_root, home, roots, present, steps, found),
    ensures
        forall|i: int, j: int|
            0 <= i < j < found.0@.len() ==> !path_same(#[trigger] found.0@[i]@, #[trigger] found.0@[j]@),
{
    let sorted = choose|sorted: Seq<Seq<char>>|
        sorted.to_multiset() == scanned_projects(step_results(steps)).to_multiset()
            && sorted_by_path(sorted) && ordered_paths(sorted) && strs(found.0@) == dedup_paths(sorted);
    crate::cache::law_dedup_ordered_distinct(sorted);
    assert forall|i: int, j: int| 0 <= i < j < found.0@.len() implies !path_same(
        #[trigger] found.0@[i]@,
        #[trigger] found.0@[j]@,
    ) by {
        assert(strs(found.0@)[i] == found.0@[i]@);
        assert(strs(found.0@)[j] == found.0@[j]@);
    }
}

/// Scans every configured root that exists (by `path_exists`) with
/// `scan_root`, in order, merges what they found, and puts the projects in
/// order: sorted as paths, repeated paths dropped. A scan error is passed on.
pub fn scan_all_roots_with<E, X, F>(config: &Config, path_exists: &X, scan_root: &F) -> (r: Result<
    (Vec<String>, Vec<(String, u64)>),
    E,
>) where X: Fn(&str) -> bool, F: Fn(&str) -> Result<(Vec<String>, Vec<(String, u64)>), E>
    requires
        forall|p: &str| call_requires(*path_exists, (p,)),
        forall|p: &str| call_requires(*scan_root, (p,)),
    ensures
        r matches Ok(found) ==> exists|
            home: Option<Seq<char>>,
            roots: Seq<Seq<char>>,
            present: Seq<bool>,
            steps: Seq<(Seq<char>, (Vec<String>, Vec<(String, u64)>))>,
        |
            #[trigger] roots_scanned::<E, X, F>(
                *config,
                *path_exists,
                *scan_root,
                home,
                roots,
                present,
                steps,
                found,
            ),
        r matches Err(e) ==> exists|i: int, root: Seq<char>, home: Option<Seq<char>>|
            0 <= i < config.paths@.len() && #[trigger] expanded_from(root, config.paths@[i]@, home)
                && answered_for(*path_exists, root, true) && answered_for(
                *scan_root,
                root,
                Err::<(Vec<String>, Vec<(String, u64)>), E>(e),
            ),
{
    let home = tilde_home();
    let roots = expanded_roots_with(config, &home);
    let ghost hv = opt_view(home);
    let ghost rs = strs(roots@);
    let mut projects: Vec<String> = Vec::new();
    let mut fingerprints: Vec<(String, u64)> = Vec::new();
    let ghost mut present: Seq<bool> = Seq::empty();
    let ghost mut steps: Seq<(Seq<char>, (Vec<String>, Vec<(String, u64)>))> = Seq::empty();
    let mut i: usize = 0;
    assert(entries(fingerprints@) =~= Seq::<(Seq<char>, u64)>::empty());
    assert(step_roots(steps) =~= keep_flagged(rs.take(0), present));
    while i < roots.len()
        invariant
            i <= roots@.len(),
            roots@.len() == config.paths@.len(),
            forall|j: int| 0 <= j < roots@.len() ==> #[trigger] expanded_from(roots@[j]@, config.paths@[j]@, hv),
            rs == strs(roots@),
            present.len() == i,
            forall|x: int| 0 <= x < i ==> answered_for(*path_exists, rs[x], #[trigger] present[x]),
            step_roots(steps) == keep_flagged(rs, present),
            scans_answered::<E, F>(*scan_root, steps),
            distinct_keys(entries(fingerprints@)),
            strs(projects@) == scanned_projects(step_results(steps)),
            entries(fingerprints@) == scanned_times(step_results(steps)),
            forall|p: &str| call_requires(*path_exists, (p,)),
            forall|p: &str| call_requires(*scan_root, (p,)),
        decreases roots@.len() - i,
    {
        let root = roots[i].as_str();
        let here = path_exists(root);
        let ghost before_present = present;
        let ghost before = steps;
        proof {
            assert(rs[i as int] == root@);
            present = present.push(here);
            assert forall|x: int| 0 <= x < i + 1 implies answered_for(*path_exists, rs[x], #[trigger] present[x]) by {
                if x < i {
                    assert(present[x] == before_present[x]);
                }
            }
            assert(present.drop_last() =~= before_present);
        }
        if here {
            let scanned = scan_root(root);
            match scanned {
                Ok(s) => {
                    let ghost snap = s;
                    let (found, times) = s;
                    let mut found = found;
                    let ghost p0 = strs(projects@);
                    let ghost f = strs(found@);
                    projects.append(&mut found);
                    assert(strs(projects@) =~= p0 + f);
                    extend_times(&mut fingerprints, times);
                    proof {
                        steps = steps.push((root@, snap));
                        assert(steps.drop_last() =~= before);
                        assert(step_results(steps).drop_last() =~= step_results(before));
                        assert(step_results(steps).last() == snap);
                        assert(step_roots(steps) =~= step_roots(before).push(root@));
                        assert(answered_for(*scan_root, root@, Ok::<(Vec<String>, Vec<(String, u64)>), E>(snap)));
                        assert forall|x: int| 0 <= x < steps.len() implies answered_for(
                            *scan_root,
                            steps[x].0,
                            Ok::<(Vec<String>, Vec<(String, u64)>), E>(#[trigger] steps[x].1),
                        ) by {
                            if x < before.len() {
                                assert(steps[x] == before[x]);
                            }
                        }
                    }
                },
                Err(e) => {
                    proof {
                        assert(call_ensures(*scan_root, (root,), Err::<(Vec<String>, Vec<(String, u64)>), E>(e)));
                        assert(answered_for(*scan_root, root@, Err::<(Vec<String>, Vec<(String, u64)>), E>(e)));
                        assert(answered_for(*path_exists, root@, true));
                        assert(expanded_from(roots@[i as int]@, config.paths@[i as int]@, hv));
                    }
                    return Err(e);
                },
            }
        }
        proof {
            assert(keep_flagged(rs, present) == keep_flagged(rs, before_present) + if here {
                seq![rs[i as int]]
            } else {
                Seq::<Seq<char>>::empty()
            }) by {
                assert(present.drop_last() =~= before_present);
                if here {
                    assert(keep_flagged(rs, before_present).push(rs[i as int]) =~= keep_flagged(rs, before_present) + seq![rs[i as int]]);
                } else {
                    assert(keep_flagged(rs, before_present) + Seq::<Seq<char>>::empty() =~= keep_flagged(rs, before_present));
                }
            }
            if !here {
                assert(step_roots(steps) =~= keep_flagged(rs, present));
            } else {
                assert(step_roots(steps) =~= keep_flagged(rs, present));
            }
        }
        i = i + 1;
    }
    let sorted = sort_dedup_paths(projects);
    let r = (sorted, fingerprints);
    assert(roots_scanned::<E, X, F>(*config, *path_exists, *scan_root, hv, rs, present, steps, r));
    let out: Result<(Vec<String>, Vec<(String, u64)>), E> = Ok(r);
    assert(out matches Ok(found) ==> exists|
        home: Option<Seq<char>>,
        roots: Seq<Seq<char>>,
        present: Seq<bool>,
        steps: Seq<(Seq<char>, (Vec<String>, Vec<(String, u64)>))>,
    | #[trigger] roots_scanned::<E, X, F>(*config, *path_exists, *scan_root, home, roots, present, steps, found)) by {
        match out {
            Ok(found) => {
                assert(roots_scanned::<E, X, F>(*config, *path_exists, *scan_root, hv, rs, present, steps, found));
            },
            Err(_) => {},
        }
    }
    out
}

/// Whether a cache is too old to trust without a refresh: it holds no
/// directory times (an older format), or more than `ttl_hours` hours have
/// passed since its update at time `now`.
pub open spec fn stale_at(cache: ProjectCache, ttl_hours: u64, now: u64) -> bool {
    cache.dir_mtimes@.len() == 0 || seconds_since(now, cache.last_updated) > ttl_hours * 3600
}

/// Decides `stale_at`.
pub fn is_stale_at(cache: &ProjectCache, ttl_hours: u64, now: u64) -> (r: bool)
    requires
        cache.dir_mtimes@.len() > 0 ==> ttl_hours * 3600 <= u64::MAX,
    ensures
        r == stale_at(*cache, ttl_hours, now),
{
    cache.dir_mtimes.len() == 0 || cache.age_at(now) > ttl_hours * 3600
}

/// Whether the projects come from a fresh scan rather than the cache: the
/// cache is off, or a refresh is forced.
pub open spec fn scans_first(config_cache_enabled: bool, force_refresh: bool) -> bool {
    !config_cache_enabled || force_refresh
}

/// What a scan and save answer: the projects of a successful scan by
/// `scanner`, when it succeeds.
pub open spec fn scanned_result<E, C>(scanner: C, config: &Config, r: Result<Vec<String>, E>) -> bool where
    C: Fn(&Config) -> Result<(Vec<String>, Vec<(String, u64)>), E>,
 {
    r matches Ok(p) ==> exists|s: (Vec<String>, Vec<(String, u64)>)|
        call_ensures(scanner, (config,), Ok::<(Vec<String>, Vec<(String, u64)>), E>(s)) && p@
            == s.0@
}

/// Whether the calls that the projects lookup may make can be made: the
/// loader only when the cache is used, the scanner and the
/// saver only when the roots are scanned (cache off, refresh forced, or no
/// cache stored), and the lifetime in seconds fits in `u64` whenever a
/// loaded cache with directory times is checked for staleness.
pub open spec fn lookup_callable<E, L, S, C, R>(
    config: &Config,
    force_refresh: bool,
    cache_loader: L,
    cache_saver: S,
    scanner: C,
    refresh_spawner: R,
) -> bool where
    L: Fn() -> Result<Option<ProjectCache>, E>,
    S: Fn(&ProjectCache) -> Result<(), E>,
    C: Fn(&Config) -> Result<(Vec<String>, Vec<(String, u64)>), E>,
    R: Fn(),
 {
    &&& !scans_first(config.cache_enabled, force_refresh) ==> call_requires(cache_loader, ())
    &&& !scans_first(config.cache_enabled, force_refresh) ==> forall|c: ProjectCache|
        #[trigger] call_ensures(cache_loader, (), Ok::<Option<ProjectCache>, E>(Some(c)))
            && c.dir_mtimes@.len() > 0 ==> config.cache_ttl_hours * 3600 <= u64::MAX
    &&& (scans_first(config.cache_enabled, force_refresh) || call_ensures(
        cache_loader,
        (),
        Ok::<Option<ProjectCache>, E>(None),
    )) ==> call_requires(scanner, (config,)) && forall|c: &ProjectCache| call_requires(cache_saver, (c,))
}

/// What the projects lookup at time `now` answers (see `get_projects_at`).
pub open spec fn lookup_result<E, L, S, C, R>(
    config: &Config,
    force_refresh: bool,
    now: u64,
    cache_loader: L,
    cache_saver: S,
    scanner: C,
    refresh_spawner: R,
    r: Result<Vec<String>, E>,
) -> bool where
    L: Fn() -> Result<Option<ProjectCache>, E>,
    S: Fn(&ProjectCache) -> Result<(), E>,
    C: Fn(&Config) -> Result<(Vec<String>, Vec<(String, u64)>), E>,
    R: Fn(),
 {
    &&& scans_first(config.cache_enabled, force_refresh) ==> scanned_result(scanner, config, r)
        && full_refresh::<E, S, C>(cache_saver, scanner, config, unit_of(r))
    &&& !scans_first(config.cache_enabled, force_refresh) ==> exists|
        loaded: Result<Option<ProjectCache>, E>,
    |
        #[trigger] call_ensures(cache_loader, (), loaded) && match loaded {
            Err(e) => r == Err::<Vec<String>, E>(e),
            Ok(Some(c)) => r matches Ok(p) && p@ == c.projects@ && (stale_at(
                c,
                config.cache_ttl_hours,
                now,
            ) ==> call_ensures(refresh_spawner, (), ())),
            Ok(None) => scanned_result(scanner, config, r) && full_refresh::<E, S, C>(
                cache_saver,
                scanner,
                config,
                unit_of(r),
            ),
        }
    &&& r matches Err(e) ==> {
        ||| call_ensures(cache_loader, (), Err::<Option<ProjectCache>, E>(e))
        ||| call_ensures(scanner, (config,), Err::<(Vec<String>, Vec<(String, u64)>), E>(e))
        ||| exists|c: &ProjectCache| call_ensures(cache_saver, (c,), Err::<(), E>(e))
    }
}

/// The projects to choose from, at time `now`. With the cache off or a
/// refresh forced, the roots are scanned (by `scanner`), the result saved
/// (by `cache_saver`) and returned. Otherwise the cache (from
/// `cache_loader`) is returned at once when there is one, and
/// `refresh_spawner` starts a background refresh when it is stale at `now`
/// (and is only called then);
/// when there is none, the roots are scanned and saved as above. Errors of
/// these calls are passed on.
pub fn get_projects_at<E, L, S, C, R>(
    config: &Config,
    force_refresh: bool,
    now: u64,
    cache_loader: &L,
    cache_saver: &S,
    scanner: &C,
    refresh_spawner: &R,
) -> (r: Result<Vec<String>, E>) where
    L: Fn() -> Result<Option<ProjectCache>, E>,
    S: Fn(&ProjectCache) -> Result<(), E>,
    C: Fn(&Config) -> Result<(Vec<String>, Vec<(String, u64)>), E>,
    R: Fn(),

    requires
        lookup_callable::<E, L, S, C, R>(
            config,
            force_refresh,
            *cache_loader,
            *cache_saver,
            *scanner,
            *refresh_spawner,
        ),
        !scans_first(config.cache_enabled, force_refresh) ==> forall|c: ProjectCache|
            #[trigger] call_ensures(*cache_loader, (), Ok::<Option<ProjectCache>, E>(Some(c)))
                && stale_at(c, config.cache_ttl_hours, now) ==> call_requires(*refresh_spawner, ()),
    ensures
        lookup_result::<E, L, S, C, R>(
            config,
            force_refresh,
            now,
            *cache_loader,
            *cache_saver,
            *scanner,
            *refresh_spawner,
            r,
        ),
{
    if !config.cache_enabled || force_refresh {
        return scan_and_save(config, cache_saver, scanner);
    }
    let res = cache_loader();
    let ghost loaded = res;
    match res {
        Err(e) => Err(e),
        Ok(None) => scan_and_save(config, cache_saver, scanner),
        Ok(Some(cache)) => {
            if is_stale_at(&cache, config.cache_ttl_hours, now) {
                refresh_spawner();
                assert(call_ensures(*refresh_spawner, (), ()));
            }
            Ok(cache.projects)
        },
    }
}

/// The projects to choose from, by the clock of this machine: see
/// `get_projects_at`. Whatever the time, a cache without directory times
/// always has a background refresh started.
pub fn get_projects_internal<E, L, S, C, R>(
    config: &Config,
    force_refresh: bool,
    cache_loader: &L,
    cache_saver: &S,
    scanner: &C,
    refresh_spawner: &R,
) -> (r: Result<Vec<String>, E>) where
    L: Fn() -> Result<Option<ProjectCache>, E>,
    S: Fn(&ProjectCache) -> Result<(), E>,
    C: Fn(&Config) -> Result<(Vec<String>, Vec<(String, u64)>), E>,
    R: Fn(),

    requires
        lookup_callable::<E, L, S, C, R>(
            config,
            force_refresh,
            *cache_loader,
            *cache_saver,
            *scanner,
            *refresh_spawner,
        ),
        !scans_first(config.cache_enabled, force_refresh) ==> call_requires(*refresh_spawner, ()),
    ensures
        exists|now: u64|
            #[trigger] lookup_result::<E, L, S, C, R>(
                config,
                force_refresh,
                now,
                *cache_loader,
                *cache_saver,
                *scanner,
                *refresh_spawner,
                r,
            ),
{
    let now = now_secs();
    get_projects_at(config, force_refresh, now, cache_loader, cache_saver, scanner, refresh_spawner)
}

/// `r` with its success value dropped.
pub open spec fn unit_of<T, E>(r: Result<T, E>) -> Result<(), E> {
    match r {
        Ok(_) => Ok(()),
        Err(e) => Err(e),
    }
}

/// Whether `r` is what a full rescan answers: the error of `scanner`, or,
/// when it found projects and directory times, what `cache_saver` answered
/// for a cache holding exactly those.
pub open spec fn full_refresh<E, S, C>(cache_saver: S, scanner: C, config: &Config, r: Result<(), E>) -> bool where
    S: Fn(&ProjectCache) -> Result<(), E>,
    C: Fn(&Config) -> Result<(Vec<String>, Vec<(String, u64)>), E>,
 {
    ||| exists|e: E|
        r == Err::<(), E>(e) && #[trigger] call_ensures(
            scanner,
            (config,),
            Err::<(Vec<String>, Vec<(String, u64)>), E>(e),
        )
    ||| exists|s: (Vec<String>, Vec<(String, u64)>), c: &ProjectCache|
        #![trigger call_ensures(scanner, (config,), Ok::<(Vec<String>, Vec<(String, u64)>), E>(s)), call_ensures(cache_saver, (c,), r)]
        call_ensures(scanner, (config,), Ok::<(Vec<String>, Vec<(String, u64)>), E>(s))
            && c.projects@ == s.0@ && c.dir_mtimes@ == s.1@ && call_ensures(cache_saver, (c,), r)
}

/// Scans the roots with `scanner`, saves the result with `cache_saver`, and
/// returns the projects found.
fn scan_and_save<E, S, C>(config: &Config, cache_saver: &S, scanner: &C) -> (r: Result<
    Vec<String>,
    E,
>) where
    S: Fn(&ProjectCache) -> Result<(), E>,
    C: Fn(&Config) -> Result<(Vec<String>, Vec<(String, u64)>), E>,

    requires
        forall|c: &ProjectCache| call_requires(*cache_saver, (c,)),
        call_requires(*scanner, (config,)),
    ensures
        r matches Ok(p) ==> exists|s: (Vec<String>, Vec<(String, u64)>)|
            call_ensures(*scanner, (config,), Ok::<(Vec<String>, Vec<(String, u64)>), E>(s))
                && p@ == s.0@,
        r matches Err(e) ==> {
            ||| call_ensures(*scanner, (config,), Err::<(Vec<String>, Vec<(String, u64)>), E>(e))
            ||| exists|c: &ProjectCache| call_ensures(*cache_saver, (c,), Err::<(), E>(e))
        },
        full_refresh::<E, S, C>(*cache_saver, *scanner, config, unit_of(r)),
{
    let res = scanner(config);
    match res {
        Err(e) => {
            let out: Result<Vec<String>, E> = Err(e);
            assert(full_refresh::<E, S, C>(*cache_saver, *scanner, config, unit_of(out))) by {
                match out {
                    Err(x) => {
                        assert(call_ensures(*scanner, (config,), Err::<(Vec<String>, Vec<(String, u64)>), E>(x)));
                        assert(unit_of(out) == Err::<(), E>(x));
                    },
                    Ok(_) => {},
                }
            }
            out
        },
        Ok(s) => {
            let ghost snap = s;
            assert(call_ensures(*scanner, (config,), Ok::<(Vec<String>, Vec<(String, u64)>), E>(s)));
            let (projects, fingerprints) = s;
            let cache = ProjectCache::new(projects.clone(), fingerprints);
            let saved = cache_saver(&cache);
            assert(call_ensures(*cache_saver, (&cache,), saved));
            assert(cache.projects@ == snap.0@ && cache.dir_mtimes@ == snap.1@);
            let ghost sv = saved;
            let out: Result<Vec<String>, E> = match saved {
                Err(e) => {
                    assert(call_ensures(*cache_saver, (&cache,), Err::<(), E>(e)));
                    let o: Result<Vec<String>, E> = Err(e);
                    assert(unit_of(o) == sv);
                    o
                },
                Ok(u) => {
                    let o: Result<Vec<String>, E> = Ok(projects);
                    assert(u == ());
                    assert(unit_of(o) == sv);
                    o
                },
            };
            assert(unit_of(out) == saved);
            assert(full_refresh::<E, S, C>(*cache_saver, *scanner, config, unit_of(out)));
            out
        },
    }
}


/// Rebuilds the cache, as the background refresh does: with no cache, or a
/// cache in the older format without directory times, every root is
/// scanned (by `scan_all`) and the result saved; otherwise the cache is
/// brought up to date incrementally (see `ProjectCache::validate_and_update`),
/// with no full rescan, and saved when that changed it. Errors of these
/// calls are passed on.
pub fn refresh_cache_with<E, L, S, A, G, M, F>(
    config: &Config,
    cache_loader: &L,
    cache_saver: &S,
    scan_all: &A,
    git_exists: &G,
    dir_mtime: &M,
    scan_root: &F,
) -> (r: Result<(), E>) where
    L: Fn() -> Result<Option<ProjectCache>, E>,
    S: Fn(&ProjectCache) -> Result<(), E>,
    A: Fn(&Config) -> Result<(Vec<String>, Vec<(String, u64)>), E>,
    G: Fn(&str) -> bool,
    M: Fn(&str) -> Option<u64>,
    F: Fn(&str) -> Result<(Vec<String>, Vec<(String, u64)>), E>,

    requires
        call_requires(*cache_loader, ()),
        forall|c: ProjectCache|
            call_ensures(*cache_loader, (), Ok::<Option<ProjectCache>, E>(Some(c))) ==> c.wf(),
        forall|c: &ProjectCache| call_requires(*cache_saver, (c,)),
        (call_ensures(*cache_loader, (), Ok::<Option<ProjectCache>, E>(None)) || exists|c: ProjectCache|
            #[trigger] call_ensures(*cache_loader, (), Ok::<Option<ProjectCache>, E>(Some(c)))
                && c.dir_mtimes@.len() == 0) ==> call_requires(*scan_all, (config,)),
        forall|c: ProjectCache|
            #[trigger] call_ensures(*cache_loader, (), Ok::<Option<ProjectCache>, E>(Some(c)))
                && c.dir_mtimes@.len() > 0 ==> {
                &&& forall|p: &str| c.project_list().contains(p@) ==> call_requires(*git_exists, (p,))
                &&& forall|p: &str| recorded_dir(c.dir_mtimes@, p@) ==> call_requires(*dir_mtime, (p,))
                &&& forall|p: &str|
                    changed_dir(*dir_mtime, c.dir_mtimes@, p@) ==> call_requires(*scan_root, (p,))
            },
    ensures
        r matches Err(e) ==> {
            ||| call_ensures(*cache_loader, (), Err::<Option<ProjectCache>, E>(e))
            ||| exists|c: &ProjectCache| call_ensures(*cache_saver, (c,), Err::<(), E>(e))
            ||| call_ensures(*scan_all, (config,), Err::<(Vec<String>, Vec<(String, u64)>), E>(e))
            ||| exists|p: &str| call_ensures(*scan_root, (p,), Err::<(Vec<String>, Vec<(String, u64)>), E>(e))
        },
        exists|loaded: Result<Option<ProjectCache>, E>|
            #[trigger] call_ensures(*cache_loader, (), loaded) && match loaded {
                Err(e) => r == Err::<(), E>(e),
                Ok(None) => full_refresh::<E, S, A>(*cache_saver, *scan_all, config, r),
                Ok(Some(c)) => if c.dir_mtimes@.len() == 0 {
                    full_refresh::<E, S, A>(*cache_saver, *scan_all, config, r)
                } else {
                    exists|after: ProjectCache, v: Result<bool, E>, now: u64|
                        #[trigger] validated::<E, G, M, F>(
                            *git_exists,
                            *dir_mtime,
                            *scan_root,
                            c,
                            after,
                            v,
                            now,
                        ) && match v {
                            Err(e) => r == Err::<(), E>(e),
                            Ok(false) => r == Ok::<(), E>(()),
                            Ok(true) => call_ensures(*cache_saver, (&after,), r),
                        }
                },
            },
{
    let loaded = cache_loader();
    let ghost snap = loaded;
    let r = match loaded {
        Err(e) => Err(e),
        Ok(None) => {
            let res = scan_and_save(config, cache_saver, scan_all);
            let out: Result<(), E> = match res {
                Err(e) => Err(e),
                Ok(_) => Ok(()),
            };
            assert(out == unit_of(res));
            out
        },
        Ok(Some(cache)) => {
            let ghost c0 = cache;
            let mut cache = cache;
            if cache.dir_mtimes.len() == 0 {
                let res = scan_and_save(config, cache_saver, scan_all);
                let out: Result<(), E> = match res {
                    Err(e) => Err(e),
                    Ok(_) => Ok(()),
                };
                assert(out == unit_of(res));
                out
            } else {
                let now = now_secs();
                let v = cache.validate_and_update_at(now, git_exists, dir_mtime, scan_root);
                let ghost vv = v;
                let out: Result<(), E> = match v {
                    Err(e) => {
                        let o: Result<(), E> = Err(e);
                        assert(vv matches Err(x) && o == Err::<(), E>(x));
                        o
                    },
                    Ok(changed) => {
                        if changed {
                            let saved = cache_saver(&cache);
                            assert(call_ensures(*cache_saver, (&cache,), saved));
                            saved
                        } else {
                            Ok(())
                        }
                    },
                };
                assert(validated::<E, G, M, F>(*git_exists, *dir_mtime, *scan_root, c0, cache, vv, now));
                assert(match vv {
                    Err(e) => out == Err::<(), E>(e),
                    Ok(false) => out == Ok::<(), E>(()),
                    Ok(true) => call_ensures(*cache_saver, (&cache,), out),
                }) by {
                    match vv {
                        Err(e) => {},
                        Ok(b) => {},
                    }
                }
                out
            }
        },
    };
    assert(call_ensures(*cache_loader, (), snap));
    r
}


/// The lines of the cache status report for a cache stored at `location`,
/// last updated `age` seconds ago.
pub open spec fn status_lines(projects: nat, dirs: nat, location: Seq<char>, age: nat) -> Seq<
    Seq<char>,
> {
    seq![
        "Cache status:"@,
        "  Location: "@ + location,
        "  Projects cached: "@ + crate::text::dec(projects),
        "  Directories tracked: "@ + crate::text::dec(dirs),
        "  Last updated: "@ + crate::text::dec(age / 3600) + "h "@ + crate::text::dec(
            (age % 3600) / 60,
        ) + "m ago"@,
    ]
}

/// The lines of the cache status report: where the cache is, how many
/// projects and directories it holds, and its age in hours and minutes.
pub fn cache_status_lines(cache: &ProjectCache, location: &str, age: u64) -> (r: Vec<String>)
    ensures
        strs(r@) == status_lines(
            cache.projects@.len(),
            cache.dir_mtimes@.len(),
            location@,
            age as nat,
        ),
{
    let hours = crate::text::dec_string(age / 3600);
    let minutes = crate::text::dec_string((age % 3600) / 60);
    let n = crate::text::dec_string(cache.projects.len() as u64);
    let m = crate::text::dec_string(cache.dir_mtimes.len() as u64);
    let l1 = crate::text::owned("Cache status:");
    let l2 = crate::text::concat("  Location: ", location);
    let l3 = crate::text::concat("  Projects cached: ", n.as_str());
    let l4 = crate::text::concat("  Directories tracked: ", m.as_str());
    let a = crate::text::concat("  Last updated: ", hours.as_str());
    let b = crate::text::concat(a.as_str(), "h ");
    let c = crate::text::concat(b.as_str(), minutes.as_str());
    let l5 = crate::text::concat(c.as_str(), "m ago");
    let r = vec![l1, l2, l3, l4, l5];
    assert(strs(r@) =~= status_lines(
        cache.projects@.len(),
        cache.dir_mtimes@.len(),
        location@,
        age as nat,
    ));
    r
}

/// What the cache status says when the cache is off.
pub const CACHE_DISABLED_MESSAGE: &'static str = "Cache is disabled in configuration";

} // verus!
