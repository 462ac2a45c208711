use std::cell::RefCell;
use tmuxido::cache::ProjectCache;
use tmuxido::config::Config;
use tmuxido::projects::{
    cache_status_lines, expanded_roots, expanded_roots_with, get_projects_at, get_projects_internal, is_stale_at, is_visible_entry,
    refresh_cache_with, scan_all_roots_with, ScanFindings,
};
use tmuxido::session::SessionConfig;

type Found = (Vec<String>, Vec<(String, u64)>);

fn make_config(cache_enabled: bool, cache_ttl_hours: u64) -> Config {
    Config {
        paths: vec!["/tmp/test".to_string()],
        max_depth: 3,
        cache_enabled,
        cache_ttl_hours,
        update_check_interval_hours: 24,
        default_session: SessionConfig { windows: vec![] },
    }
}

fn fresh_cache(projects: Vec<String>) -> ProjectCache {
    ProjectCache::new(projects, vec![("/tracked".to_string(), 1u64)])
}

fn stale_cache(projects: Vec<String>) -> ProjectCache {
    let mut c = ProjectCache::new(projects, vec![("/tracked".to_string(), 1u64)]);
    c.last_updated = 0;
    c
}

fn call_internal(
    config: &Config,
    force_refresh: bool,
    cache_loader: &dyn Fn() -> Result<Option<ProjectCache>, String>,
    cache_saver: &dyn Fn(&ProjectCache) -> Result<(), String>,
    scanner: &dyn Fn(&Config) -> Result<Found, String>,
    refresh_spawner: &dyn Fn(),
) -> Result<Vec<String>, String> {
    get_projects_internal(
        config,
        force_refresh,
        &|| cache_loader(),
        &|c: &ProjectCache| cache_saver(c),
        &|c: &Config| scanner(c),
        &|| refresh_spawner(),
    )
}

#[test]
fn should_scan_when_cache_disabled() {
    let config = make_config(false, 24);
    let expected = vec!["/p1".to_string()];
    let scanner_called = RefCell::new(false);
    let saver_called = RefCell::new(false);
    let spawner_called = RefCell::new(false);

    let result = call_internal(
        &config,
        false,
        &|| panic!("loader must not be called when cache disabled"),
        &|_| {
            *saver_called.borrow_mut() = true;
            Ok(())
        },
        &|_| {
            *scanner_called.borrow_mut() = true;
            Ok((expected.clone(), vec![]))
        },
        &|| *spawner_called.borrow_mut() = true,
    );

    assert!(result.is_ok());
    assert!(scanner_called.into_inner());
    assert!(saver_called.into_inner());
    assert!(!spawner_called.into_inner());
    assert_eq!(result.unwrap(), expected);
}

#[test]
fn should_scan_when_force_refresh() {
    let config = make_config(true, 24);
    let expected = vec!["/p1".to_string()];
    let scanner_called = RefCell::new(false);
    let saver_called = RefCell::new(false);
    let spawner_called = RefCell::new(false);

    let result = call_internal(
        &config,
        true,
        &|| panic!("loader must not be called on force refresh"),
        &|_| {
            *saver_called.borrow_mut() = true;
            Ok(())
        },
        &|_| {
            *scanner_called.borrow_mut() = true;
            Ok((expected.clone(), vec![]))
        },
        &|| *spawner_called.borrow_mut() = true,
    );

    assert!(result.is_ok());
    assert!(scanner_called.into_inner());
    assert!(saver_called.into_inner());
    assert!(!spawner_called.into_inner());
    assert_eq!(result.unwrap(), expected);
}

#[test]
fn should_do_blocking_scan_when_no_cache_exists() {
    let config = make_config(true, 24);
    let expected = vec!["/p1".to_string()];
    let scanner_called = RefCell::new(false);
    let saver_called = RefCell::new(false);
    let spawner_called = RefCell::new(false);

    let result = call_internal(
        &config,
        false,
        &|| Ok(None),
        &|_| {
            *saver_called.borrow_mut() = true;
            Ok(())
        },
        &|_| {
            *scanner_called.borrow_mut() = true;
            Ok((expected.clone(), vec![]))
        },
        &|| *spawner_called.borrow_mut() = true,
    );

    assert!(result.is_ok());
    assert!(scanner_called.into_inner());
    assert!(saver_called.into_inner());
    assert!(!spawner_called.into_inner());
    assert_eq!(result.unwrap(), expected);
}

#[test]
fn should_return_cached_projects_immediately_when_cache_is_fresh() {
    let config = make_config(true, 24);
    let cached = vec!["/cached/project".to_string()];
    let cache = RefCell::new(Some(fresh_cache(cached.clone())));
    let spawner_called = RefCell::new(false);

    let result = call_internal(
        &config,
        false,
        &|| Ok(cache.borrow_mut().take()),
        &|_| panic!("saver must not be called in foreground"),
        &|_| panic!("scanner must not be called when cache is fresh"),
        &|| *spawner_called.borrow_mut() = true,
    );

    assert!(result.is_ok());
    assert_eq!(result.unwrap(), cached);
    assert!(
        !spawner_called.into_inner(),
        "fresh cache should not trigger background refresh"
    );
}

#[test]
fn should_return_stale_cache_immediately_and_spawn_background_refresh() {
    let config = make_config(true, 24);
    let cached = vec!["/cached/project".to_string()];
    let cache = RefCell::new(Some(stale_cache(cached.clone())));
    let spawner_called = RefCell::new(false);

    let result = call_internal(
        &config,
        false,
        &|| Ok(cache.borrow_mut().take()),
        &|_| panic!("saver must not be called in foreground"),
        &|_| panic!("scanner must not be called in foreground"),
        &|| *spawner_called.borrow_mut() = true,
    );

    assert!(result.is_ok());
    assert_eq!(result.unwrap(), cached);
    assert!(
        spawner_called.into_inner(),
        "stale cache must trigger background refresh"
    );
}

#[test]
fn should_spawn_background_refresh_when_cache_has_no_fingerprints() {
    let config = make_config(true, 24);
    let cached = vec!["/old/project".to_string()];
    let old_cache = RefCell::new(Some(ProjectCache::new(cached.clone(), vec![])));
    let spawner_called = RefCell::new(false);

    let result = call_internal(
        &config,
        false,
        &|| Ok(old_cache.borrow_mut().take()),
        &|_| panic!("saver must not be called in foreground"),
        &|_| panic!("scanner must not be called in foreground"),
        &|| *spawner_called.borrow_mut() = true,
    );

    assert!(result.is_ok());
    assert_eq!(result.unwrap(), cached);
    assert!(
        spawner_called.into_inner(),
        "old cache format must trigger background refresh"
    );
}

#[test]
fn loader_error_is_passed_on() {
    let config = make_config(true, 24);
    let result = call_internal(
        &config,
        false,
        &|| Err("unreadable".to_string()),
        &|_| Ok(()),
        &|_| Ok((vec![], vec![])),
        &|| {},
    );
    assert_eq!(result, Err("unreadable".to_string()));
}

#[test]
fn staleness_by_age_and_format() {
    let c = ProjectCache::new_at(vec![], vec![("/d".to_string(), 1)], 1000);
    assert!(!is_stale_at(&c, 1, 1000 + 3600));
    assert!(is_stale_at(&c, 1, 1000 + 3601));
    assert!(!is_stale_at(&c, 1, 0));
    let old = ProjectCache::new_at(vec![], vec![], 1000);
    assert!(is_stale_at(&old, 24, 1000));
}

#[test]
fn walk_skips_hidden_entries_but_git() {
    assert!(is_visible_entry(Some("src")));
    assert!(is_visible_entry(Some(".git")));
    assert!(!is_visible_entry(Some(".cache")));
    assert!(!is_visible_entry(None));
}

#[test]
fn findings_record_projects_and_times() {
    let mut f = ScanFindings::new();
    f.record_dir(".git", "/r/app/.git", Some(7));
    f.record_dir("src", "/r/app/src", Some(9));
    f.record_dir("docs", "/r/app/docs", None);
    f.record_dir("src", "/r/app/src", Some(10));
    assert_eq!(f.projects, vec!["/r/app".to_string()]);
    assert_eq!(f.fingerprints, vec![("/r/app/src".to_string(), 10)]);
}

#[test]
fn roots_are_scanned_merged_and_sorted() {
    let mut config = make_config(true, 24);
    config.paths = vec!["/b".to_string(), "/missing".to_string(), "/a".to_string()];
    assert_eq!(expanded_roots(&config), config.paths);
    let result = scan_all_roots_with(
        &config,
        &|p: &str| p != "/missing",
        &|root: &str| {
            Ok::<Found, ()>((
                vec![format!("{}/x", root), "/a/x".to_string()],
                vec![(root.to_string(), 1)],
            ))
        },
    )
    .unwrap();
    assert_eq!(result.0, vec!["/a/x".to_string(), "/b/x".to_string()]);
    assert_eq!(result.1.len(), 2);
}

#[test]
fn refresh_saves_a_full_scan_without_a_cache() {
    let config = make_config(true, 24);
    let saved = RefCell::new(None);
    let result = refresh_cache_with(
        &config,
        &|| Ok::<Option<ProjectCache>, ()>(None),
        &|c: &ProjectCache| {
            *saved.borrow_mut() = Some(c.projects.clone());
            Ok(())
        },
        &|_: &Config| Ok((vec!["/p".to_string()], vec![("/".to_string(), 1)])),
        &|_: &str| true,
        &|_: &str| None,
        &|_: &str| Ok((vec![], vec![])),
    );
    assert_eq!(result, Ok(()));
    assert_eq!(saved.into_inner(), Some(vec!["/p".to_string()]));
}

#[test]
fn status_report_lines() {
    let c = ProjectCache::new_at(
        vec!["/a".to_string(), "/b".to_string()],
        vec![("/".to_string(), 1)],
        0,
    );
    assert_eq!(
        cache_status_lines(&c, "/c/tmuxido/projects.json", 3 * 3600 + 125),
        vec![
            "Cache status:",
            "  Location: /c/tmuxido/projects.json",
            "  Projects cached: 2",
            "  Directories tracked: 1",
            "  Last updated: 3h 2m ago",
        ]
    );
}

#[test]
fn roots_starting_with_tilde_are_expanded() {
    let mut config = make_config(true, 24);
    config.paths = vec!["~/proj".to_string(), "/abs".to_string(), "~user/x".to_string()];
    let roots = expanded_roots(&config);
    assert_ne!(roots[0], "~/proj");
    assert!(roots[0].ends_with("/proj"));
    assert_eq!(roots[1], "/abs");
    assert_eq!(roots[2], "~user/x");
}

#[test]
fn lookup_at_a_given_time_refreshes_only_a_stale_cache() {
    let config = make_config(true, 1);
    let cached = vec!["/cached/project".to_string()];
    let mut c = ProjectCache::new(cached.clone(), vec![("/tracked".to_string(), 1u64)]);
    c.last_updated = 1000;
    for (now, stale) in [(1000 + 3600, false), (1000 + 3601, true), (0, false)] {
        let cache = std::cell::RefCell::new(Some(ProjectCache::new_at(c.projects.clone(), c.dir_mtimes.clone(), c.last_updated)));
        let spawned = std::cell::RefCell::new(false);
        let result: Result<Vec<String>, String> = get_projects_at(
            &config,
            false,
            now,
            &|| Ok(cache.borrow_mut().take()),
            &|_: &ProjectCache| panic!("saver must not be called"),
            &|_: &Config| panic!("scanner must not be called"),
            &|| *spawned.borrow_mut() = true,
        );
        assert_eq!(result, Ok(cached.clone()));
        assert_eq!(spawned.into_inner(), stale);
    }
}

#[test]
fn lookup_without_a_cache_accepts_any_lifetime() {
    let config = make_config(true, u64::MAX);
    let saved = std::cell::RefCell::new(Vec::new());
    let result: Result<Vec<String>, String> = get_projects_at(
        &config,
        false,
        5,
        &|| Ok(None),
        &|c: &ProjectCache| {
            saved.borrow_mut().push(c.projects.clone());
            Ok(())
        },
        &|_: &Config| Ok((vec!["/p".to_string()], vec![("/".to_string(), 1)])),
        &|| panic!("no refresh without a cache"),
    );
    assert_eq!(result, Ok(vec!["/p".to_string()]));
    assert_eq!(saved.into_inner(), vec![vec!["/p".to_string()]]);
    let off = make_config(false, u64::MAX);
    let result: Result<Vec<String>, String> = get_projects_at(
        &off,
        false,
        5,
        &|| panic!("loader must not be called when the cache is off"),
        &|_: &ProjectCache| Ok(()),
        &|_: &Config| Ok((vec!["/q".to_string()], vec![])),
        &|| panic!("no refresh when the cache is off"),
    );
    assert_eq!(result, Ok(vec!["/q".to_string()]));
}

#[test]
fn roots_expand_with_one_home() {
    let mut config = make_config(true, 24);
    config.paths = vec!["~".to_string(), "~/code".to_string(), "/abs".to_string(), "~user/x".to_string()];
    assert_eq!(
        expanded_roots_with(&config, &Some("/home/u".to_string())),
        vec!["/home/u", "/home/u/code", "/abs", "~user/x"]
    );
    assert_eq!(expanded_roots_with(&config, &None), config.paths);
}
