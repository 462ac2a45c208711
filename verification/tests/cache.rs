use std::cell::{Cell, RefCell};
use tmuxido::cache::{
    cache_path_from, dedup_path_list, extend_times, insert_time, minimal_roots,
    retain_outside, retain_times_outside, sort_dedup_paths, ProjectCache,
};

fn s(v: &[&str]) -> Vec<String> {
    v.iter().map(|x| x.to_string()).collect()
}

#[test]
fn should_return_empty_when_input_is_empty() {
    let result = minimal_roots(&[]);
    assert!(result.is_empty());
}

#[test]
fn should_return_single_dir_as_root() {
    let dirs = s(&["/home/user/projects"]);
    let result = minimal_roots(&dirs);
    assert_eq!(result, dirs);
}

#[test]
fn should_exclude_nested_dirs_when_parent_is_present() {
    let dirs = s(&["/home/user", "/home/user/projects"]);
    let result = minimal_roots(&dirs);
    assert_eq!(result.len(), 1);
    assert!(result.contains(&"/home/user".to_string()));
}

#[test]
fn should_keep_sibling_dirs_that_are_not_nested() {
    let dirs = s(&["/home/user/projects", "/home/user/work"]);
    let result = minimal_roots(&dirs);
    assert_eq!(result.len(), 2);
}

#[test]
fn minimal_roots_compares_whole_components() {
    let dirs = s(&["/home/user/pro", "/home/user/projects", "/home/user/pro/a"]);
    assert_eq!(minimal_roots(&dirs), s(&["/home/user/pro", "/home/user/projects"]));
}

#[test]
fn should_remove_stale_projects_when_git_dir_missing() {
    let mut cache = ProjectCache::new(s(&["/tmp/t/myproject"]), vec![]);
    assert_eq!(cache.projects.len(), 1);

    let result = cache.validate_and_update(
        &|_: &str| false,
        &|_: &str| None,
        &|_: &str| Ok::<(Vec<String>, Vec<(String, u64)>), ()>((vec![], vec![])),
    );
    assert_eq!(result.unwrap(), true);
    assert!(cache.projects.is_empty());
}

#[test]
fn should_return_false_when_nothing_changed() {
    let mut cache = ProjectCache::new(vec![], vec![("/tmp/t".to_string(), 1234)]);
    let result = cache.validate_and_update(
        &|_: &str| true,
        &|_: &str| Some(1234),
        &|_: &str| Ok::<(Vec<String>, Vec<(String, u64)>), ()>((vec![], vec![])),
    );
    assert_eq!(result.unwrap(), false);
}

#[test]
fn should_rescan_dirs_when_mtime_changed() {
    let watched = "/tmp/t".to_string();
    let mut cache = ProjectCache::new(vec![], vec![(watched.clone(), 0u64)]);

    let new_project = "/tmp/t/discovered".to_string();
    let scan_called = Cell::new(false);
    let result = cache.validate_and_update(
        &|_: &str| true,
        &|_: &str| Some(1_700_000_000),
        &|_root: &str| {
            scan_called.set(true);
            Ok::<(Vec<String>, Vec<(String, u64)>), ()>((vec![new_project.clone()], vec![]))
        },
    );

    assert_eq!(result.unwrap(), true);
    assert!(scan_called.get());
    assert!(cache.projects.contains(&new_project));
}

#[test]
fn should_return_false_when_dir_mtimes_empty() {
    let mut cache = ProjectCache::new(vec![], vec![]);
    let result = cache.validate_and_update(
        &|_: &str| true,
        &|_: &str| None,
        &|_: &str| Ok::<(Vec<String>, Vec<(String, u64)>), ()>((vec![], vec![])),
    );
    assert_eq!(result.unwrap(), false);
}

#[test]
fn rescan_replaces_the_subtree_and_sorts() {
    let mut cache = ProjectCache::new(
        s(&["/r/b", "/r/a/old", "/other/x"]),
        vec![("/r".to_string(), 1), ("/r/a".to_string(), 1), ("/other".to_string(), 5)],
    );
    let roots = RefCell::new(Vec::new());
    let result = cache.validate_and_update(
        &|_: &str| true,
        &|p: &str| if p == "/other" { Some(5) } else { Some(2) },
        &|root: &str| {
            roots.borrow_mut().push(root.to_string());
            Ok::<(Vec<String>, Vec<(String, u64)>), ()>((
                s(&["/r/c", "/r/a/new"]),
                vec![("/r".to_string(), 2), ("/r/a".to_string(), 2)],
            ))
        },
    );
    assert_eq!(result, Ok(true));
    assert_eq!(roots.into_inner(), s(&["/r"]));
    assert_eq!(cache.projects, s(&["/other/x", "/r/a/new", "/r/c"]));
    let mut times = cache.dir_mtimes.clone();
    times.sort();
    assert_eq!(
        times,
        vec![("/other".to_string(), 5), ("/r".to_string(), 2), ("/r/a".to_string(), 2)]
    );
}

#[test]
fn scan_error_is_passed_on() {
    let mut cache = ProjectCache::new(vec![], vec![("/r".to_string(), 1)]);
    let result = cache.validate_and_update(
        &|_: &str| true,
        &|_: &str| None,
        &|_: &str| Err::<(Vec<String>, Vec<(String, u64)>), &str>("boom"),
    );
    assert_eq!(result, Err("boom"));
}

#[test]
fn scan_error_keeps_update_time_and_comes_from_a_changed_root() {
    let mut cache = ProjectCache::new_at(
        vec!["/r/a".to_string()],
        vec![("/r".to_string(), 1), ("/r/a".to_string(), 1), ("/s".to_string(), 1)],
        77,
    );
    let asked = RefCell::new(Vec::new());
    let result = cache.validate_and_update(
        &|_: &str| true,
        &|d: &str| if d == "/s" { Some(1) } else { Some(2) },
        &|root: &str| {
            asked.borrow_mut().push(root.to_string());
            Err::<(Vec<String>, Vec<(String, u64)>), &str>("boom")
        },
    );
    assert_eq!(result, Err("boom"));
    assert_eq!(asked.into_inner(), s(&["/r"]));
    assert_eq!(cache.last_updated, 77);
}

#[test]
fn age_and_new_at() {
    let cache = ProjectCache::new_at(vec![], vec![], 100);
    assert_eq!(cache.last_updated, 100);
    assert_eq!(cache.age_at(160), 60);
    assert_eq!(cache.age_at(50), 0);
}

#[test]
fn prune_and_changed_dirs() {
    let mut cache = ProjectCache::new(s(&["/a", "/b", "/c"]), vec![("/a".to_string(), 1), ("/b".to_string(), 2)]);
    assert!(cache.prune_missing(&[true, false, true]));
    assert_eq!(cache.projects, s(&["/a", "/c"]));
    assert!(!cache.prune_missing(&[true, true]));
    assert_eq!(cache.changed_dirs(&[Some(1), None]), s(&["/b"]));
    assert_eq!(cache.changed_dirs(&[Some(9), Some(2)]), s(&["/a"]));
}

#[test]
fn time_entries_stay_unique() {
    let mut v: Vec<(String, u64)> = vec![];
    insert_time(&mut v, "/a".to_string(), 1);
    insert_time(&mut v, "/b".to_string(), 2);
    insert_time(&mut v, "/a".to_string(), 3);
    assert_eq!(v, vec![("/a".to_string(), 3), ("/b".to_string(), 2)]);
    extend_times(&mut v, vec![("/c".to_string(), 4), ("/b".to_string(), 5)]);
    assert_eq!(v.len(), 3);
    assert!(v.contains(&("/b".to_string(), 5)));
    retain_times_outside(&mut v, "/a");
    assert!(!v.iter().any(|e| e.0 == "/a"));
    let mut p = s(&["/a/x", "/ab", "/b"]);
    retain_outside(&mut p, "/a");
    assert_eq!(p, s(&["/ab", "/b"]));
}

#[test]
fn sort_and_dedup() {
    assert_eq!(dedup_path_list(s(&["/a", "/a", "/b", "/a"])), s(&["/a", "/b", "/a"]));
    assert_eq!(sort_dedup_paths(s(&["/b", "/a", "/b"])), s(&["/a", "/b"]));
    assert_eq!(dedup_path_list(s(&["/a/", "/a"])), s(&["/a/"]));
}

#[test]
fn cache_file_location() {
    assert_eq!(
        cache_path_from(Some("/c".to_string())),
        Ok(("/c/tmuxido".to_string(), "/c/tmuxido/projects.json".to_string()))
    );
    assert!(cache_path_from(None).is_err());
}

#[test]
fn cache_from_stored_keeps_one_time_per_directory() {
    let c = ProjectCache::from_stored(
        vec!["/p/a".to_string()],
        42,
        vec![("/p".to_string(), 1), ("/q".to_string(), 2), ("/p".to_string(), 3)],
    );
    assert_eq!(c.projects, vec!["/p/a".to_string()]);
    assert_eq!(c.last_updated, 42);
    let mut times = c.dir_mtimes.clone();
    times.sort();
    assert_eq!(times, vec![("/p".to_string(), 3), ("/q".to_string(), 2)]);
}

#[test]
fn times_are_keyed_by_path() {
    let mut v: Vec<(String, u64)> = Vec::new();
    insert_time(&mut v, "/a/b".to_string(), 1);
    insert_time(&mut v, "/a/b/".to_string(), 2);
    insert_time(&mut v, "/a/c".to_string(), 3);
    assert_eq!(v, vec![("/a/b".to_string(), 2), ("/a/c".to_string(), 3)]);
    let c = ProjectCache::from_stored(vec![], 0, vec![("/r/".to_string(), 1), ("/r".to_string(), 5)]);
    assert_eq!(c.dir_mtimes, vec![("/r/".to_string(), 5)]);
}

#[test]
fn update_at_sets_the_time_and_reports_the_first_failing_root() {
    let mut cache = ProjectCache::new_at(
        vec!["/r/a".to_string()],
        vec![("/r".to_string(), 1), ("/s".to_string(), 1)],
        7,
    );
    let result = cache.validate_and_update_at(
        500,
        &|_: &str| true,
        &|_: &str| Some(2),
        &|root: &str| {
            if root == "/r" {
                Ok((vec!["/r/b".to_string()], vec![("/r".to_string(), 2)]))
            } else {
                Ok((vec![], vec![("/s".to_string(), 2)]))
            }
        },
    );
    assert_eq!(result, Ok::<bool, &str>(true));
    assert_eq!(cache.last_updated, 500);
    let mut cache = ProjectCache::new_at(
        vec![],
        vec![("/r".to_string(), 1), ("/s".to_string(), 1)],
        7,
    );
    let result = cache.validate_and_update_at(
        500,
        &|_: &str| true,
        &|_: &str| Some(2),
        &|root: &str| Err::<(Vec<String>, Vec<(String, u64)>), String>(format!("failed {}", root)),
    );
    assert_eq!(result, Err("failed /r".to_string()));
    assert_eq!(cache.last_updated, 7);
}

#[test]
fn update_without_times_reads_no_time_and_rescans_nothing() {
    let mut cache = ProjectCache::new_at(vec!["/p/a".to_string(), "/p/b".to_string()], vec![], 9);
    let result = cache.validate_and_update_at(
        100,
        &|p: &str| p == "/p/a",
        &|_: &str| -> Option<u64> { panic!("no time is read without stored times") },
        &|_: &str| -> Result<(Vec<String>, Vec<(String, u64)>), &str> { panic!("no rescan without stored times") },
    );
    assert_eq!(result, Ok(true));
    assert_eq!(cache.projects, vec!["/p/a".to_string()]);
    assert_eq!(cache.last_updated, 9);
}

#[test]
fn only_changed_directories_are_rescanned() {
    let mut cache = ProjectCache::new_at(
        vec!["/r/a".to_string(), "/s/b".to_string()],
        vec![("/r".to_string(), 1), ("/s".to_string(), 1), ("/t".to_string(), 1)],
        7,
    );
    let asked = RefCell::new(Vec::new());
    let result = cache.validate_and_update_at(
        50,
        &|_: &str| true,
        &|d: &str| if d == "/s" { Some(9) } else { Some(1) },
        &|root: &str| {
            asked.borrow_mut().push(root.to_string());
            Ok::<(Vec<String>, Vec<(String, u64)>), &str>((vec!["/s/c".to_string()], vec![("/s".to_string(), 9)]))
        },
    );
    assert_eq!(result, Ok(true));
    assert_eq!(asked.into_inner(), s(&["/s"]));
    assert_eq!(cache.projects, s(&["/r/a", "/s/c"]));
}
