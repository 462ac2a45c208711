use std::cell::RefCell;
use std::time::{SystemTime, UNIX_EPOCH};
use tmuxido::self_update;
use tmuxido::update_check::{
    check_and_notify_at, check_and_notify_internal, elapsed_hours_at, pad_to_chars, record_fetch,
    update_available, update_check_path_from, update_notice_lines, UpdateCheckCache,
};

fn make_cache(last_checked: u64, latest_version: &str) -> UpdateCheckCache {
    UpdateCheckCache {
        last_checked,
        latest_version: latest_version.to_string(),
    }
}

fn now_ts() -> u64 {
    SystemTime::now()
        .duration_since(UNIX_EPOCH)
        .unwrap_or_default()
        .as_secs()
}

#[test]
fn should_not_notify_when_interval_is_zero() {
    let cache = make_cache(0, "99.0.0");
    let fetcher_called = RefCell::new(false);

    let result = check_and_notify_internal(
        0,
        cache,
        &|| {
            *fetcher_called.borrow_mut() = true;
            Ok::<String, ()>("99.0.0".to_string())
        },
        &|_| {},
    );

    assert!(!result);
    assert!(!fetcher_called.into_inner());
}

#[test]
fn should_not_check_when_interval_not_elapsed() {
    let cache = make_cache(now_ts(), "");
    let fetcher_called = RefCell::new(false);

    check_and_notify_internal(
        24,
        cache,
        &|| {
            *fetcher_called.borrow_mut() = true;
            Ok::<String, ()>("99.0.0".to_string())
        },
        &|_| {},
    );

    assert!(!fetcher_called.into_inner());
}

#[test]
fn should_check_when_interval_elapsed() {
    let cache = make_cache(0, "");
    let fetcher_called = RefCell::new(false);

    check_and_notify_internal(
        1,
        cache,
        &|| {
            *fetcher_called.borrow_mut() = true;
            Ok::<String, ()>(self_update::current_version().to_string())
        },
        &|_| {},
    );

    assert!(fetcher_called.into_inner());
}

#[test]
fn should_not_notify_when_versions_equal() {
    let current = self_update::current_version();
    let cache = make_cache(now_ts(), current);

    let result = check_and_notify_internal(
        24,
        cache,
        &|| -> Result<String, ()> { unreachable!() },
        &|_| {},
    );

    assert!(!result);
}

#[test]
fn should_detect_update_available() {
    let cache = make_cache(now_ts(), "99.0.0");

    let result = check_and_notify_internal(
        24,
        cache,
        &|| -> Result<String, ()> { unreachable!() },
        &|_| {},
    );

    assert!(result);
}

#[test]
fn should_not_detect_update_when_current_is_newer() {
    let cache = make_cache(now_ts(), "0.0.1");

    let result = check_and_notify_internal(
        24,
        cache,
        &|| -> Result<String, ()> { unreachable!() },
        &|_| {},
    );

    assert!(!result);
}

#[test]
fn fetched_tag_is_saved_without_v_and_decides() {
    let saved = RefCell::new(None);
    let result = check_and_notify_at(
        24,
        100 * 3600,
        make_cache(0, ""),
        &|| Ok::<String, ()>("v99.1.0".to_string()),
        &|c: &UpdateCheckCache| {
            *saved.borrow_mut() = Some((c.last_checked, c.latest_version.clone()));
        },
    );
    assert!(result);
    assert_eq!(saved.into_inner(), Some((100 * 3600, "99.1.0".to_string())));
}

#[test]
fn failed_fetch_keeps_the_record_and_saves_nothing() {
    let saved = RefCell::new(false);
    let result = check_and_notify_at(
        1,
        10 * 3600,
        make_cache(0, "99.0.0"),
        &|| Err::<String, ()>(()),
        &|_| {
            *saved.borrow_mut() = true;
        },
    );
    assert!(result);
    assert!(!saved.into_inner());
}

#[test]
fn record_fetch_and_elapsed_hours() {
    let c = record_fetch(make_cache(5, "1.0.0"), 42, Ok::<String, ()>("v2.0.0".to_string()));
    assert_eq!((c.last_checked, c.latest_version.as_str()), (42, "2.0.0"));
    let c = record_fetch(make_cache(5, "1.0.0"), 42, Err::<String, ()>(()));
    assert_eq!((c.last_checked, c.latest_version.as_str()), (5, "1.0.0"));
    assert_eq!(elapsed_hours_at(7200, 0), 2);
    assert_eq!(elapsed_hours_at(7199, 0), 1);
    assert_eq!(elapsed_hours_at(0, 7200), 0);
}

#[test]
fn update_available_strips_v_and_compares() {
    assert_eq!(update_available("v1.2.0", "1.1.9"), Some("1.2.0".to_string()));
    assert_eq!(update_available("1.1.9", "1.1.9"), None);
    assert_eq!(update_available("", "0.0.1"), None);
    assert_eq!(update_available("v", "0.0.1"), None);
}

#[test]
fn notice_is_a_padded_box() {
    assert_eq!(pad_to_chars("ab", 4), "ab  ");
    assert_eq!(pad_to_chars("abcdef", 4), "abcdef");
    let lines = update_notice_lines("0.9.1", "1.0.0");
    let msg1 = "  Update available: 0.9.1 \u{2192} 1.0.0  ";
    let msg2 = "  Run tmuxido --update to install.  ";
    let width = msg2.chars().count().max(msg1.chars().count());
    assert_eq!(lines.len(), 4);
    assert_eq!(lines[0], format!("\u{250c}{}\u{2510}", "\u{2500}".repeat(width)));
    assert_eq!(lines[1], format!("\u{2502}{:<w$}\u{2502}", msg1, w = width));
    assert_eq!(lines[2], format!("\u{2502}{:<w$}\u{2502}", msg2, w = width));
    assert_eq!(lines[3], format!("\u{2514}{}\u{2518}", "\u{2500}".repeat(width)));
}

#[test]
fn update_check_file_lives_in_the_cache_folder() {
    assert_eq!(
        update_check_path_from(Some("/c".to_string())),
        Ok(("/c/tmuxido".to_string(), "/c/tmuxido/update_check.json".to_string()))
    );
    assert!(update_check_path_from(None).is_err());
}
