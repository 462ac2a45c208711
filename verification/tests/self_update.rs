use tmuxido::release::{latest_tag_in, ReleaseError};
use std::cmp::Ordering;
use tmuxido::self_update::{
    asset_for_arch, current_version, download_url, latest_release_url, update_decision,
    version_compare, version_of_tag, UpdateDecision,
};

#[test]
fn should_detect_current_version() {
    let version = current_version();
    // Version should be non-empty and contain dots
    assert!(!version.is_empty());
    assert!(version.contains('.'));
}

#[test]
fn should_compare_versions_correctly() {
    assert_eq!(version_compare("0.3.0", "0.2.4"), Ordering::Greater);
    assert_eq!(version_compare("0.2.4", "0.3.0"), Ordering::Less);
    assert_eq!(version_compare("0.3.0", "0.3.0"), Ordering::Equal);
    assert_eq!(version_compare("1.0.0", "0.9.9"), Ordering::Greater);
    assert_eq!(version_compare("0.10.0", "0.9.0"), Ordering::Greater);
}

// --- the library's own ---

#[test]
fn longer_version_with_same_prefix_is_greater() {
    assert_eq!(version_compare("1.2.3", "1.2"), Ordering::Greater);
    assert_eq!(version_compare("1.2", "1.2.0"), Ordering::Less);
    assert_eq!(version_compare("1.x.3", "1.3"), Ordering::Equal);
    assert_eq!(version_compare("", ""), Ordering::Equal);
}

#[test]
fn version_comparison_is_antisymmetric_on_examples() {
    let vs = ["0.1.0", "0.10.0", "1.0", "1.0.0", "2", "0.9.99"];
    for a in vs {
        for b in vs {
            assert_eq!(version_compare(a, b), version_compare(b, a).reverse());
        }
        assert_eq!(version_compare(a, a), Ordering::Equal);
    }
}

#[test]
fn update_decision_follows_version_order() {
    assert_eq!(update_decision("0.9.1", "v0.9.1"), UpdateDecision::AlreadyUpToDate);
    assert_eq!(update_decision("0.9.1", "v0.9.0"), UpdateDecision::CurrentIsNewer);
    assert_eq!(update_decision("0.9.1", "v0.10.0"), UpdateDecision::Install);
    assert_eq!(update_decision("0.9.1", "0.9.1.0"), UpdateDecision::Install);
    assert_eq!(update_decision("0.9.1", "v0.9.01"), UpdateDecision::AlreadyUpToDate);
    assert_eq!(version_of_tag("vv1.2"), "1.2");
}

#[test]
fn release_addresses_and_assets() {
    assert_eq!(
        latest_release_url(),
        "https://git.cincoeuzebio.com/api/v1/repos/cinco/Tmuxido/releases?limit=1&page=1"
    );
    assert_eq!(
        download_url("v1.0.0", "tmuxido-x86_64-linux"),
        "https://git.cincoeuzebio.com/cinco/Tmuxido/releases/download/v1.0.0/tmuxido-x86_64-linux"
    );
    assert_eq!(asset_for_arch("x86_64"), Some("tmuxido-x86_64-linux"));
    assert_eq!(asset_for_arch("aarch64"), Some("tmuxido-aarch64-linux"));
    assert_eq!(asset_for_arch("riscv64"), None);
}

#[test]
fn latest_tag_is_read_from_the_release_listing() {
    assert_eq!(
        latest_tag_in(r#"[{"tag_name":"v1.2.3","name":"x"}]"#),
        Ok("v1.2.3".to_string())
    );
    assert_eq!(latest_tag_in("[]"), Err(ReleaseError::NoTagName));
    assert_eq!(latest_tag_in(r#"[{"name":"x"}]"#), Err(ReleaseError::NoTagName));
    assert_eq!(latest_tag_in("not json"), Err(ReleaseError::Unparsable));
    assert_eq!(
        ReleaseError::Unparsable.message(),
        "Failed to parse release API response"
    );
}
