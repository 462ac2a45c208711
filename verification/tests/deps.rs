use tmuxido::deps::{install_plan, plan_dependencies, InstallPlan};
use tmuxido::deps::{
    binary_names_joined, check_missing, declines_install, detect_package_manager,
    failure_message, BinaryChecker, Dep, InstallFailure, PackageManager,
};

struct MockChecker {
    available: Vec<String>,
}

impl MockChecker {
    fn with(available: &[&str]) -> Self {
        Self {
            available: available.iter().map(|s| s.to_string()).collect(),
        }
    }
}

impl BinaryChecker for MockChecker {
    fn is_available(&self, name: &str) -> bool {
        self.available.iter().any(|s| s == name)
    }
}

/// Looks for the binary in the usual system directories.
struct SystemBinaryChecker;

impl BinaryChecker for SystemBinaryChecker {
    fn is_available(&self, name: &str) -> bool {
        ["/usr/local/bin", "/usr/bin", "/bin", "/usr/sbin", "/sbin"]
            .iter()
            .any(|dir| std::path::Path::new(dir).join(name).exists())
    }
}

// --- Dep ---

#[test]
fn should_return_fzf_binary_name() {
    assert_eq!(Dep::Fzf.binary_name(), "fzf");
}

#[test]
fn should_return_tmux_binary_name() {
    assert_eq!(Dep::Tmux.binary_name(), "tmux");
}

#[test]
fn should_include_fzf_and_tmux_in_all_deps() {
    let deps = Dep::all();
    assert!(deps.contains(&Dep::Fzf));
    assert!(deps.contains(&Dep::Tmux));
}

#[test]
fn should_return_same_package_name_as_binary_for_fzf() {
    assert_eq!(Dep::Fzf.package_name(), "fzf");
}

#[test]
fn should_return_same_package_name_as_binary_for_tmux() {
    assert_eq!(Dep::Tmux.package_name(), "tmux");
}

// --- check_missing ---

#[test]
fn should_return_empty_when_all_deps_present() {
    let checker = MockChecker::with(&["fzf", "tmux"]);
    assert!(check_missing(&checker).is_empty());
}

#[test]
fn should_detect_fzf_as_missing_when_only_tmux_present() {
    let checker = MockChecker::with(&["tmux"]);
    let missing = check_missing(&checker);
    assert_eq!(missing, vec![Dep::Fzf]);
}

#[test]
fn should_detect_tmux_as_missing_when_only_fzf_present() {
    let checker = MockChecker::with(&["fzf"]);
    let missing = check_missing(&checker);
    assert_eq!(missing, vec![Dep::Tmux]);
}

#[test]
fn should_detect_both_missing_when_none_present() {
    let checker = MockChecker::with(&[]);
    let missing = check_missing(&checker);
    assert_eq!(missing.len(), 2);
    assert!(missing.contains(&Dep::Fzf));
    assert!(missing.contains(&Dep::Tmux));
}

// --- detect_package_manager ---

#[test]
fn should_detect_apt_when_available() {
    let checker = MockChecker::with(&["apt"]);
    assert_eq!(detect_package_manager(&checker), Some(PackageManager::Apt));
}

#[test]
fn should_detect_pacman_when_available() {
    let checker = MockChecker::with(&["pacman"]);
    assert_eq!(detect_package_manager(&checker), Some(PackageManager::Pacman));
}

#[test]
fn should_detect_dnf_when_available() {
    let checker = MockChecker::with(&["dnf"]);
    assert_eq!(detect_package_manager(&checker), Some(PackageManager::Dnf));
}

#[test]
fn should_detect_xbps_when_xbps_install_available() {
    let checker = MockChecker::with(&["xbps-install"]);
    assert_eq!(detect_package_manager(&checker), Some(PackageManager::Xbps));
}

#[test]
fn should_detect_apk_when_available() {
    let checker = MockChecker::with(&["apk"]);
    assert_eq!(detect_package_manager(&checker), Some(PackageManager::Apk));
}

#[test]
fn should_return_none_when_no_pm_detected() {
    let checker = MockChecker::with(&["ls", "sh"]);
    assert_eq!(detect_package_manager(&checker), None);
}

#[test]
fn should_prefer_apt_over_pacman_when_both_available() {
    let checker = MockChecker::with(&["apt", "pacman"]);
    assert_eq!(detect_package_manager(&checker), Some(PackageManager::Apt));
}

// --- PackageManager::install_command ---

#[test]
fn should_build_apt_install_command() {
    let cmd = PackageManager::Apt.install_command(&["fzf", "tmux"]);
    assert_eq!(cmd, vec!["sudo", "apt", "install", "-y", "fzf", "tmux"]);
}

#[test]
fn should_build_pacman_install_command() {
    let cmd = PackageManager::Pacman.install_command(&["fzf", "tmux"]);
    assert_eq!(cmd, vec!["sudo", "pacman", "-S", "--noconfirm", "fzf", "tmux"]);
}

#[test]
fn should_build_dnf_install_command() {
    let cmd = PackageManager::Dnf.install_command(&["fzf"]);
    assert_eq!(cmd, vec!["sudo", "dnf", "install", "-y", "fzf"]);
}

#[test]
fn should_build_yum_install_command() {
    let cmd = PackageManager::Yum.install_command(&["tmux"]);
    assert_eq!(cmd, vec!["sudo", "yum", "install", "-y", "tmux"]);
}

#[test]
fn should_build_zypper_install_command() {
    let cmd = PackageManager::Zypper.install_command(&["fzf", "tmux"]);
    assert_eq!(cmd, vec!["sudo", "zypper", "install", "-y", "fzf", "tmux"]);
}

#[test]
fn should_build_emerge_install_command() {
    let cmd = PackageManager::Emerge.install_command(&["fzf"]);
    assert_eq!(cmd, vec!["sudo", "emerge", "fzf"]);
}

#[test]
fn should_build_xbps_install_command() {
    let cmd = PackageManager::Xbps.install_command(&["tmux"]);
    assert_eq!(cmd, vec!["sudo", "xbps-install", "-y", "tmux"]);
}

#[test]
fn should_build_apk_install_command() {
    let cmd = PackageManager::Apk.install_command(&["fzf", "tmux"]);
    assert_eq!(cmd, vec!["sudo", "apk", "add", "fzf", "tmux"]);
}

#[test]
fn should_build_command_for_single_package() {
    let cmd = PackageManager::Apt.install_command(&["fzf"]);
    assert_eq!(cmd, vec!["sudo", "apt", "install", "-y", "fzf"]);
}

#[test]
fn should_include_sudo_for_all_package_managers() {
    for pm in PackageManager::all_ordered() {
        let cmd = pm.install_command(&["fzf"]);
        assert_eq!(
            cmd.first().map(String::as_str),
            Some("sudo"),
            "{} install command should start with sudo",
            pm.display_name()
        );
    }
}

#[test]
fn should_include_all_packages_in_command() {
    let cmd = PackageManager::Apt.install_command(&["fzf", "tmux", "git"]);
    assert!(cmd.contains(&"fzf".to_string()));
    assert!(cmd.contains(&"tmux".to_string()));
    assert!(cmd.contains(&"git".to_string()));
}

// --- on this system ---

#[test]
fn should_detect_some_package_manager_on_linux() {
    let checker = SystemBinaryChecker;
    let pm = detect_package_manager(&checker);
    assert!(
        pm.is_some(),
        "Expected to detect at least one package manager on this Linux system"
    );
}

// --- PackageManager metadata completeness ---

#[test]
fn all_package_managers_have_non_empty_detection_binary() {
    for pm in PackageManager::all_ordered() {
        assert!(
            !pm.detection_binary().is_empty(),
            "{:?} has empty detection binary",
            pm
        );
    }
}

#[test]
fn all_package_managers_have_non_empty_display_name() {
    for pm in PackageManager::all_ordered() {
        assert!(!pm.display_name().is_empty(), "{:?} has empty display name", pm);
    }
}

#[test]
fn install_command_always_starts_with_sudo() {
    let packages = &["fzf", "tmux"];
    for pm in PackageManager::all_ordered() {
        let cmd = pm.install_command(packages);
        assert_eq!(
            cmd.first().map(String::as_str),
            Some("sudo"),
            "{} install command should start with sudo",
            pm.display_name()
        );
    }
}

#[test]
fn install_command_always_contains_requested_packages() {
    let packages = &["fzf", "tmux"];
    for pm in PackageManager::all_ordered() {
        let cmd = pm.install_command(packages);
        assert!(cmd.contains(&"fzf".to_string()), "{} command missing 'fzf'", pm.display_name());
        assert!(cmd.contains(&"tmux".to_string()), "{} command missing 'tmux'", pm.display_name());
    }
}

// --- Dep completeness ---

#[test]
fn dep_package_names_are_standard() {
    assert_eq!(Dep::Fzf.package_name(), "fzf");
    assert_eq!(Dep::Tmux.package_name(), "tmux");
}

#[test]
fn all_deps_have_matching_binary_and_package_names() {
    for dep in Dep::all() {
        assert!(!dep.binary_name().is_empty());
        assert!(!dep.package_name().is_empty());
    }
}

// --- the library's own ---

#[test]
fn detection_binaries_and_names_follow_detection_order() {
    let bins: Vec<&str> = PackageManager::all_ordered()
        .iter()
        .map(|pm| pm.detection_binary())
        .collect();
    assert_eq!(
        bins,
        vec!["apt", "pacman", "dnf", "yum", "zypper", "emerge", "xbps-install", "apk"]
    );
    assert_eq!(PackageManager::Xbps.display_name(), "xbps-install (Void Linux)");
}

#[test]
fn missing_tools_are_named_with_and() {
    assert_eq!(binary_names_joined(&[Dep::Fzf, Dep::Tmux]), "fzf and tmux");
    assert_eq!(binary_names_joined(&[Dep::Tmux]), "tmux");
    assert_eq!(binary_names_joined(&[]), "");
}

#[test]
fn install_failures_name_the_missing_tools() {
    assert_eq!(
        failure_message(InstallFailure::NoPackageManager, &[Dep::Fzf, Dep::Tmux]),
        "No supported package manager found. Please install fzf and tmux manually."
    );
    assert_eq!(
        failure_message(InstallFailure::Cancelled, &[Dep::Fzf]),
        "Installation cancelled. Please install fzf manually before running tmuxido."
    );
    assert_eq!(
        failure_message(InstallFailure::Failed, &[Dep::Tmux]),
        "Installation failed. Please install tmux manually."
    );
}

#[test]
fn only_n_or_no_declines_installation() {
    assert!(declines_install("n"));
    assert!(declines_install("  NO \n"));
    assert!(!declines_install(""));
    assert!(!declines_install("y"));
    assert!(!declines_install("nope"));
}

#[test]
fn plan_asks_to_install_missing_packages() {
    assert!(matches!(install_plan(vec![], None), InstallPlan::NothingMissing));
    match install_plan(vec![Dep::Fzf, Dep::Tmux], None) {
        InstallPlan::NoPackageManager { missing, message } => {
            assert_eq!(missing, vec![Dep::Fzf, Dep::Tmux]);
            assert_eq!(
                message,
                "No supported package manager found. Please install fzf and tmux manually."
            );
        }
        _ => panic!("expected a failure"),
    }
    match install_plan(vec![Dep::Tmux], Some(PackageManager::Pacman)) {
        InstallPlan::Confirm { missing, manager, command } => {
            assert_eq!(missing, vec![Dep::Tmux]);
            assert_eq!(manager, PackageManager::Pacman);
            assert_eq!(command, vec!["sudo", "pacman", "-S", "--noconfirm", "tmux"]);
        }
        _ => panic!("expected a confirmation"),
    }
    let checker = MockChecker::with(&["fzf", "tmux"]);
    assert!(matches!(plan_dependencies(&checker), InstallPlan::NothingMissing));
    let checker = MockChecker::with(&["fzf", "dnf"]);
    match plan_dependencies(&checker) {
        InstallPlan::Confirm { command, .. } => {
            assert_eq!(command, vec!["sudo", "dnf", "install", "-y", "tmux"])
        }
        _ => panic!("expected a confirmation"),
    }
}

// --- check_missing on the real system ---

#[test]
fn check_missing_returns_only_actually_missing_tools() {
    let checker = SystemBinaryChecker;
    let missing = check_missing(&checker);
    for dep in &missing {
        assert!(
            !checker.is_available(dep.binary_name()),
            "{} reported as missing but it is installed",
            dep.binary_name()
        );
    }
}

#[test]
fn check_missing_does_not_report_present_tools_as_missing() {
    let checker = SystemBinaryChecker;
    let missing = check_missing(&checker);
    let missing_names: Vec<&str> = missing.iter().map(|d| d.binary_name()).collect();
    for dep in Dep::all() {
        if !missing_names.contains(&dep.binary_name()) {
            assert!(
                checker.is_available(dep.binary_name()),
                "{} not in missing list but it is not installed",
                dep.binary_name()
            );
        }
    }
}

/// Records every binary it is asked about.
struct RecordingChecker {
    available: Vec<String>,
    asked: std::cell::RefCell<Vec<String>>,
}

impl BinaryChecker for RecordingChecker {
    fn is_available(&self, name: &str) -> bool {
        self.asked.borrow_mut().push(name.to_string());
        self.available.iter().any(|s| s == name)
    }
}

#[test]
fn detection_stops_at_the_first_available_manager() {
    let checker = RecordingChecker {
        available: vec!["pacman".to_string(), "apk".to_string()],
        asked: std::cell::RefCell::new(Vec::new()),
    };
    assert_eq!(detect_package_manager(&checker), Some(PackageManager::Pacman));
    assert_eq!(checker.asked.into_inner(), vec!["apt".to_string(), "pacman".to_string()]);
}
