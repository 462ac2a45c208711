//! The external tools that tmuxido needs and the package managers that can
//! install them.
use vstd::prelude::*;
use crate::text::{chars_of, concat, join, join_strings, lower, owned, owned_all, str_eq, strs, to_lower, trim, trim_chars, CharClass};

verus! {

/// Required external tool dependencies.
#[derive(Debug, Clone, Copy, PartialEq, Eq, Structural)]
pub enum Dep {
    Fzf,
    Tmux,
}

/// Supported Linux package managers.
#[derive(Debug, Clone, Copy, PartialEq, Eq, Structural)]
pub enum PackageManager {
    Apt,
    Pacman,
    Dnf,
    Yum,
    Zypper,
    Emerge,
    Xbps,
    Apk,
}

/// Tells whether a program can be found; the library asks it and decides on
/// what it answers.
pub trait BinaryChecker {
    /// Whether `r` is an answer this checker may give when asked about the
    /// program `name`; a checker that says nothing more may give any.
    open spec fn answered(&self, name: Seq<char>, r: bool) -> bool {
        true
    }

    /// Whether the program `name` can be found.
    fn is_available(&self, name: &str) -> (r: bool)
        ensures
            self.answered(name@, r),
    ;
}

/// Whether `available[i]` is an answer `checker` gave about the binary of
/// `Dep::all()[i]`, for each dependency.
pub open spec fn answers_for_deps<C: BinaryChecker>(checker: C, available: Seq<bool>) -> bool {
    &&& available.len() == all_deps().len()
    &&& forall|j: int|
        0 <= j < available.len() ==> #[trigger] checker.answered(dep_binary(all_deps()[j]), available[j])
}


/// Every dependency, in the order they are checked.
pub open spec fn all_deps() -> Seq<Dep> {
    seq![Dep::Fzf, Dep::Tmux]
}

/// The binary that provides a dependency.
pub open spec fn dep_binary(d: Dep) -> Seq<char> {
    match d {
        Dep::Fzf => "fzf"@,
        Dep::Tmux => "tmux"@,
    }
}

/// The package that provides a dependency.
pub open spec fn dep_package(d: Dep) -> Seq<char> {
    match d {
        Dep::Fzf => "fzf"@,
        Dep::Tmux => "tmux"@,
    }
}

/// Every package manager, most specific first.
pub open spec fn all_managers() -> Seq<PackageManager> {
    seq![
        PackageManager::Apt,
        PackageManager::Pacman,
        PackageManager::Dnf,
        PackageManager::Yum,
        PackageManager::Zypper,
        PackageManager::Emerge,
        PackageManager::Xbps,
        PackageManager::Apk,
    ]
}

/// The binary whose presence shows a package manager.
pub open spec fn manager_binary(pm: PackageManager) -> Seq<char> {
    match pm {
        PackageManager::Apt => "apt"@,
        PackageManager::Pacman => "pacman"@,
        PackageManager::Dnf => "dnf"@,
        PackageManager::Yum => "yum"@,
        PackageManager::Zypper => "zypper"@,
        PackageManager::Emerge => "emerge"@,
        PackageManager::Xbps => "xbps-install"@,
        PackageManager::Apk => "apk"@,
    }
}

/// The human-readable name of a package manager.
pub open spec fn manager_display(pm: PackageManager) -> Seq<char> {
    match pm {
        PackageManager::Apt => "apt (Debian/Ubuntu)"@,
        PackageManager::Pacman => "pacman (Arch Linux)"@,
        PackageManager::Dnf => "dnf (Fedora)"@,
        PackageManager::Yum => "yum (RHEL/CentOS)"@,
        PackageManager::Zypper => "zypper (openSUSE)"@,
        PackageManager::Emerge => "emerge (Gentoo)"@,
        PackageManager::Xbps => "xbps-install (Void Linux)"@,
        PackageManager::Apk => "apk (Alpine Linux)"@,
    }
}

/// The words of an install command between `sudo` and the packages.
pub open spec fn manager_install_words(pm: PackageManager) -> Seq<Seq<char>> {
    match pm {
        PackageManager::Apt => seq!["apt"@, "install"@, "-y"@],
        PackageManager::Pacman => seq!["pacman"@, "-S"@, "--noconfirm"@],
        PackageManager::Dnf => seq!["dnf"@, "install"@, "-y"@],
        PackageManager::Yum => seq!["yum"@, "install"@, "-y"@],
        PackageManager::Zypper => seq!["zypper"@, "install"@, "-y"@],
        PackageManager::Emerge => seq!["emerge"@],
        PackageManager::Xbps => seq!["xbps-install"@, "-y"@],
        PackageManager::Apk => seq!["apk"@, "add"@],
    }
}

/// The members `items[i]` for which `available[i]` is false, in order.
pub open spec fn missing_from<T>(items: Seq<T>, available: Seq<bool>) -> Seq<T>
    decreases available.len(),
{
    if available.len() == 0 {
        Seq::<T>::empty()
    } else {
        let i = available.len() - 1;
        let rest = missing_from(items, available.drop_last());
        if available[i] {
            rest
        } else {
            rest.push(items[i])
        }
    }
}

/// The first `items[i]` for which `available[i]` is true.
pub open spec fn first_available<T>(items: Seq<T>, available: Seq<bool>) -> Option<T>
    decreases available.len(),
{
    if available.len() == 0 {
        None
    } else if available[0] {
        Some(items[0])
    } else {
        first_available(items.drop_first(), available.drop_first())
    }
}

impl Dep {
    /// Every dependency: fzf, then tmux.
    pub fn all() -> (r: Vec<Self>)
        ensures
            r@ == all_deps(),
    {
        let r = vec![Dep::Fzf, Dep::Tmux];
        assert(r@ =~= all_deps());
        r
    }

    /// The binary that provides this dependency.
    pub fn binary_name(&self) -> (r: &'static str)
        ensures
            r@ == dep_binary(*self),
    {
        match self {
            Dep::Fzf => "fzf",
            Dep::Tmux => "tmux",
        }
    }

    /// The package that provides this dependency.
    pub fn package_name(&self) -> (r: &'static str)
        ensures
            r@ == dep_package(*self),
    {
        match self {
            Dep::Fzf => "fzf",
            Dep::Tmux => "tmux",
        }
    }
}

impl PackageManager {
    /// Every package manager, in detection order: more specific ones first.
    pub fn all_ordered() -> (r: Vec<Self>)
        ensures
            r@ == all_managers(),
    {
        let r = vec![
            PackageManager::Apt,
            PackageManager::Pacman,
            PackageManager::Dnf,
            PackageManager::Yum,
            PackageManager::Zypper,
            PackageManager::Emerge,
            PackageManager::Xbps,
            PackageManager::Apk,
        ];
        assert(r@ =~= all_managers());
        r
    }

    /// The binary used to detect whether this package manager is installed.
    pub fn detection_binary(&self) -> (r: &'static str)
        ensures
            r@ == manager_binary(*self),
    {
        match self {
            PackageManager::Apt => "apt",
            PackageManager::Pacman => "pacman",
            PackageManager::Dnf => "dnf",
            PackageManager::Yum => "yum",
            PackageManager::Zypper => "zypper",
            PackageManager::Emerge => "emerge",
            PackageManager::Xbps => "xbps-install",
            PackageManager::Apk => "apk",
        }
    }

    /// The name shown to the user.
    pub fn display_name(&self) -> (r: &'static str)
        ensures
            r@ == manager_display(*self),
    {
        match self {
            PackageManager::Apt => "apt (Debian/Ubuntu)",
            PackageManager::Pacman => "pacman (Arch Linux)",
            PackageManager::Dnf => "dnf (Fedora)",
            PackageManager::Yum => "yum (RHEL/CentOS)",
            PackageManager::Zypper => "zypper (openSUSE)",
            PackageManager::Emerge => "emerge (Gentoo)",
            PackageManager::Xbps => "xbps-install (Void Linux)",
            PackageManager::Apk => "apk (Alpine Linux)",
        }
    }

    fn install_words(&self) -> (r: Vec<String>)
        ensures
            crate::text::strs(r@) == manager_install_words(*self),
    {
        let words: Vec<&'static str> = match self {
            PackageManager::Apt => vec!["apt", "install", "-y"],
            PackageManager::Pacman => vec!["pacman", "-S", "--noconfirm"],
            PackageManager::Dnf => vec!["dnf", "install", "-y"],
            PackageManager::Yum => vec!["yum", "install", "-y"],
            PackageManager::Zypper => vec!["zypper", "install", "-y"],
            PackageManager::Emerge => vec!["emerge"],
            PackageManager::Xbps => vec!["xbps-install", "-y"],
            PackageManager::Apk => vec!["apk", "add"],
        };
        let ghost expected = manager_install_words(*self);
        assert(words@.map_values(|w: &str| w@) =~= expected);
        owned_all(&words)
    }

    /// The full install command: `sudo`, this manager's install words, then
    /// the packages.
    pub fn install_command(&self, packages: &[&str]) -> (r: Vec<String>)
        ensures
            crate::text::strs(r@) == seq!["sudo"@] + manager_install_words(*self)
                + packages@.map_values(|p: &str| p@),
    {
        let mut cmd: Vec<String> = Vec::new();
        cmd.push(owned("sudo"));
        let mut words = self.install_words();
        let mut rest = owned_all(packages);
        let ghost a = crate::text::strs(cmd@);
        let ghost b = crate::text::strs(words@);
        let ghost c = crate::text::strs(rest@);
        cmd.append(&mut words);
        assert(crate::text::strs(cmd@) =~= a + b);
        let ghost ab = crate::text::strs(cmd@);
        cmd.append(&mut rest);
        assert(crate::text::strs(cmd@) =~= ab + c);
        cmd
    }
}

/// The dependencies whose binaries are not available, when `available[i]`
/// tells whether the binary of `Dep::all()[i]` is.
pub fn missing_among(available: &[bool]) -> (r: Vec<Dep>)
    requires
        available@.len() == all_deps().len(),
    ensures
        r@ == missing_from(all_deps(), available@),
{
    let all = Dep::all();
    let mut r: Vec<Dep> = Vec::new();
    let mut i: usize = 0;
    while i < available.len()
        invariant
            i <= available@.len(),
            available@.len() == all@.len(),
            all@ == all_deps(),
            r@ == missing_from(all_deps(), available@.take(i as int)),
        decreases available@.len() - i,
    {
        assert(available@.take(i + 1).drop_last() =~= available@.take(i as int));
        if !available[i] {
            r.push(all[i]);
        }
        i = i + 1;
    }
    assert(available@.take(available@.len() as int) =~= available@);
    r
}


/// Returns the required dependencies that the checker reports missing, in
/// the order of `Dep::all()`. The checker is asked about the binary of each
/// dependency; whatever it answered, the result is what `missing_among`
/// gives for those answers.
pub fn check_missing<C: BinaryChecker>(checker: &C) -> (r: Vec<Dep>)
    ensures
        exists|available: Seq<bool>|
            #[trigger] answers_for_deps(*checker, available) && r@ == missing_from(
                all_deps(),
                available,
            ),
{
    let all = Dep::all();
    let mut available: Vec<bool> = Vec::new();
    let mut i: usize = 0;
    while i < all.len()
        invariant
            i <= all@.len(),
            all@ == all_deps(),
            available@.len() == i,
            forall|j: int|
                0 <= j < i ==> #[trigger] checker.answered(dep_binary(all_deps()[j]), available@[j]),
        decreases all@.len() - i,
    {
        let name = all[i].binary_name();
        let a = checker.is_available(name);
        available.push(a);
        i = i + 1;
    }
    assert(answers_for_deps(*checker, available@));
    missing_among(available.as_slice())
}

/// Whether `asked[j]` is an answer `checker` gave about the detection
/// binary of `PackageManager::all_ordered()[j]`, for the managers asked in
/// order until one was available: every answer before the last is `false`,
/// and fewer than all were asked only when the last answer is `true`.
pub open spec fn answers_until_found<C: BinaryChecker>(checker: C, asked: Seq<bool>) -> bool {
    &&& asked.len() <= all_managers().len()
    &&& forall|j: int|
        0 <= j < asked.len() ==> #[trigger] checker.answered(manager_binary(all_managers()[j]), asked[j])
    &&& forall|j: int| 0 <= j < asked.len() - 1 ==> !#[trigger] asked[j]
    &&& asked.len() < all_managers().len() ==> asked.len() > 0 && asked.last()
}

/// The package manager that answers asked until one was available name:
/// the last one asked when it was available, none otherwise.
pub open spec fn manager_found(asked: Seq<bool>) -> Option<PackageManager> {
    if asked.len() > 0 && asked.last() {
        Some(all_managers()[asked.len() - 1])
    } else {
        None
    }
}

/// Returns the first package manager in detection order that the checker
/// reports available. The checker is asked about the detection binary of
/// each package manager in order, and no more once one is available.
pub fn detect_package_manager<C: BinaryChecker>(checker: &C) -> (r: Option<PackageManager>)
    ensures
        exists|asked: Seq<bool>|
            #[trigger] answers_until_found(*checker, asked) && r == manager_found(asked),
{
    let all = PackageManager::all_ordered();
    let ghost mut asked: Seq<bool> = Seq::empty();
    let mut i: usize = 0;
    while i < all.len()
        invariant
            i <= all@.len(),
            all@ == all_managers(),
            asked.len() == i,
            forall|j: int|
                0 <= j < i ==> #[trigger] checker.answered(manager_binary(all_managers()[j]), asked[j]),
            forall|j: int| 0 <= j < i ==> !#[trigger] asked[j],
        decreases all@.len() - i,
    {
        let name = all[i].detection_binary();
        let a = checker.is_available(name);
        let ghost before = asked;
        proof {
            asked = asked.push(a);
            assert forall|j: int| 0 <= j < i + 1 implies #[trigger] checker.answered(
                manager_binary(all_managers()[j]),
                asked[j],
            ) by {
                if j < i {
                    assert(asked[j] == before[j]);
                }
            }
        }
        if a {
            assert(answers_until_found(*checker, asked)) by {
                assert forall|j: int| 0 <= j < asked.len() - 1 implies !#[trigger] asked[j] by {
                    assert(asked[j] == before[j]);
                }
            }
            assert(manager_found(asked) == Some(all@[i as int]));
            return Some(all[i]);
        }
        proof {
            assert forall|j: int| 0 <= j < i + 1 implies !#[trigger] asked[j] by {
                if j < i {
                    assert(asked[j] == before[j]);
                }
            }
        }
        i = i + 1;
    }
    assert(answers_until_found(*checker, asked));
    None
}

/// The binary names of `deps`, joined with " and ".
pub open spec fn names_joined(deps: Seq<Dep>) -> Seq<char> {
    join(deps.map_values(|d: Dep| dep_binary(d)), " and "@)
}

/// The binary names of `deps`, joined with " and ".
pub fn binary_names_joined(deps: &[Dep]) -> (r: String)
    ensures
        r@ == names_joined(deps@),
{
    let mut names: Vec<String> = Vec::new();
    let mut i: usize = 0;
    while i < deps.len()
        invariant
            i <= deps@.len(),
            strs(names@) == deps@.take(i as int).map_values(|d: Dep| dep_binary(d)),
        decreases deps@.len() - i,
    {
        let ghost before = strs(names@);
        let name = owned(deps[i].binary_name());
        assert(name@ == dep_binary(deps@[i as int]));
        names.push(name);
        assert(strs(names@) =~= before.push(dep_binary(deps@[i as int])));
        i = i + 1;
        assert(strs(names@) =~= deps@.take(i as int).map_values(|d: Dep| dep_binary(d)));
    }
    assert(deps@.take(deps@.len() as int) =~= deps@);
    join_strings(names.as_slice(), " and ")
}

/// Why the missing tools could not be installed.
#[derive(Debug, Clone, Copy, PartialEq, Eq, Structural)]
pub enum InstallFailure {
    /// No supported package manager was found.
    NoPackageManager,
    /// The user declined the installation.
    Cancelled,
    /// The install command failed.
    Failed,
}

/// What an install failure says, for the missing tools `names`.
pub open spec fn failure_text(f: InstallFailure, names: Seq<char>) -> Seq<char> {
    match f {
        InstallFailure::NoPackageManager => "No supported package manager found. Please install "@
            + names + " manually."@,
        InstallFailure::Cancelled => "Installation cancelled. Please install "@ + names
            + " manually before running tmuxido."@,
        InstallFailure::Failed => "Installation failed. Please install "@ + names + " manually."@,
    }
}

/// What an install failure says about the missing tools.
pub fn failure_message(f: InstallFailure, missing: &[Dep]) -> (r: String)
    ensures
        r@ == failure_text(f, names_joined(missing@)),
{
    let names = binary_names_joined(missing);
    let (pre, post) = match f {
        InstallFailure::NoPackageManager => (
            "No supported package manager found. Please install ",
            " manually.",
        ),
        InstallFailure::Cancelled => (
            "Installation cancelled. Please install ",
            " manually before running tmuxido.",
        ),
        InstallFailure::Failed => ("Installation failed. Please install ", " manually."),
    };
    let a = concat(pre, names.as_str());
    concat(a.as_str(), post)
}

/// What to do about the tools that are missing.
#[derive(Debug)]
pub enum InstallPlan {
    /// Every tool is installed.
    NothingMissing,
    /// Tools are missing and no supported package manager was found: the
    /// setup fails with `message`.
    NoPackageManager { missing: Vec<Dep>, message: String },
    /// Tools are missing: ask before running `command` with `manager`.
    Confirm { missing: Vec<Dep>, manager: PackageManager, command: Vec<String> },
}

/// Whether `r` is the plan for the tools `missing` when `manager` is the
/// package manager found (if any): nothing to do when none is missing; a
/// failure naming them when no manager was found; otherwise the install
/// command for their packages, to be confirmed.
pub open spec fn plan_is(r: InstallPlan, missing: Seq<Dep>, manager: Option<PackageManager>) -> bool {
    if missing.len() == 0 {
        r is NothingMissing
    } else {
        match manager {
            None => r matches InstallPlan::NoPackageManager { missing: m, message } && m@ == missing
                && message@ == failure_text(InstallFailure::NoPackageManager, names_joined(missing)),
            Some(pm) => r matches InstallPlan::Confirm { missing: m, manager: p, command } && m@
                == missing && p == pm && crate::text::strs(command@) == seq!["sudo"@]
                + manager_install_words(pm) + missing.map_values(|d: Dep| dep_package(d)),
        }
    }
}

/// Plans what to do about the tools `missing`, given the package manager
/// found, if any.
pub fn install_plan(missing: Vec<Dep>, manager: Option<PackageManager>) -> (r: InstallPlan)
    ensures
        plan_is(r, missing@, manager),
{
    if missing.len() == 0 {
        return InstallPlan::NothingMissing;
    }
    match manager {
        None => {
            let message = failure_message(InstallFailure::NoPackageManager, missing.as_slice());
            InstallPlan::NoPackageManager { missing, message }
        },
        Some(pm) => {
            let mut packages: Vec<&str> = Vec::new();
            let mut i: usize = 0;
            while i < missing.len()
                invariant
                    i <= missing@.len(),
                    packages@.len() == i,
                    packages@.map_values(|p: &str| p@) == missing@.take(i as int).map_values(
                        |d: Dep| dep_package(d),
                    ),
                decreases missing@.len() - i,
            {
                let ghost before = packages@;
                packages.push(missing[i].package_name());
                let ghost pv = packages@.map_values(|p: &str| p@);
                let ghost mv = missing@.take(i + 1).map_values(|d: Dep| dep_package(d));
                let ghost bv = before.map_values(|p: &str| p@);
                let ghost prev = missing@.take(i as int).map_values(|d: Dep| dep_package(d));
                assert forall|x: int| 0 <= x < i + 1 implies #[trigger] pv[x] == mv[x] by {
                    if x < i {
                        assert(packages@[x] == before[x]);
                        assert(bv[x] == prev[x]);
                    }
                }
                assert(pv =~= mv);
                i = i + 1;
            }
            assert(missing@.take(missing@.len() as int) =~= missing@);
            let command = pm.install_command(packages.as_slice());
            InstallPlan::Confirm { missing, manager: pm, command }
        },
    }
}

/// Plans what to do about missing tools, asking `checker` which binaries
/// are installed: first for the tools, then, when some are missing, for
/// the package managers in detection order. Whatever the checker answered,
/// the plan is what `install_plan` gives for those answers.
pub fn plan_dependencies<C: BinaryChecker>(checker: &C) -> (r: InstallPlan)
    ensures
        exists|available: Seq<bool>, managers: Seq<bool>|
            #![trigger answers_for_deps(*checker, available), manager_found(managers)]
            answers_for_deps(*checker, available) && (missing_from(all_deps(), available).len() > 0
                ==> answers_until_found(*checker, managers)) && plan_is(
                r,
                missing_from(all_deps(), available),
                manager_found(managers),
            ),
{
    let missing = check_missing(checker);
    let ghost av = choose|available: Seq<bool>|
        #[trigger] answers_for_deps(*checker, available) && missing@ == missing_from(
            all_deps(),
            available,
        );
    if missing.len() == 0 {
        let r = InstallPlan::NothingMissing;
        let ghost none = Seq::<bool>::empty();
        assert(answers_for_deps(*checker, av));
        assert(plan_is(r, missing_from(all_deps(), av), manager_found(none)));
        return r;
    }
    let manager = detect_package_manager(checker);
    let ghost am = choose|asked: Seq<bool>|
        #[trigger] answers_until_found(*checker, asked) && manager == manager_found(asked);
    let r = install_plan(missing, manager);
    assert(answers_for_deps(*checker, av));
    assert(answers_until_found(*checker, am));
    assert(plan_is(r, missing_from(all_deps(), av), manager_found(am)));
    r
}

/// Whether the answer to "Proceed with installation? [Y/n]" declines:
/// trimmed and lowercased, it is `n` or `no`; anything else proceeds.
pub open spec fn declines(answer: Seq<char>) -> bool {
    let a = lower(trim(answer));
    a == "n"@ || a == "no"@
}

/// Decides whether the answer declines the installation.
pub fn declines_install(answer: &str) -> (r: bool)
    ensures
        r == declines(answer@),
{
    let v = chars_of(answer);
    let t = trim_chars(v.as_slice(), CharClass::Whitespace);
    let ts = crate::text::string_of(t.as_slice());
    let a = to_lower(ts.as_str());
    str_eq(a.as_str(), "n") || str_eq(a.as_str(), "no")
}


/// Every dependency is installed from the package of the same name as its
/// binary.
pub proof fn law_dep_package_is_binary(d: Dep)
    ensures
        dep_package(d) == dep_binary(d),
{
}

/// Every package manager has a non-empty detection binary and display name,
/// and the display name begins with the binary.
pub proof fn law_manager_names(pm: PackageManager)
    ensures
        manager_binary(pm).len() > 0,
        manager_display(pm).len() > 0,
        manager_binary(pm).is_prefix_of(manager_display(pm)),
{
    reveal_strlit("apt");
    reveal_strlit("pacman");
    reveal_strlit("dnf");
    reveal_strlit("yum");
    reveal_strlit("zypper");
    reveal_strlit("emerge");
    reveal_strlit("xbps-install");
    reveal_strlit("apk");
    reveal_strlit("apt (Debian/Ubuntu)");
    reveal_strlit("pacman (Arch Linux)");
    reveal_strlit("dnf (Fedora)");
    reveal_strlit("yum (RHEL/CentOS)");
    reveal_strlit("zypper (openSUSE)");
    reveal_strlit("emerge (Gentoo)");
    reveal_strlit("xbps-install (Void Linux)");
    reveal_strlit("apk (Alpine Linux)");
}

/// An install command always starts with `sudo`, then runs the binary by
/// which the package manager was detected, and names every requested
/// package, in order, at its end.
pub proof fn law_install_command(pm: PackageManager, packages: Seq<Seq<char>>)
    ensures
        ({
            let cmd = seq!["sudo"@] + manager_install_words(pm) + packages;
            &&& cmd[0] == "sudo"@
            &&& cmd[1] == manager_binary(pm)
            &&& cmd.len() == 1 + manager_install_words(pm).len() + packages.len()
            &&& forall|i: int|
                0 <= i < packages.len() ==> #[trigger] cmd[cmd.len() - packages.len() + i]
                    == packages[i]
        }),
{
    let cmd = seq!["sudo"@] + manager_install_words(pm) + packages;
    let w = manager_install_words(pm);
    assert(cmd[1] == w[0]);
    assert forall|i: int| 0 <= i < packages.len() implies #[trigger] cmd[cmd.len() - packages.len()
        + i] == packages[i] by {
        assert(cmd.len() - packages.len() + i == 1 + w.len() + i);
    }
}

/// The tools reported missing are exactly those whose availability is
/// false, in their order: each reported tool was unavailable, and each
/// unavailable tool is reported.
pub proof fn law_missing_exactly_unavailable<T>(items: Seq<T>, available: Seq<bool>)
    requires
        items.len() == available.len(),
    ensures
        forall|x: T| #[trigger]
            missing_from(items, available).contains(x) <==> exists|i: int|
                0 <= i < items.len() && !available[i] && items[i] == x,
    decreases available.len(),
{
    if available.len() > 0 {
        let n = available.len() - 1;
        law_missing_exactly_unavailable(items.drop_last(), available.drop_last());
        lemma_missing_from_prefix(items, available);
        let rest = missing_from(items, available.drop_last());
        assert forall|x: T| #[trigger] missing_from(items, available).contains(x) <==> exists|i: int|
            0 <= i < items.len() && !available[i] && items[i] == x by {
            if missing_from(items, available).contains(x) {
                if rest.contains(x) {
                    assert(missing_from(items.drop_last(), available.drop_last()).contains(x));
                    let i = choose|i: int|
                        0 <= i < items.drop_last().len() && !available.drop_last()[i]
                            && items.drop_last()[i] == x;
                    assert(!available[i] && items[i] == x);
                } else {
                    assert(!available[n] && items[n] == x);
                }
            }
            if exists|i: int| 0 <= i < items.len() && !available[i] && items[i] == x {
                let i = choose|i: int| 0 <= i < items.len() && !available[i] && items[i] == x;
                if i < n {
                    assert(!available.drop_last()[i] && items.drop_last()[i] == x);
                    assert(missing_from(items.drop_last(), available.drop_last()).contains(x));
                    assert(rest.contains(x));
                    let k = choose|k: int| 0 <= k < rest.len() && rest[k] == x;
                    assert(missing_from(items, available)[k] == rest[k]);
                } else {
                    assert(missing_from(items, available).last() == x);
                }
            }
        }
    }
}

/// `missing_from` looks at `items` only through the positions of
/// `available`.
proof fn lemma_missing_from_prefix<T>(items: Seq<T>, available: Seq<bool>)
    requires
        items.len() == available.len(),
        available.len() > 0,
    ensures
        missing_from(items, available.drop_last()) == missing_from(
            items.drop_last(),
            available.drop_last(),
        ),
{
    lemma_missing_from_agree(items, items.drop_last(), available.drop_last());
}

/// `missing_from` agrees on two item lists that agree where it looks.
proof fn lemma_missing_from_agree<T>(a: Seq<T>, b: Seq<T>, available: Seq<bool>)
    requires
        a.len() >= available.len(),
        b.len() >= available.len(),
        forall|i: int| 0 <= i < available.len() ==> a[i] == b[i],
    ensures
        missing_from(a, available) == missing_from(b, available),
    decreases available.len(),
{
    if available.len() > 0 {
        lemma_missing_from_agree(a, b, available.drop_last());
    }
}

/// The manager chosen is the first available one in detection order: it
/// is available, every manager before it is not, and none is chosen only
/// when none is available.
pub proof fn law_first_available<T>(items: Seq<T>, available: Seq<bool>)
    requires
        items.len() == available.len(),
    ensures
        match first_available(items, available) {
            Some(x) => exists|i: int|
                0 <= i < items.len() && available[i] && items[i] == x && forall|j: int|
                    0 <= j < i ==> !#[trigger] available[j],
            None => forall|i: int| 0 <= i < available.len() ==> !#[trigger] available[i],
        },
    decreases available.len(),
{
    if available.len() > 0 && !available[0] {
        law_first_available(items.drop_first(), available.drop_first());
        match first_available(items, available) {
            Some(x) => {
                let k = choose|k: int|
                    0 <= k < items.drop_first().len() && available.drop_first()[k]
                        && items.drop_first()[k] == x && forall|j: int|
                        0 <= j < k ==> !#[trigger] available.drop_first()[j];
                assert(available[k + 1] && items[k + 1] == x);
                assert forall|j: int| 0 <= j < k + 1 implies !#[trigger] available[j] by {
                    if j > 0 {
                        assert(available[j] == available.drop_first()[j - 1]);
                    }
                }
            },
            None => {
                assert forall|i: int| 0 <= i < available.len() implies !#[trigger] available[i] by {
                    if i > 0 {
                        assert(available[i] == available.drop_first()[i - 1]);
                    }
                }
            },
        }
    } else if available.len() > 0 {
        assert(available[0] && items[0] == items[0]);
    }
}

/// What `first_available` gives for answers that are all `false` but
/// perhaps the last: the item of the last answer when it is `true`.
proof fn lemma_first_available_prefix<T>(items: Seq<T>, f: Seq<bool>)
    requires
        f.len() <= items.len(),
        forall|j: int| 0 <= j < f.len() - 1 ==> !#[trigger] f[j],
    ensures
        first_available(items, f) == (if f.len() > 0 && f.last() {
            Some(items[f.len() - 1])
        } else {
            None
        }),
    decreases f.len(),
{
    if f.len() > 0 {
        if f[0] {
            if f.len() > 1 {
                assert(!f[0]);
            }
        } else {
            let g = f.drop_first();
            assert forall|j: int| 0 <= j < g.len() - 1 implies !#[trigger] g[j] by {
                assert(g[j] == f[j + 1]);
            }
            lemma_first_available_prefix(items.drop_first(), g);
            if g.len() > 0 {
                assert(g.last() == f.last());
                assert(items.drop_first()[g.len() - 1] == items[f.len() - 1]);
            }
        }
    }
}

/// The package manager detected from answers asked in order until one was
/// available is the first available one in detection order among them.
pub proof fn law_manager_found_first<C: BinaryChecker>(checker: C, asked: Seq<bool>)
    requires
        answers_until_found(checker, asked),
    ensures
        manager_found(asked) == first_available(all_managers(), asked),
{
    lemma_first_available_prefix(all_managers(), asked);
}

} // verus!
