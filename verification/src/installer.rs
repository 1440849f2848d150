//! Package managers: which one is used, the commands that install, remove and
//! query packages with it, and what each command's outcome means.
use vstd::prelude::*;

use crate::text::{join, join_strings, views};

verus! {

/// The supported package managers, in the order in which they are looked for.
#[derive(Debug, PartialEq, Eq, Structural, Clone, Copy)]
pub enum ManagerKind {
    Apt,
    Pacman,
    Brew,
}

/// How a command that was to be run ended.
#[derive(Debug)]
pub enum ProcessStatus {
    /// The command ran; `success` tells whether it exited with status zero.
    Exited { success: bool },
    /// The command could not be started, for the given reason.
    NotStarted { reason: String },
}

/// The name by which a package manager is reported.
pub open spec fn manager_name(k: ManagerKind) -> Seq<char> {
    match k {
        ManagerKind::Apt => "apt"@,
        ManagerKind::Pacman => "pacman"@,
        ManagerKind::Brew => "brew"@,
    }
}

/// The program whose presence on the `PATH` shows the manager is available,
/// and which names it in messages.
pub open spec fn manager_program(k: ManagerKind) -> Seq<char> {
    match k {
        ManagerKind::Apt => "apt-get"@,
        ManagerKind::Pacman => "pacman"@,
        ManagerKind::Brew => "brew"@,
    }
}

/// The command line that installs `package`.
pub open spec fn install_argv(k: ManagerKind, package: Seq<char>) -> Seq<Seq<char>> {
    match k {
        ManagerKind::Apt => seq!["sudo"@, "apt-get"@, "install"@, "-y"@, package],
        ManagerKind::Pacman => seq!["sudo"@, "pacman"@, "-S"@, "--noconfirm"@, package],
        ManagerKind::Brew => seq!["brew"@, "install"@, package],
    }
}

/// The command line that removes `package`.
pub open spec fn remove_argv(k: ManagerKind, package: Seq<char>) -> Seq<Seq<char>> {
    match k {
        ManagerKind::Apt => seq!["sudo"@, "apt-get"@, "remove"@, "-y"@, package],
        ManagerKind::Pacman => seq!["sudo"@, "pacman"@, "-Rs"@, "--noconfirm"@, package],
        ManagerKind::Brew => seq!["brew"@, "remove"@, package],
    }
}

/// The command line that succeeds when `package` is installed; Homebrew has
/// none, and its packages are taken as not installed.
pub open spec fn query_argv(k: ManagerKind, package: Seq<char>) -> Option<Seq<Seq<char>>> {
    match k {
        ManagerKind::Apt => Some(seq!["dpkg"@, "-s"@, package]),
        ManagerKind::Pacman => Some(seq!["pacman"@, "-Q"@, package]),
        ManagerKind::Brew => None,
    }
}

/// Whether the manager can tell if a package is installed.
pub open spec fn can_query(k: ManagerKind) -> bool {
    k != ManagerKind::Brew
}

/// A manager can tell whether a package is installed exactly when it has a
/// query command for it; apt (`dpkg -s`) and pacman (`pacman -Q`) do, so for
/// them a query that ran and exited with status zero means installed, and
/// any other outcome means not installed.
pub proof fn lemma_query_decides_installed(k: ManagerKind, package: Seq<char>, status: ProcessStatus)
    ensures
        can_query(k) <==> query_argv(k, package) is Some,
        k == ManagerKind::Apt ==> query_argv(k, package) == Some(seq!["dpkg"@, "-s"@, package]),
        k == ManagerKind::Pacman ==> query_argv(k, package) == Some(
            seq!["pacman"@, "-Q"@, package],
        ),
        query_argv(k, package) is Some ==> ((can_query(k) && status == (ProcessStatus::Exited {
            success: true,
        })) <==> status == (ProcessStatus::Exited { success: true })),
{
}

/// The shell command that removes all of `packages` at once.
pub open spec fn removal_command(k: ManagerKind, packages: Seq<Seq<char>>) -> Seq<char> {
    let head = match k {
        ManagerKind::Apt => "sudo apt-get remove -y "@,
        ManagerKind::Pacman => "sudo pacman -Rs --noconfirm "@,
        ManagerKind::Brew => "brew remove "@,
    };
    head + join(packages, " "@)
}

/// What a package command's outcome means: success only when it ran and
/// exited with status zero; otherwise a message naming the failure.
pub open spec fn command_result(
    k: ManagerKind,
    verb: Seq<char>,
    package: Seq<char>,
    status: ProcessStatus,
) -> Result<(), Seq<char>> {
    match status {
        ProcessStatus::Exited { success: true } => Ok(()),
        ProcessStatus::Exited { success: false } => Err(
            manager_program(k) + " "@ + verb + " '"@ + package + "' failed"@,
        ),
        ProcessStatus::NotStarted { reason } => Err(
            "failed to execute "@ + manager_program(k) + ": "@ + reason@,
        ),
    }
}

/// The views of a sequence of package command results.
pub open spec fn result_views(r: Seq<Result<(), String>>) -> Seq<Result<(), Seq<char>>> {
    r.map_values(
        |x: Result<(), String>|
            match x {
                Ok(()) => Ok(()),
                Err(e) => Err(e@),
            },
    )
}

fn strings(parts: &[&str]) -> (r: Vec<String>)
    ensures
        r@.len() == parts@.len(),
        forall|i: int| 0 <= i < parts@.len() ==> #[trigger] r@[i]@ == parts@[i]@,
{
    let mut r: Vec<String> = Vec::new();
    let n = parts.len();
    for i in 0..n
        invariant
            n == parts@.len(),
            r@.len() == i,
            forall|j: int| 0 <= j < i ==> #[trigger] r@[j]@ == parts@[j]@,
    {
        r.push(parts[i].to_string());
    }
    r
}

impl ManagerKind {
    /// The name by which the manager is reported.
    pub fn name(&self) -> (r: &'static str)
        ensures
            r@ == manager_name(*self),
    {
        match self {
            ManagerKind::Apt => "apt",
            ManagerKind::Pacman => "pacman",
            ManagerKind::Brew => "brew",
        }
    }

    /// The program that shows the manager is available.
    pub fn program(&self) -> (r: &'static str)
        ensures
            r@ == manager_program(*self),
    {
        match self {
            ManagerKind::Apt => "apt-get",
            ManagerKind::Pacman => "pacman",
            ManagerKind::Brew => "brew",
        }
    }

    /// The command line that installs `package`.
    pub fn install_command(&self, package: &str) -> (r: Vec<String>)
        ensures
            views(r@) == install_argv(*self, package@),
    {
        let r = match self {
            ManagerKind::Apt => strings(&["sudo", "apt-get", "install", "-y", package]),
            ManagerKind::Pacman => strings(&["sudo", "pacman", "-S", "--noconfirm", package]),
            ManagerKind::Brew => strings(&["brew", "install", package]),
        };
        assert(views(r@) =~= install_argv(*self, package@));
        r
    }

    /// The command line that removes `package`.
    pub fn remove_command(&self, package: &str) -> (r: Vec<String>)
        ensures
            views(r@) == remove_argv(*self, package@),
    {
        let r = match self {
            ManagerKind::Apt => strings(&["sudo", "apt-get", "remove", "-y", package]),
            ManagerKind::Pacman => strings(&["sudo", "pacman", "-Rs", "--noconfirm", package]),
            ManagerKind::Brew => strings(&["brew", "remove", package]),
        };
        assert(views(r@) =~= remove_argv(*self, package@));
        r
    }

    /// The command line that tells whether `package` is installed, if any.
    pub fn query_command(&self, package: &str) -> (r: Option<Vec<String>>)
        ensures
            match r {
                Some(v) => query_argv(*self, package@) == Some(views(v@)),
                None => query_argv(*self, package@) is None,
            },
    {
        match self {
            ManagerKind::Apt => {
                let r = strings(&["dpkg", "-s", package]);
                assert(views(r@) =~= seq!["dpkg"@, "-s"@, package@]);
                Some(r)
            },
            ManagerKind::Pacman => {
                let r = strings(&["pacman", "-Q", package]);
                assert(views(r@) =~= seq!["pacman"@, "-Q"@, package@]);
                Some(r)
            },
            ManagerKind::Brew => None,
        }
    }

    /// Whether the outcome of the query command shows the package installed:
    /// only when it ran and exited with status zero.
    pub fn is_installed(&self, status: &ProcessStatus) -> (r: bool)
        ensures
            r == (can_query(*self) && *status == (ProcessStatus::Exited { success: true })),
            query_argv(*self, Seq::empty()) is Some ==> (r <==> *status == (ProcessStatus::Exited {
                success: true,
            })),
    {
        match self {
            ManagerKind::Brew => false,
            _ => match status {
                ProcessStatus::Exited { success } => *success,
                ProcessStatus::NotStarted { .. } => false,
            },
        }
    }

    fn outcome(&self, verb: &str, package: &str, status: &ProcessStatus) -> (r: Result<(), String>)
        ensures
            match r {
                Ok(()) => command_result(*self, verb@, package@, *status) == Ok::<(), Seq<char>>(()),
                Err(e) => command_result(*self, verb@, package@, *status) == Err::<(), Seq<char>>(
                    e@,
                ),
            },
    {
        match status {
            ProcessStatus::Exited { success } => {
                if *success {
                    Ok(())
                } else {
                    let mut m = self.program().to_string();
                    m.append(" ");
                    m.append(verb);
                    m.append(" '");
                    m.append(package);
                    m.append("' failed");
                    Err(m)
                }
            },
            ProcessStatus::NotStarted { reason } => {
                let mut m = "failed to execute ".to_string();
                m.append(self.program());
                m.append(": ");
                m.append(reason.as_str());
                Err(m)
            },
        }
    }

    fn outcomes(&self, verb: &str, packages: &[String], statuses: &[ProcessStatus]) -> (r: Vec<
        Result<(), String>,
    >)
        requires
            packages@.len() == statuses@.len(),
        ensures
            r@.len() == packages@.len(),
            forall|i: int|
                0 <= i < packages@.len() ==> #[trigger] result_views(r@)[i] == command_result(
                    *self,
                    verb@,
                    packages@[i]@,
                    statuses@[i],
                ),
    {
        let mut r: Vec<Result<(), String>> = Vec::new();
        let n = packages.len();
        for i in 0..n
            invariant
                n == packages@.len(),
                n == statuses@.len(),
                r@.len() == i,
                forall|j: int|
                    0 <= j < i ==> #[trigger] result_views(r@)[j] == command_result(
                        *self,
                        verb@,
                        packages@[j]@,
                        statuses@[j],
                    ),
        {
            let x = self.outcome(verb, packages[i].as_str(), &statuses[i]);
            let ghost before = r@;
            r.push(x);
            proof {
                assert forall|j: int| 0 <= j < i implies #[trigger] result_views(r@)[j]
                    == result_views(before)[j] by {
                    assert(r@[j] == before[j]);
                }
                assert(result_views(r@)[i as int] == command_result(
                    *self,
                    verb@,
                    packages@[i as int]@,
                    statuses@[i as int],
                ));
            }
        }
        r
    }

    /// One result per package installed: the `i`-th tells how the install
    /// command of the `i`-th package ended.
    pub fn install(&self, packages: &[String], statuses: &[ProcessStatus]) -> (r: Vec<
        Result<(), String>,
    >)
        requires
            packages@.len() == statuses@.len(),
        ensures
            r@.len() == packages@.len(),
            forall|i: int|
                0 <= i < packages@.len() ==> #[trigger] result_views(r@)[i] == command_result(
                    *self,
                    "install"@,
                    packages@[i]@,
                    statuses@[i],
                ),
    {
        self.outcomes("install", packages, statuses)
    }

    /// One result per package removed: the `i`-th tells how the remove
    /// command of the `i`-th package ended.
    pub fn remove(&self, packages: &[String], statuses: &[ProcessStatus]) -> (r: Vec<
        Result<(), String>,
    >)
        requires
            packages@.len() == statuses@.len(),
        ensures
            r@.len() == packages@.len(),
            forall|i: int|
                0 <= i < packages@.len() ==> #[trigger] result_views(r@)[i] == command_result(
                    *self,
                    "remove"@,
                    packages@[i]@,
                    statuses@[i],
                ),
    {
        self.outcomes("remove", packages, statuses)
    }

    /// The shell command that removes all of `packages` at once.
    pub fn removal_script(&self, packages: &[String]) -> (r: String)
        ensures
            r@ == removal_command(*self, views(packages@)),
    {
        let mut r = match self {
            ManagerKind::Apt => "sudo apt-get remove -y ".to_string(),
            ManagerKind::Pacman => "sudo pacman -Rs --noconfirm ".to_string(),
            ManagerKind::Brew => "brew remove ".to_string(),
        };
        let joined = join_strings(packages, " ");
        r.append(joined.as_str());
        r
    }
}

/// The first available manager: apt, else pacman, else Homebrew.
pub fn detect_package_manager(apt_available: bool, pacman_available: bool, brew_available: bool) -> (r:
    Option<ManagerKind>)
    ensures
        r == (if apt_available {
            Some(ManagerKind::Apt)
        } else if pacman_available {
            Some(ManagerKind::Pacman)
        } else if brew_available {
            Some(ManagerKind::Brew)
        } else {
            None
        }),
{
    if apt_available {
        Some(ManagerKind::Apt)
    } else if pacman_available {
        Some(ManagerKind::Pacman)
    } else if brew_available {
        Some(ManagerKind::Brew)
    } else {
        None
    }
}

/// A package manager backend.
pub trait PackageManager {
    /// The manager this backend drives.
    spec fn manager(&self) -> ManagerKind;

    /// The manager this backend drives.
    fn kind(&self) -> (r: ManagerKind)
        ensures
            r == self.manager(),
    ;

    /// The name by which the manager is reported.
    fn name(&self) -> (r: &'static str)
        ensures
            r@ == manager_name(self.manager()),
    {
        self.kind().name()
    }

    /// One result per package: how its install command ended.
    fn install(&self, packages: &[String], statuses: &[ProcessStatus]) -> (r: Vec<
        Result<(), String>,
    >)
        requires
            packages@.len() == statuses@.len(),
        ensures
            r@.len() == packages@.len(),
            forall|i: int|
                0 <= i < packages@.len() ==> #[trigger] result_views(r@)[i] == command_result(
                    self.manager(),
                    "install"@,
                    packages@[i]@,
                    statuses@[i],
                ),
    {
        self.kind().install(packages, statuses)
    }

    /// One result per package: how its remove command ended.
    fn remove(&self, packages: &[String], statuses: &[ProcessStatus]) -> (r: Vec<
        Result<(), String>,
    >)
        requires
            packages@.len() == statuses@.len(),
        ensures
            r@.len() == packages@.len(),
            forall|i: int|
                0 <= i < packages@.len() ==> #[trigger] result_views(r@)[i] == command_result(
                    self.manager(),
                    "remove"@,
                    packages@[i]@,
                    statuses@[i],
                ),
    {
        self.kind().remove(packages, statuses)
    }

    /// Whether the outcome of the query command shows the package installed.
    fn is_installed(&self, status: &ProcessStatus) -> (r: bool)
        ensures
            r == (can_query(self.manager()) && *status == (ProcessStatus::Exited {
                success: true,
            })),
            query_argv(self.manager(), Seq::empty()) is Some ==> (r <==> *status == (
            ProcessStatus::Exited { success: true })),
    {
        self.kind().is_installed(status)
    }
}

/// The apt backend (Debian and derivatives).
pub struct AptManager;

/// The pacman backend (Arch Linux and derivatives).
pub struct PacmanManager;

/// The Homebrew backend.
pub struct BrewManager;

impl PackageManager for AptManager {
    open spec fn manager(&self) -> ManagerKind {
        ManagerKind::Apt
    }

    fn kind(&self) -> (r: ManagerKind) {
        ManagerKind::Apt
    }
}

impl PackageManager for PacmanManager {
    open spec fn manager(&self) -> ManagerKind {
        ManagerKind::Pacman
    }

    fn kind(&self) -> (r: ManagerKind) {
        ManagerKind::Pacman
    }
}

impl PackageManager for BrewManager {
    open spec fn manager(&self) -> ManagerKind {
        ManagerKind::Brew
    }

    fn kind(&self) -> (r: ManagerKind) {
        ManagerKind::Brew
    }
}

} // verus!
