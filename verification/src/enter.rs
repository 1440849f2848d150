//! The `enter` command: which profile is entered, and the order of its steps
//! (finding a package manager, skipping installed packages, installing the
//! others, running the setup commands, activating), one decision at a time.
use vstd::prelude::*;

use crate::config::ProfileConfig;
use crate::environment::{
    missing_packages, newly_installed, packages_to_install, succeeded_packages, ActivationMode,
};
use crate::executor::ShellError;
use crate::installer::ManagerKind;
use crate::text::views;

verus! {

/// Where the profile to enter comes from.
#[derive(Debug, PartialEq, Eq, Structural, Clone, Copy)]
pub enum ProfileSource {
    /// The stored profile of that name.
    Named,
    /// The `.envforge.yaml` file of the current directory.
    Local,
}

/// Why `enter` cannot start.
#[derive(Debug)]
pub enum EnterError {
    /// Neither the named profile nor a local `.envforge.yaml` exists.
    NotFound { profile: String },
}

/// The message shown when no profile is found.
pub open spec fn not_found_message(profile: Seq<char>) -> Seq<char> {
    "profile '"@ + profile + "' not found and no .envforge.yaml in current directory"@
}

impl EnterError {
    /// The message shown for the error.
    pub fn message(&self) -> (r: String)
        ensures
            match self {
                EnterError::NotFound { profile } => r@ == not_found_message(profile@),
            },
    {
        match self {
            EnterError::NotFound { profile } => {
                let mut m = "profile '".to_string();
                m.append(profile.as_str());
                m.append("' not found and no .envforge.yaml in current directory");
                m
            },
        }
    }
}

/// The profile to enter: the stored one when it was found, else the local
/// `.envforge.yaml` when it exists, else the not-found error.
pub fn profile_source(profile: &str, found: bool, local_exists: bool) -> (r: Result<
    ProfileSource,
    EnterError,
>)
    ensures
        found ==> r == Ok::<ProfileSource, EnterError>(ProfileSource::Named),
        !found && local_exists ==> r == Ok::<ProfileSource, EnterError>(ProfileSource::Local),
        !found && !local_exists ==> (r matches Err(EnterError::NotFound { profile: p }) && p@
            == profile@),
{
    if found {
        Ok(ProfileSource::Named)
    } else if local_exists {
        Ok(ProfileSource::Local)
    } else {
        Err(EnterError::NotFound { profile: profile.to_string() })
    }
}

// ---------------------------------------------------------------------------
// The steps

/// Where `enter` stands.
pub enum EnterState {
    /// Nothing has happened yet.
    Start,
    /// Looking for a package manager.
    Detecting,
    /// Asking the manager which packages are installed.
    Querying { manager: ManagerKind },
    /// Installing the packages that were missing.
    Installing { manager: ManagerKind, to_install: Vec<String> },
    /// Running the setup commands; `installed` were installed before.
    SettingUp { installed: Vec<String> },
    /// Done.
    Finished,
}

/// What the last step found out.
pub enum EnterEvent {
    /// The command begins.
    Begin,
    /// The package manager found, if any.
    Detected(Option<ManagerKind>),
    /// For each package of the profile, whether it is installed.
    Queried(Vec<bool>),
    /// For each package installed, how its install ended.
    Installed(Vec<Result<(), String>>),
    /// How the setup commands ended.
    SetupDone(Result<(), ShellError>),
}

/// What to do next.
pub enum EnterAction {
    /// Look for a package manager.
    Detect,
    /// Ask `manager` whether each of `packages` is installed.
    Query { manager: ManagerKind, packages: Vec<String> },
    /// Install `packages` with `manager`.
    Install { manager: ManagerKind, packages: Vec<String> },
    /// Run the setup commands.
    RunSetup { commands: Vec<String> },
    /// Activate the profile in `mode`; `installed` are the packages installed.
    Activate { mode: ActivationMode, installed: Vec<String> },
    /// End the command with this result.
    Stop(Result<(), ShellError>),
}

/// The model of `EnterState`.
pub enum EnterStage {
    Start,
    Detecting,
    Querying(ManagerKind),
    Installing(ManagerKind, Seq<Seq<char>>),
    SettingUp(Seq<Seq<char>>),
    Finished,
}

/// The model of `EnterEvent`: install results as success flags.
pub enum EnterOutcome {
    Begin,
    Detected(Option<ManagerKind>),
    Queried(Seq<bool>),
    Installed(Seq<bool>),
    SetupDone(Result<(), ShellError>),
}

/// The model of `EnterAction`.
pub enum EnterMove {
    Detect,
    Query(ManagerKind, Seq<Seq<char>>),
    Install(ManagerKind, Seq<Seq<char>>),
    RunSetup(Seq<Seq<char>>),
    Activate(ActivationMode, Seq<Seq<char>>),
    Stop(Result<(), ShellError>),
}

impl View for EnterState {
    type V = EnterStage;

    open spec fn view(&self) -> EnterStage {
        match self {
            EnterState::Start => EnterStage::Start,
            EnterState::Detecting => EnterStage::Detecting,
            EnterState::Querying { manager } => EnterStage::Querying(*manager),
            EnterState::Installing { manager, to_install } => EnterStage::Installing(
                *manager,
                views(to_install@),
            ),
            EnterState::SettingUp { installed } => EnterStage::SettingUp(views(installed@)),
            EnterState::Finished => EnterStage::Finished,
        }
    }
}

impl View for EnterEvent {
    type V = EnterOutcome;

    open spec fn view(&self) -> EnterOutcome {
        match self {
            EnterEvent::Begin => EnterOutcome::Begin,
            EnterEvent::Detected(m) => EnterOutcome::Detected(*m),
            EnterEvent::Queried(v) => EnterOutcome::Queried(v@),
            EnterEvent::Installed(v) => EnterOutcome::Installed(
                v@.map_values(|x: Result<(), String>| x is Ok),
            ),
            EnterEvent::SetupDone(r) => EnterOutcome::SetupDone(*r),
        }
    }
}

impl View for EnterAction {
    type V = EnterMove;

    open spec fn view(&self) -> EnterMove {
        match self {
            EnterAction::Detect => EnterMove::Detect,
            EnterAction::Query { manager, packages } => EnterMove::Query(
                *manager,
                views(packages@),
            ),
            EnterAction::Install { manager, packages } => EnterMove::Install(
                *manager,
                views(packages@),
            ),
            EnterAction::RunSetup { commands } => EnterMove::RunSetup(views(commands@)),
            EnterAction::Activate { mode, installed } => EnterMove::Activate(
                *mode,
                views(installed@),
            ),
            EnterAction::Stop(r) => EnterMove::Stop(*r),
        }
    }
}

/// The activation mode that the `--export` flag selects.
pub open spec fn mode_of(export: bool) -> ActivationMode {
    if export {
        ActivationMode::Export
    } else {
        ActivationMode::Subshell
    }
}

/// Once the packages are done: run the setup commands when there are any
/// and the mode is not export (export mode does not run them), else
/// activate at once.
pub open spec fn after_packages(config: ProfileConfig, export: bool, installed: Seq<Seq<char>>) -> (
    EnterStage,
    EnterMove,
) {
    if config.setup@.len() > 0 && !export {
        (EnterStage::SettingUp(installed), EnterMove::RunSetup(views(config.setup@)))
    } else {
        (EnterStage::Finished, EnterMove::Activate(mode_of(export), installed))
    }
}

/// The decisions of `enter`:
/// - in a dry run nothing is installed, run or activated;
/// - with no packages, or no package manager, nothing is installed;
/// - only the packages not already installed are installed, and a failed
///   install stops nothing: only the packages that did install are kept;
/// - a failing setup command ends the command with its error, before
///   activation;
/// - the profile is then activated, in export mode or in a subshell.
pub open spec fn enter_next(
    config: ProfileConfig,
    dry_run: bool,
    export: bool,
    stage: EnterStage,
    outcome: EnterOutcome,
) -> (EnterStage, EnterMove) {
    match (stage, outcome) {
        (EnterStage::Start, EnterOutcome::Begin) => if dry_run {
            (EnterStage::Finished, EnterMove::Stop(Ok(())))
        } else if config.packages@.len() > 0 {
            (EnterStage::Detecting, EnterMove::Detect)
        } else {
            after_packages(config, export, Seq::empty())
        },
        (EnterStage::Detecting, EnterOutcome::Detected(found)) => match found {
            Some(m) => (EnterStage::Querying(m), EnterMove::Query(m, views(config.packages@))),
            None => after_packages(config, export, Seq::empty()),
        },
        (EnterStage::Querying(m), EnterOutcome::Queried(present)) => {
            let missing = missing_packages(views(config.packages@), present);
            if missing.len() > 0 {
                (EnterStage::Installing(m, missing), EnterMove::Install(m, missing))
            } else {
                after_packages(config, export, Seq::empty())
            }
        },
        (EnterStage::Installing(m, to_install), EnterOutcome::Installed(oks)) => after_packages(
            config,
            export,
            succeeded_packages(to_install, oks),
        ),
        (EnterStage::SettingUp(installed), EnterOutcome::SetupDone(result)) => match result {
            Ok(()) => (EnterStage::Finished, EnterMove::Activate(mode_of(export), installed)),
            Err(e) => (EnterStage::Finished, EnterMove::Stop(Err(e))),
        },
        _ => (EnterStage::Finished, EnterMove::Stop(Ok(()))),
    }
}

/// Whether `outcome` answers the action that led to `stage`.
pub open spec fn answers(config: ProfileConfig, stage: EnterStage, outcome: EnterOutcome) -> bool {
    match (stage, outcome) {
        (EnterStage::Start, EnterOutcome::Begin) => true,
        (EnterStage::Detecting, EnterOutcome::Detected(_)) => true,
        (EnterStage::Querying(_), EnterOutcome::Queried(present)) => present.len()
            == config.packages@.len(),
        (EnterStage::Installing(_, to_install), EnterOutcome::Installed(oks)) => oks.len()
            == to_install.len(),
        (EnterStage::SettingUp(_), EnterOutcome::SetupDone(_)) => true,
        _ => false,
    }
}

/// `enter` stops early only in a dry run, at once, or when the setup
/// commands fail, with their error; no install result stops it. After the
/// installs, whatever their results, the setup commands run (when there are
/// any and the mode is not export), else the profile is activated with
/// exactly the packages whose install succeeded, in order.
pub proof fn lemma_enter_stops_only_on_dry_run_or_setup_failure(
    config: ProfileConfig,
    dry_run: bool,
    export: bool,
    stage: EnterStage,
    outcome: EnterOutcome,
)
    requires
        answers(config, stage, outcome),
    ensures
        ({
            let next = enter_next(config, dry_run, export, stage, outcome);
            &&& next.1 matches EnterMove::Stop(r) ==> (stage == EnterStage::Start && dry_run && r
                == Ok::<(), ShellError>(())) || (outcome == EnterOutcome::SetupDone(r) && r is Err)
            &&& stage == EnterStage::Start && dry_run ==> next.1 == EnterMove::Stop(
                Ok::<(), ShellError>(()),
            )
            &&& stage matches EnterStage::Installing(m, to_install) ==> outcome matches EnterOutcome::Installed(oks) ==> {
                let installed = succeeded_packages(to_install, oks);
                &&& forall|j: int|
                    0 <= j < installed.len() ==> exists|k: int|
                        0 <= k < to_install.len() && oks[k] && #[trigger] installed[j]
                            == to_install[k]
                &&& if config.setup@.len() > 0 && !export {
                    next.1 == EnterMove::RunSetup(views(config.setup@))
                } else {
                    next.1 == EnterMove::Activate(mode_of(export), installed)
                }
            }
        }),
{
    if let EnterStage::Installing(m, to_install) = stage {
        if let EnterOutcome::Installed(oks) = outcome {
            let installed = succeeded_packages(to_install, oks);
            let failed = oks.map_values(|b: bool| !b);
            assert forall|j: int| 0 <= j < installed.len() implies exists|k: int|
                0 <= k < to_install.len() && oks[k] && #[trigger] installed[j] == to_install[k] by {
                crate::environment::lemma_missing_packages(to_install, failed, j);
                let k = choose|k: int|
                    0 <= k < to_install.len() && to_install[k] == missing_packages(
                        to_install,
                        failed,
                    )[j] && !failed[k];
                assert(oks[k]);
            }
        }
    }
}

fn continue_after_packages(config: &ProfileConfig, export: bool, installed: Vec<String>) -> (r: (
    EnterState,
    EnterAction,
))
    ensures
        (r.0@, r.1@) == after_packages(*config, export, views(installed@)),
{
    if config.setup.len() > 0 && !export {
        (EnterState::SettingUp { installed }, EnterAction::RunSetup { commands: config.setup.clone() })
    } else {
        let mode = if export {
            ActivationMode::Export
        } else {
            ActivationMode::Subshell
        };
        (EnterState::Finished, EnterAction::Activate { mode, installed })
    }
}

/// The next step of `enter` for the profile `config`, from where it stands
/// and what the last step found out.
pub fn enter_step(
    config: &ProfileConfig,
    dry_run: bool,
    export: bool,
    state: EnterState,
    event: EnterEvent,
) -> (r: (EnterState, EnterAction))
    requires
        answers(*config, state@, event@),
    ensures
        (r.0@, r.1@) == enter_next(*config, dry_run, export, state@, event@),
{
    let empty: Vec<String> = Vec::new();
    assert(views(empty@) =~= Seq::<Seq<char>>::empty());
    match state {
        EnterState::Start => {
            if dry_run {
                (EnterState::Finished, EnterAction::Stop(Ok(())))
            } else if config.packages.len() > 0 {
                (EnterState::Detecting, EnterAction::Detect)
            } else {
                continue_after_packages(config, export, empty)
            }
        },
        EnterState::Detecting => match event {
            EnterEvent::Detected(Some(m)) => (
                EnterState::Querying { manager: m },
                EnterAction::Query { manager: m, packages: config.packages.clone() },
            ),
            _ => continue_after_packages(config, export, empty),
        },
        EnterState::Querying { manager } => match event {
            EnterEvent::Queried(present) => {
                let missing = packages_to_install(config.packages.as_slice(), present.as_slice());
                if missing.len() > 0 {
                    (
                        EnterState::Installing { manager, to_install: missing.clone() },
                        EnterAction::Install { manager, packages: missing },
                    )
                } else {
                    continue_after_packages(config, export, empty)
                }
            },
            _ => (EnterState::Finished, EnterAction::Stop(Ok(()))),
        },
        EnterState::Installing { manager: _, to_install } => match event {
            EnterEvent::Installed(results) => {
                let installed = newly_installed(to_install.as_slice(), results.as_slice());
                continue_after_packages(config, export, installed)
            },
            _ => (EnterState::Finished, EnterAction::Stop(Ok(()))),
        },
        EnterState::SettingUp { installed } => match event {
            EnterEvent::SetupDone(Ok(())) => {
                let mode = if export {
                    ActivationMode::Export
                } else {
                    ActivationMode::Subshell
                };
                (EnterState::Finished, EnterAction::Activate { mode, installed })
            },
            EnterEvent::SetupDone(Err(e)) => (EnterState::Finished, EnterAction::Stop(Err(e))),
            _ => (EnterState::Finished, EnterAction::Stop(Ok(()))),
        },
        EnterState::Finished => (EnterState::Finished, EnterAction::Stop(Ok(()))),
    }
}

} // verus!
