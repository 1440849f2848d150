use envforge::config::{EnvMap, ProfileConfig};
use envforge::enter::{
    enter_step, profile_source, EnterAction, EnterEvent, EnterState, ProfileSource,
};
use envforge::environment::ActivationMode;
use envforge::executor::ShellError;
use envforge::installer::ManagerKind;

fn strings(v: &[&str]) -> Vec<String> {
    v.iter().map(|s| s.to_string()).collect()
}

fn profile(packages: &[&str], setup: &[&str]) -> ProfileConfig {
    ProfileConfig {
        name: "dev".to_string(),
        packages: strings(packages),
        env: EnvMap::new(),
        setup: strings(setup),
    }
}

#[test]
fn the_named_profile_comes_first_then_the_local_file() {
    assert_eq!(profile_source("dev", true, true).unwrap(), ProfileSource::Named);
    assert_eq!(profile_source("dev", false, true).unwrap(), ProfileSource::Local);
    let e = profile_source("dev", false, false).unwrap_err();
    assert_eq!(e.message(), "profile 'dev' not found and no .envforge.yaml in current directory");
}

#[test]
fn a_dry_run_does_nothing() {
    let config = profile(&["gcc"], &["make"]);
    let (state, action) = enter_step(&config, true, false, EnterState::Start, EnterEvent::Begin);
    assert!(matches!(state, EnterState::Finished));
    assert!(matches!(action, EnterAction::Stop(Ok(()))));
}

#[test]
fn full_run_installs_missing_packages_then_sets_up_then_activates() {
    let config = profile(&["gcc", "cmake", "gdb"], &["make"]);
    let (s, a) = enter_step(&config, false, false, EnterState::Start, EnterEvent::Begin);
    assert!(matches!(a, EnterAction::Detect));
    let (s, a) = enter_step(&config, false, false, s, EnterEvent::Detected(Some(ManagerKind::Pacman)));
    match a {
        EnterAction::Query { manager, packages } => {
            assert_eq!(manager, ManagerKind::Pacman);
            assert_eq!(packages, strings(&["gcc", "cmake", "gdb"]));
        }
        _ => panic!("expected a query"),
    }
    let (s, a) = enter_step(&config, false, false, s, EnterEvent::Queried(vec![false, true, false]));
    match a {
        EnterAction::Install { packages, .. } => assert_eq!(packages, strings(&["gcc", "gdb"])),
        _ => panic!("expected an install"),
    }
    let (s, a) = enter_step(&config, false, false, s, EnterEvent::Installed(vec![Err("x".to_string()), Ok(())]));
    match a {
        EnterAction::RunSetup { commands } => assert_eq!(commands, strings(&["make"])),
        _ => panic!("expected the setup"),
    }
    let (s, a) = enter_step(&config, false, false, s, EnterEvent::SetupDone(Ok(())));
    assert!(matches!(s, EnterState::Finished));
    match a {
        EnterAction::Activate { mode, installed } => {
            assert_eq!(mode, ActivationMode::Subshell);
            assert_eq!(installed, strings(&["gdb"]));
        }
        _ => panic!("expected the activation"),
    }
}

#[test]
fn no_manager_means_no_install() {
    let config = profile(&["gcc"], &[]);
    let (s, _) = enter_step(&config, false, true, EnterState::Start, EnterEvent::Begin);
    let (_, a) = enter_step(&config, false, true, s, EnterEvent::Detected(None));
    match a {
        EnterAction::Activate { mode, installed } => {
            assert_eq!(mode, ActivationMode::Export);
            assert!(installed.is_empty());
        }
        _ => panic!("expected the activation"),
    }
}

#[test]
fn nothing_to_install_when_all_present() {
    let config = profile(&["gcc"], &["make"]);
    let (_, a) = enter_step(
        &config,
        false,
        false,
        EnterState::Querying { manager: ManagerKind::Apt },
        EnterEvent::Queried(vec![true]),
    );
    assert!(matches!(a, EnterAction::RunSetup { .. }));
}

#[test]
fn export_mode_skips_setup() {
    let config = profile(&[], &["make"]);
    let (_, a) = enter_step(&config, false, true, EnterState::Start, EnterEvent::Begin);
    assert!(matches!(a, EnterAction::Activate { mode: ActivationMode::Export, .. }));
}

#[test]
fn a_failed_setup_stops_before_activation() {
    let config = profile(&[], &["false"]);
    let (s, a) = enter_step(&config, false, false, EnterState::Start, EnterEvent::Begin);
    assert!(matches!(a, EnterAction::RunSetup { .. }));
    let err = ShellError::Failed { code: Some(1), command: "false".to_string(), stderr: String::new() };
    let (_, a) = enter_step(&config, false, false, s, EnterEvent::SetupDone(Err(err)));
    match a {
        EnterAction::Stop(Err(e)) => {
            assert_eq!(e.message(), "command failed (exit code: Some(1)): false\n  stderr: ")
        }
        _ => panic!("expected the failure"),
    }
}
