use envforge::installer::{
    detect_package_manager, AptManager, BrewManager, ManagerKind, PackageManager, PacmanManager,
    ProcessStatus,
};

fn strings(v: &[&str]) -> Vec<String> {
    v.iter().map(|s| s.to_string()).collect()
}

#[test]
fn detection_prefers_apt_then_pacman_then_brew() {
    assert_eq!(detect_package_manager(true, true, true), Some(ManagerKind::Apt));
    assert_eq!(detect_package_manager(false, true, true), Some(ManagerKind::Pacman));
    assert_eq!(detect_package_manager(false, false, true), Some(ManagerKind::Brew));
    assert_eq!(detect_package_manager(false, false, false), None);
}

#[test]
fn backends_report_their_names() {
    assert_eq!(AptManager.name(), "apt");
    assert_eq!(PacmanManager.name(), "pacman");
    assert_eq!(BrewManager.name(), "brew");
    assert_eq!(ManagerKind::Apt.program(), "apt-get");
}

#[test]
fn command_lines() {
    assert_eq!(ManagerKind::Apt.install_command("gcc"), strings(&["sudo", "apt-get", "install", "-y", "gcc"]));
    assert_eq!(ManagerKind::Pacman.install_command("gcc"), strings(&["sudo", "pacman", "-S", "--noconfirm", "gcc"]));
    assert_eq!(ManagerKind::Brew.install_command("gcc"), strings(&["brew", "install", "gcc"]));
    assert_eq!(ManagerKind::Apt.remove_command("gcc"), strings(&["sudo", "apt-get", "remove", "-y", "gcc"]));
    assert_eq!(ManagerKind::Pacman.remove_command("gcc"), strings(&["sudo", "pacman", "-Rs", "--noconfirm", "gcc"]));
    assert_eq!(ManagerKind::Apt.query_command("gcc"), Some(strings(&["dpkg", "-s", "gcc"])));
    assert_eq!(ManagerKind::Pacman.query_command("gcc"), Some(strings(&["pacman", "-Q", "gcc"])));
    assert_eq!(ManagerKind::Brew.query_command("gcc"), None);
    assert_eq!(ManagerKind::Apt.removal_script(&strings(&["a", "b"])), "sudo apt-get remove -y a b");
}

#[test]
fn one_result_per_package() {
    let pkgs = strings(&["a", "b", "c"]);
    let statuses = vec![
        ProcessStatus::Exited { success: true },
        ProcessStatus::Exited { success: false },
        ProcessStatus::NotStarted { reason: "not found".to_string() },
    ];
    let r = AptManager.install(&pkgs, &statuses);
    assert_eq!(r, vec![Ok(()), Err("apt-get install 'b' failed".to_string()), Err("failed to execute apt-get: not found".to_string())]);
    let r = PacmanManager.remove(&pkgs, &statuses);
    assert_eq!(r, vec![Ok(()), Err("pacman remove 'b' failed".to_string()), Err("failed to execute pacman: not found".to_string())]);
    let r = BrewManager.install(&pkgs[..1], &statuses[1..2]);
    assert_eq!(r, vec![Err("brew install 'a' failed".to_string())]);
}

#[test]
fn installed_only_when_the_query_succeeds() {
    assert!(AptManager.is_installed(&ProcessStatus::Exited { success: true }));
    assert!(!AptManager.is_installed(&ProcessStatus::Exited { success: false }));
    assert!(!PacmanManager.is_installed(&ProcessStatus::NotStarted { reason: String::new() }));
    assert!(!BrewManager.is_installed(&ProcessStatus::Exited { success: true }));
}
