use envforge::config::{EnvMap, ProfileConfig};
use envforge::environment::{
    activate_environment, build_env_exports, escape_value, export_plan, newly_installed,
    packages_to_install, shell_name_of, subshell_plan, subshell_result, Activation,
    ActivationError, ActivationMode, StartupFiles,
};
use envforge::installer::ManagerKind;

fn strings(v: &[&str]) -> Vec<String> {
    v.iter().map(|s| s.to_string()).collect()
}

fn profile(name: &str, env: &[(&str, &str)], setup: &[&str]) -> ProfileConfig {
    let mut map = EnvMap::new();
    for (k, v) in env {
        map.insert(k.to_string(), v.to_string());
    }
    ProfileConfig { name: name.to_string(), packages: Vec::new(), env: map, setup: strings(setup) }
}

#[test]
fn test_build_env_exports() {
    let mut env = EnvMap::new();
    env.insert("CC".to_string(), "gcc".to_string());
    env.insert("CXX".to_string(), "g++".to_string());

    let exports = build_env_exports(&env);
    assert_eq!(exports.get("CC").unwrap(), "gcc");
    assert_eq!(exports.get("CXX").unwrap(), "g++");
}

#[test]
fn test_escape_value() {
    assert_eq!(escape_value("simple"), "simple");
    assert_eq!(escape_value("has space"), r#""has space""#);
}

#[test]
fn build_env_exports_keeps_order_and_size() {
    let mut env = EnvMap::new();
    env.insert("B".to_string(), "2".to_string());
    env.insert("A".to_string(), "1".to_string());
    let exports = build_env_exports(&env);
    assert_eq!(exports.len(), 2);
    let entries: Vec<(String, String)> = exports.entries().clone();
    assert_eq!(entries, vec![("B".to_string(), "2".to_string()), ("A".to_string(), "1".to_string())]);
    assert!(build_env_exports(&EnvMap::new()).is_empty());
}

#[test]
fn escape_value_escapes_special_characters() {
    assert_eq!(escape_value(""), "");
    assert_eq!(escape_value("a;b"), "a;b");
    assert_eq!(escape_value("$HOME"), r#""\$HOME""#);
    assert_eq!(escape_value(r#"say "hi""#), r#""say \"hi\"""#);
    assert_eq!(escape_value(r"C:\dir"), r#""C:\\dir""#);
    assert_eq!(escape_value(r#"\"$"#), r#""\\\"\$""#);
}

#[test]
fn shell_name_is_the_file_name_or_bash() {
    assert_eq!(shell_name_of("/bin/bash"), "bash");
    assert_eq!(shell_name_of("/usr/bin/zsh"), "zsh");
    assert_eq!(shell_name_of("fish"), "fish");
    assert_eq!(shell_name_of("/bin/bash/"), "bash");
    assert_eq!(shell_name_of("/usr//bin/./zsh/."), "zsh");
    assert_eq!(shell_name_of("./zsh"), "zsh");
    assert_eq!(shell_name_of("/usr/bin/.."), "bash");
    assert_eq!(shell_name_of("/"), "bash");
    assert_eq!(shell_name_of(""), "bash");
    assert_eq!(shell_name_of("."), "bash");
}

#[test]
fn subshell_plan_for_bash() {
    let config = profile("dev", &[("CC", "gcc"), ("X", "a b")], &["echo hi", "make"]);
    let installed = strings(&["gcc"]);
    let plan = subshell_plan(&config, "/bin/bash", 42, &installed, Some(ManagerKind::Apt));
    assert_eq!(plan.shell_name, "bash");
    assert_eq!(
        plan.script,
        "export CC=gcc; export X=\"a b\"; echo hi; make; trap 'rm -f /tmp/envforge_dev_42; sudo apt-get remove -y gcc' EXIT; exec /bin/bash --rcfile /tmp/envforge_dev_42"
    );
    assert_eq!(plan.command[0], "sh");
    assert_eq!(plan.command[1], "-c");
    assert_eq!(plan.command[2], plan.script);
    assert_eq!(plan.command.len(), 3);
    assert_eq!(plan.rc_path, "/tmp/envforge_dev_42");
    assert_eq!(plan.zdotdir, "/tmp/envforge_dev_42_zd");
    match plan.files {
        StartupFiles::BashRc { path, contents } => {
            assert_eq!(path, "/tmp/envforge_dev_42");
            assert_eq!(contents, "source ~/.bashrc 2>/dev/null\nPS1=\"(envforge:dev) $PS1\"\n");
        }
        _ => panic!("expected a bash start-up file"),
    }
}

#[test]
fn subshell_plan_for_zsh() {
    let config = profile("p", &[], &[]);
    let plan = subshell_plan(&config, "/usr/bin/zsh", 7, &[], None);
    assert_eq!(
        plan.script,
        "trap 'rm -rf /tmp/envforge_p_7_zd' EXIT; export ZDOTDIR=/tmp/envforge_p_7_zd; exec /usr/bin/zsh"
    );
    match plan.files {
        StartupFiles::ZshDir { dir, rc_file, contents } => {
            assert_eq!(dir, "/tmp/envforge_p_7_zd");
            assert_eq!(rc_file, "/tmp/envforge_p_7_zd/.zshrc");
            assert_eq!(contents, "source ~/.zshrc 2>/dev/null\nPS1=\"(envforge:p) $PS1\"\n");
        }
        _ => panic!("expected a zsh directory"),
    }
}

#[test]
fn subshell_plan_for_other_shells() {
    let config = profile("p", &[], &[]);
    let plan = subshell_plan(&config, "/usr/bin/fish", 0, &[], None);
    assert_eq!(plan.script, "export PS1=\"(envforge:p) $PS1\"; exec /usr/bin/fish");
    assert!(matches!(plan.files, StartupFiles::Nothing));

    let installed = strings(&["a", "b"]);
    let plan = subshell_plan(&config, "/usr/bin/fish", 0, &installed, Some(ManagerKind::Brew));
    assert_eq!(
        plan.script,
        "trap 'brew remove a b' EXIT; export PS1=\"(envforge:p) $PS1\"; exec /usr/bin/fish"
    );
    let plan = subshell_plan(&config, "/usr/bin/fish", 0, &installed, Some(ManagerKind::Pacman));
    assert_eq!(
        plan.script,
        "trap 'sudo pacman -Rs --noconfirm a b' EXIT; export PS1=\"(envforge:p) $PS1\"; exec /usr/bin/fish"
    );
    // no manager found: nothing to remove
    let plan = subshell_plan(&config, "/usr/bin/fish", 0, &installed, None);
    assert_eq!(plan.script, "export PS1=\"(envforge:p) $PS1\"; exec /usr/bin/fish");
}

#[test]
fn subshell_plan_trims_separators() {
    let config = profile("p", &[("K", "v;")], &["", ""]);
    let plan = subshell_plan(&config, "sh", 1, &[], None);
    // the setup list joins to "; ", which is not empty
    assert_eq!(plan.script, "export K=v;; ; ; export PS1=\"(envforge:p) $PS1\"; exec sh");
}

#[test]
fn export_mode_prints_escaped_exports() {
    let config = profile("p", &[("CC", "gcc"), ("MSG", "a b")], &["make"]);
    let plan = export_plan(&config);
    assert_eq!(plan.lines, strings(&["export CC=gcc", "export MSG=\"a b\""]));
    assert!(plan.setup_skipped);
    let quiet = profile("p", &[], &[]);
    let plan = export_plan(&quiet);
    assert!(plan.lines.is_empty());
    assert!(!plan.setup_skipped);
}

#[test]
fn activate_environment_follows_the_mode() {
    let config = profile("p", &[("A", "1")], &[]);
    match activate_environment(&config, ActivationMode::Export, "/bin/bash", 1, &[], None) {
        Activation::Export(plan) => assert_eq!(plan.lines, strings(&["export A=1"])),
        _ => panic!("expected exports"),
    }
    match activate_environment(&config, ActivationMode::Subshell, "/bin/sh", 1, &[], None) {
        Activation::Subshell(plan) => {
            assert_eq!(plan.script, "export A=1; export PS1=\"(envforge:p) $PS1\"; exec /bin/sh")
        }
        _ => panic!("expected a subshell"),
    }
}

#[test]
fn subshell_failure_is_reported() {
    assert!(subshell_result(true, Some(0)).is_ok());
    let e = subshell_result(false, Some(3)).unwrap_err();
    assert_eq!(e, ActivationError::SubshellFailed { code: Some(3) });
    assert_eq!(e.message(), "subshell exited with code: Some(3)");
    let e = subshell_result(false, None).unwrap_err();
    assert_eq!(e.message(), "subshell exited with code: None");
    let e = subshell_result(false, Some(-2147483648)).unwrap_err();
    assert_eq!(e.message(), "subshell exited with code: Some(-2147483648)");
}

#[test]
fn only_missing_packages_are_installed_and_removed() {
    let packages = strings(&["gcc", "cmake", "gdb"]);
    let to_install = packages_to_install(&packages, &[false, true, false]);
    assert_eq!(to_install, strings(&["gcc", "gdb"]));
    let results: Vec<Result<(), String>> = vec![Err("failed".to_string()), Ok(())];
    assert_eq!(newly_installed(&to_install, &results), strings(&["gdb"]));
    assert!(packages_to_install(&packages, &[true, true, true]).is_empty());
}
