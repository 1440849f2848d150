use envforge::config::{
    create_change, init_change, remove_change, FileChange, ProfileError,
    check_profile, list_entry, profile_file_name, profile_names, profile_template,
    text_le_exec, ConfigError, EnvMap, ProfileConfig,
};

fn strings(v: &[&str]) -> Vec<String> {
    v.iter().map(|s| s.to_string()).collect()
}

#[test]
fn env_map_insert_replaces_in_place() {
    let mut env = EnvMap::new();
    assert!(env.is_empty());
    assert_eq!(env.insert("A".to_string(), "1".to_string()), None);
    assert_eq!(env.insert("B".to_string(), "2".to_string()), None);
    assert_eq!(env.insert("A".to_string(), "3".to_string()), Some("1".to_string()));
    assert_eq!(env.len(), 2);
    assert_eq!(env.get("A").unwrap(), "3");
    assert_eq!(env.get("B").unwrap(), "2");
    assert!(env.get("C").is_none());
    assert_eq!(env.entries()[0].0, "A");
}

#[test]
fn profile_needs_a_name() {
    let empty = ProfileConfig { name: String::new(), packages: vec![], env: EnvMap::new(), setup: vec![] };
    assert_eq!(check_profile(empty).err(), Some(ConfigError::EmptyName));
    assert_eq!(ConfigError::EmptyName.message(), "profile name must not be empty");
    let named = ProfileConfig { name: "x".to_string(), packages: strings(&["gcc"]), env: EnvMap::new(), setup: vec![] };
    let ok = check_profile(named).unwrap();
    assert_eq!(ok.name, "x");
    assert_eq!(ok.packages, strings(&["gcc"]));
}

#[test]
fn profiles_are_stored_as_yaml_files() {
    assert_eq!(profile_file_name("cpp-dev"), "cpp-dev.yaml");
    assert_eq!(profile_file_name(""), ".yaml");
}

#[test]
fn listing_keeps_yaml_stems_sorted() {
    let files = strings(&["rust-dev.yaml", "notes.txt", "cpp-dev.yaml", ".yaml", "a.b.yaml", "x.YAML", "..yaml", "Zed.yaml", "yaml"]);
    assert_eq!(profile_names(&files), strings(&[".", "Zed", "a.b", "cpp-dev", "rust-dev"]));
    assert!(profile_names(&[]).is_empty());
    let stored = vec![profile_file_name("b"), profile_file_name("a"), profile_file_name("b")];
    assert_eq!(profile_names(&stored), strings(&["a", "b", "b"]));
}

#[test]
fn text_order_is_by_code_point() {
    assert!(text_le_exec("a", "b"));
    assert!(text_le_exec("ab", "abc"));
    assert!(!text_le_exec("abc", "ab"));
    assert!(text_le_exec("Z", "a"));
    assert!(text_le_exec("", ""));
    assert!(text_le_exec("é", "ö"));
    assert!(!text_le_exec("é", "z"));
}

#[test]
fn init_template_names_the_profile() {
    assert_eq!(
        profile_template("rust-dev"),
        "name: \"rust-dev\"\n\npackages:\n  # - gcc\n  # - cmake\n\nenv:\n  # CC: gcc\n  # CXX: g++\n\nsetup:\n  # - echo \"setup complete\"\n"
    );
}

#[test]
fn list_line_shows_counts_and_path() {
    assert_eq!(
        list_entry("cpp-dev", 4, 12, "/home/user/.envforge/cpp-dev.yaml"),
        "  cpp-dev  (packages: 4, env vars: 12, config: /home/user/.envforge/cpp-dev.yaml)"
    );
    assert_eq!(list_entry("p", 0, 0, "x"), "  p  (packages: 0, env vars: 0, config: x)");
}

#[test]
fn directory_changes_are_refused_or_previewed() {
    let e = init_change("dev", "/h/.envforge/dev.yaml", true, false).unwrap_err();
    assert_eq!(e.message(), "profile 'dev' already exists at /h/.envforge/dev.yaml");
    assert_eq!(init_change("dev", "p", false, true).unwrap(), FileChange::Preview);
    assert_eq!(init_change("dev", "p", false, false).unwrap(), FileChange::Apply);

    let e = create_change("./x.yaml", false, false).unwrap_err();
    assert_eq!(e, ProfileError::ConfigNotFound { path: "./x.yaml".to_string() });
    assert_eq!(e.message(), "config file not found: ./x.yaml");
    assert_eq!(create_change("./x.yaml", true, true).unwrap(), FileChange::Preview);
    assert_eq!(create_change("./x.yaml", true, false).unwrap(), FileChange::Apply);

    let e = remove_change("dev", false, true).unwrap_err();
    assert_eq!(e.message(), "profile 'dev' not found");
    assert_eq!(remove_change("dev", true, true).unwrap(), FileChange::Preview);
    assert_eq!(remove_change("dev", true, false).unwrap(), FileChange::Apply);
}
