use spacetime_token::commands::{
    accept_identity, add_profile, apply_profile, check_exit, delete_profile,
    follow_address_change, known_environments, list_contains, list_profiles, profile_from_session,
    profile_of_token, resolve_address, save_session,
};
use spacetime_token::error::ProfileError;
use spacetime_token::profile::{Profile, UserProfiles};
use spacetime_token::registry::{
    find_registry_entry, get_scalar, load_or_init_cli_toml, parse_cli_toml, read_cli_toml,
};
use spacetime_token::settings::AppSettings;
use spacetime_token::sync::get_current_environment;
use toml_edit::DocumentMut;

fn store(entries: &[(&str, &str, &str)]) -> UserProfiles {
    let mut profiles = UserProfiles::new();
    for (name, token, address) in entries {
        profiles.insert(name, Profile::new(token, address).unwrap());
    }
    profiles
}

fn doc(text: &str) -> DocumentMut {
    text.parse().unwrap()
}

fn some(text: &str) -> Option<String> {
    Some(text.to_string())
}

#[test]
fn default_settings() {
    let settings = AppSettings::default();
    assert_eq!(settings.profiles_filename, "profiles.toml");
    assert_eq!(settings.cli_config_dir_from_home, ".config/spacetime");
    assert_eq!(settings.cli_config_filename, "cli.toml");
    assert_eq!(settings.cli_token_key, "spacetimedb_token");
}

#[test]
fn the_address_of_a_new_profile() {
    assert_eq!(resolve_address(Some("x.example"), Some("y.example")), "x.example");
    assert_eq!(resolve_address(None, Some("y.example")), "y.example");
    assert_eq!(resolve_address(None, None), "local");
}

#[test]
fn applying_a_profile_activates_and_reconciles() {
    let profiles = store(&[("home", "a", "local"), ("work", "b", "https://x.example/spacetime")]);
    let mut document = DocumentMut::new();
    let settings = AppSettings::default();
    apply_profile(&mut document, &settings, "work", profiles.get("work").unwrap(), &profiles);
    assert_eq!(get_scalar(&document, "spacetimedb_token"), some("b"));
    assert_eq!(get_scalar(&document, "default_host"), some("https://x.example/spacetime"));
    assert_eq!(find_registry_entry(&document, "work").unwrap().host, some("x.example"));
    assert_eq!(find_registry_entry(&document, "home").unwrap().host, some("127.0.0.1:3000"));
    let rows = document.get("server_configs").unwrap().as_array_of_tables().unwrap();
    let first = rows.get(0).unwrap().get("nickname").unwrap().as_str();
    assert_eq!(first, Some("work"));
}

#[test]
fn the_session_of_a_document() {
    let document = doc("spacetimedb_token = \"tok\"\ndefault_host = \"local\"\n");
    let profile = profile_from_session(&document, "spacetimedb_token").unwrap();
    assert_eq!(profile.token, "tok");
    assert_eq!(profile.address, "local");
}

#[test]
fn a_document_without_a_session_is_not_logged_in() {
    let cases = [
        ("default_host = \"local\"\n", "spacetimedb_token"),
        ("spacetimedb_token = 5\ndefault_host = \"local\"\n", "spacetimedb_token"),
        ("spacetimedb_token = \"\"\n", "spacetimedb_token"),
        ("spacetimedb_token = \"tok\"\n", "default_host"),
        ("spacetimedb_token = \"tok\"\ndefault_host = 1\n", "default_host"),
    ];
    for (text, missing) in cases {
        match profile_from_session(&doc(text), "spacetimedb_token") {
            Err(ProfileError::NotLoggedIn { key }) => assert_eq!(key, missing),
            other => panic!("{:?}", other),
        }
    }
}

#[test]
fn saving_a_session_under_a_new_name() {
    let mut profiles = store(&[("home", "a", "local")]);
    let document = doc("spacetimedb_token = \"tok\"\ndefault_host = \"x.example\"\n");
    assert!(save_session(&mut profiles, "work", &document, "spacetimedb_token").is_ok());
    assert_eq!(profiles.get("work").unwrap().token, "tok");
    assert_eq!(profiles.get("work").unwrap().address, "x.example");
    match save_session(&mut profiles, "home", &document, "spacetimedb_token") {
        Err(ProfileError::AlreadyExists { name }) => assert_eq!(name, "home"),
        other => panic!("{:?}", other),
    }
    match save_session(&mut profiles, "spare", &DocumentMut::new(), "spacetimedb_token") {
        Err(ProfileError::NotLoggedIn { key }) => assert_eq!(key, "spacetimedb_token"),
        other => panic!("{:?}", other),
    }
    assert_eq!(profiles.len(), 2);
    assert_eq!(profiles.get("home").unwrap().token, "a");
}

#[test]
fn adding_a_profile_does_not_overwrite() {
    let mut profiles = store(&[("home", "a", "local")]);
    assert!(add_profile(&mut profiles, "work", Profile::new("b", "local").unwrap()).is_ok());
    match add_profile(&mut profiles, "home", Profile::new("c", "local").unwrap()) {
        Err(ProfileError::AlreadyExists { name }) => assert_eq!(name, "home"),
        other => panic!("{:?}", other),
    }
    assert_eq!(profiles.get("home").unwrap().token, "a");
    assert_eq!(profiles.len(), 2);
}

#[test]
fn deleting_a_profile() {
    let mut profiles = store(&[("home", "a", "local")]);
    match delete_profile(&mut profiles, "work") {
        Err(ProfileError::NotFound { what }) => assert_eq!(what, "work"),
        other => panic!("{:?}", other),
    }
    assert_eq!(delete_profile(&mut profiles, "home").unwrap().token, "a");
    assert!(profiles.is_empty());
}

#[test]
fn the_profile_of_a_credential() {
    let profiles = store(&[("home", "a", "local"), ("work", "b", "local"), ("spare", "b", "local")]);
    assert_eq!(profile_of_token(&profiles, "b"), some("work"));
    assert_eq!(profile_of_token(&profiles, "a"), some("home"));
    assert_eq!(profile_of_token(&profiles, "c"), None);
}

#[test]
fn an_address_change_follows_the_active_credential() {
    let mut profiles = store(&[("home", "a", "local"), ("work", "b", "y.example")]);
    let mut document = doc("spacetimedb_token = \"a\"\ndefault_host = \"elsewhere\"\n");
    profiles.set_address("home", "https://x.example/spacetime");
    let changed = follow_address_change(
        &mut document,
        "spacetimedb_token",
        "home",
        "a",
        "local",
        "https://x.example/spacetime",
        &profiles,
    );
    assert!(changed);
    assert_eq!(get_scalar(&document, "default_host"), some("https://x.example/spacetime"));
    assert_eq!(get_scalar(&document, "spacetimedb_token"), some("a"));
    assert_eq!(find_registry_entry(&document, "home").unwrap().host, some("x.example"));
    assert_eq!(find_registry_entry(&document, "work").unwrap().host, some("y.example"));
}

#[test]
fn an_address_change_follows_the_former_address() {
    let profiles = store(&[("home", "a", "x.example")]);
    let mut document = doc("spacetimedb_token = \"other\"\ndefault_host = \"local\"\n");
    assert!(follow_address_change(
        &mut document,
        "spacetimedb_token",
        "home",
        "a",
        "local",
        "x.example",
        &profiles
    ));
    assert_eq!(get_scalar(&document, "default_host"), some("x.example"));
}

#[test]
fn an_address_change_elsewhere_leaves_the_document() {
    let profiles = store(&[("home", "a", "x.example")]);
    let text = "spacetimedb_token = \"other\"\ndefault_host = \"y.example\"\n";
    let mut document = doc(text);
    assert!(!follow_address_change(
        &mut document,
        "spacetimedb_token",
        "home",
        "a",
        "local",
        "x.example",
        &profiles
    ));
    assert_eq!(document.to_string(), text);
}

#[test]
fn a_server_answer_with_a_credential_is_accepted() {
    assert_eq!(accept_identity("u", 200, Some("tok")).unwrap(), "tok");
    assert_eq!(accept_identity("u", 299, Some(" tok ")).unwrap(), " tok ");
    assert_eq!(accept_identity("u", 200, Some(" ")).unwrap(), " ");
    assert_eq!(accept_identity("u", 204, Some(" \n\t")).unwrap(), " \n\t");
}

#[test]
fn other_server_answers_are_network_failures() {
    for (status, token) in [
        (199, Some("tok")),
        (300, Some("tok")),
        (404, Some("tok")),
        (500, None),
        (200, None),
        (200, Some("")),
    ] {
        match accept_identity("http://h/v1/identity", status, token) {
            Err(ProfileError::NetworkFailure { url, status: answered }) => {
                assert_eq!(url, "http://h/v1/identity");
                assert_eq!(answered, Some(status));
            }
            other => panic!("{:?}", other),
        }
    }
}

#[test]
fn only_exit_code_zero_is_a_success() {
    assert!(check_exit(Some(0)).is_ok());
    for code in [Some(1), Some(-1), Some(255), None] {
        match check_exit(code) {
            Err(ProfileError::SubprocessFailure { code: failed }) => assert_eq!(failed, code),
            other => panic!("{:?}", other),
        }
    }
}

#[test]
fn profiles_are_listed_sorted_with_the_current_one_marked() {
    let profiles = store(&[("zed", "a", "local"), ("amy", "b", "x.example"), ("bob", "b", "local")]);
    let lines = list_profiles(&profiles, None, Some("b"));
    let shown: Vec<(&str, &str, bool)> =
        lines.iter().map(|l| (l.name.as_str(), l.address.as_str(), l.current)).collect();
    assert_eq!(
        shown,
        vec![("amy", "x.example", true), ("bob", "local", true), ("zed", "local", false)]
    );
    let local = list_profiles(&profiles, Some("local"), None);
    let shown: Vec<(&str, bool)> = local.iter().map(|l| (l.name.as_str(), l.current)).collect();
    assert_eq!(shown, vec![("bob", false), ("zed", false)]);
    assert!(list_profiles(&profiles, Some("nowhere"), Some("a")).is_empty());
}

#[test]
fn environments_are_listed_once_and_sorted() {
    let profiles = store(&[("a", "t", "local"), ("b", "t", "x.example"), ("c", "t", "local")]);
    assert_eq!(known_environments(&profiles), vec!["local".to_string(), "x.example".to_string()]);
    assert!(known_environments(&UserProfiles::new()).is_empty());
    assert!(list_contains(&vec!["a".to_string()], "a"));
    assert!(!list_contains(&vec!["a".to_string()], "A"));
}

#[test]
fn the_current_environment_is_the_raw_default_host() {
    let document = doc("default_host = \"https://x.example/spacetime/\"\n");
    assert_eq!(get_current_environment(Some(&document)), some("https://x.example/spacetime/"));
    assert_eq!(get_current_environment(Some(&DocumentMut::new())), None);
    assert_eq!(get_current_environment(Some(&doc("default_host = 3\n"))), None);
    assert_eq!(get_current_environment(None), None);
}

#[test]
fn reading_the_configuration_document() {
    let settings = AppSettings::default();
    let read = read_cli_toml(&settings, Some("a = \"b\"\n")).unwrap();
    assert_eq!(read.to_string(), "a = \"b\"\n");
    match read_cli_toml(&settings, None) {
        Err(ProfileError::NotFound { what }) => assert_eq!(what, "cli.toml"),
        other => panic!("{:?}", other),
    }
    match read_cli_toml(&settings, Some("a = ")) {
        Err(ProfileError::InvalidDocument { reason }) => assert!(!reason.is_empty()),
        other => panic!("{:?}", other),
    }
    assert_eq!(load_or_init_cli_toml(None).unwrap().to_string(), "");
    assert!(load_or_init_cli_toml(Some("a = ")).is_err());
    assert_eq!(load_or_init_cli_toml(Some("# c\n")).unwrap().to_string(), "# c\n");
    assert!(parse_cli_toml("[x").is_err());
}
