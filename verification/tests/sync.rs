use spacetime_token::profile::{Profile, UserProfiles};
use spacetime_token::registry::{
    find_registry_entry, get_scalar, set_scalar, upsert_registry_entry,
};
use spacetime_token::sync::{activate, sync_server_configs_from_profiles, update_cli_server_target};
use toml_edit::DocumentMut;

fn profile(token: &str, address: &str) -> Profile {
    Profile::new(token, address).unwrap()
}

fn store(entries: &[(&str, &str, &str)]) -> UserProfiles {
    let mut profiles = UserProfiles::new();
    for (name, token, address) in entries {
        profiles.insert(name, profile(token, address));
    }
    profiles
}

fn row(doc: &DocumentMut, nickname: &str) -> (Option<String>, Option<String>) {
    let found = find_registry_entry(doc, nickname).unwrap();
    assert_eq!(found.nickname, nickname);
    (found.host, found.protocol)
}

fn some(text: &str) -> Option<String> {
    Some(text.to_string())
}

fn row_count(doc: &DocumentMut) -> usize {
    doc.get("server_configs").unwrap().as_array_of_tables().unwrap().len()
}

#[test]
fn activate_then_reconcile_end_to_end() {
    let profiles = store(&[("home", "a", "local"), ("work", "b", "https://x.example/spacetime")]);
    let mut doc = DocumentMut::new();
    activate(&mut doc, "spacetimedb_token", "home", profiles.get("home").unwrap());
    assert_eq!(get_scalar(&doc, "default_host"), some("local"));
    assert_eq!(get_scalar(&doc, "spacetimedb_token"), some("a"));
    assert_eq!(row(&doc, "home"), (some("127.0.0.1:3000"), some("http")));
    assert!(find_registry_entry(&doc, "work").is_none());
    sync_server_configs_from_profiles(&mut doc, &profiles);
    assert_eq!(row(&doc, "home"), (some("127.0.0.1:3000"), some("http")));
    assert_eq!(row(&doc, "work"), (some("x.example"), some("https")));
    assert_eq!(row_count(&doc), 2);
}

#[test]
fn the_written_document_is_toml() {
    let profiles = store(&[("home", "a", "local")]);
    let mut doc = DocumentMut::new();
    activate(&mut doc, "spacetimedb_token", "home", profiles.get("home").unwrap());
    sync_server_configs_from_profiles(&mut doc, &profiles);
    let expected = "spacetimedb_token = \"a\"\ndefault_host = \"local\"\n\n[[server_configs]]\nnickname = \"home\"\nhost = \"127.0.0.1:3000\"\nprotocol = \"http\"\n";
    assert_eq!(doc.to_string(), expected);
}

#[test]
fn reconcile_keeps_rows_of_unknown_names() {
    let text = "[[server_configs]]\nnickname = \"gone\"\nhost = \"old.example\"\nprotocol = \"https\"\n";
    let mut doc: DocumentMut = text.parse().unwrap();
    let profiles = store(&[("home", "a", "local")]);
    sync_server_configs_from_profiles(&mut doc, &profiles);
    assert_eq!(row(&doc, "gone"), (some("old.example"), some("https")));
    assert_eq!(row(&doc, "home"), (some("127.0.0.1:3000"), some("http")));
    assert_eq!(row_count(&doc), 2);
}

#[test]
fn reconcile_with_an_empty_store_only_creates_the_registry() {
    let mut doc = DocumentMut::new();
    sync_server_configs_from_profiles(&mut doc, &UserProfiles::new());
    assert_eq!(row_count(&doc), 0);
}

#[test]
fn activate_then_reconcile_leaves_one_row_for_the_name() {
    let text = "[[server_configs]]\nnickname = \"home\"\nhost = \"stale\"\nprotocol = \"https\"\n";
    let mut doc: DocumentMut = text.parse().unwrap();
    let profiles = store(&[("work", "b", "h2.example"), ("home", "a", "http://h1.example/spacetime")]);
    activate(&mut doc, "spacetimedb_token", "home", profiles.get("home").unwrap());
    sync_server_configs_from_profiles(&mut doc, &profiles);
    assert_eq!(row(&doc, "home"), (some("h1.example"), some("http")));
    let rows = doc.get("server_configs").unwrap().as_array_of_tables().unwrap();
    let named = rows.iter().filter(|t| t.get("nickname").and_then(|v| v.as_str()) == Some("home"));
    assert_eq!(named.count(), 1);
    assert_eq!(rows.len(), 2);
}

#[test]
fn upsert_updates_in_place_and_keeps_other_fields() {
    let text = "[[server_configs]]\nnickname = \"a\"\nhost = \"one\"\nprotocol = \"http\"\nextra = 7\n\n[[server_configs]]\nnickname = \"b\"\nhost = \"two\"\nprotocol = \"http\"\n";
    let mut doc: DocumentMut = text.parse().unwrap();
    upsert_registry_entry(&mut doc, "a", "changed", "https");
    assert_eq!(row(&doc, "a"), (some("changed"), some("https")));
    assert_eq!(row(&doc, "b"), (some("two"), some("http")));
    let rows = doc.get("server_configs").unwrap().as_array_of_tables().unwrap();
    assert_eq!(rows.get(0).unwrap().get("extra").unwrap().as_integer(), Some(7));
    assert_eq!(rows.len(), 2);
}

#[test]
fn upsert_matches_nicknames_exactly() {
    let mut doc = DocumentMut::new();
    upsert_registry_entry(&mut doc, "dev", "one", "http");
    upsert_registry_entry(&mut doc, "Dev", "two", "http");
    upsert_registry_entry(&mut doc, "dev ", "three", "http");
    assert_eq!(row_count(&doc), 3);
    assert_eq!(row(&doc, "dev"), (some("one"), some("http")));
}

#[test]
fn a_registry_that_is_no_array_of_tables_is_left_alone() {
    let mut doc: DocumentMut = "server_configs = 5\n".parse().unwrap();
    update_cli_server_target(&mut doc, "home", "local");
    assert_eq!(doc.to_string(), "server_configs = 5\n");
    assert!(find_registry_entry(&doc, "home").is_none());
}

#[test]
fn unknown_keys_and_comments_survive() {
    let text = "# owned by the other tool\nweb_session_token = \"w\" # keep\n\n[other]\nvalue = 1\n";
    let mut doc: DocumentMut = text.parse().unwrap();
    let profiles = store(&[("home", "a", "local")]);
    activate(&mut doc, "spacetimedb_token", "home", profiles.get("home").unwrap());
    sync_server_configs_from_profiles(&mut doc, &profiles);
    let written = doc.to_string();
    assert!(written.starts_with("# owned by the other tool\nweb_session_token = \"w\" # keep\n"));
    assert!(written.contains("[other]\nvalue = 1\n"));
}

#[test]
fn scalars_are_read_only_where_they_are_strings() {
    let mut doc: DocumentMut = "number = 3\n".parse().unwrap();
    assert_eq!(get_scalar(&doc, "number"), None);
    assert_eq!(get_scalar(&doc, "missing"), None);
    set_scalar(&mut doc, "number", "three");
    assert_eq!(get_scalar(&doc, "number"), some("three"));
}

#[test]
fn activate_keeps_the_raw_address_for_display() {
    let mut doc = DocumentMut::new();
    activate(&mut doc, "tok", "p", &profile("secret", "https://x.example/spacetime/"));
    assert_eq!(get_scalar(&doc, "default_host"), some("https://x.example/spacetime/"));
    assert_eq!(row(&doc, "p"), (some("x.example"), some("https")));
}

#[test]
fn activation_writes_three_things_and_no_more() {
    let text = "default_server = \"theirs\"\nother = 1\n";
    let mut doc: DocumentMut = text.parse().unwrap();
    activate(&mut doc, "spacetimedb_token", "home", &profile("a", "local"));
    let expected = "default_server = \"theirs\"\nother = 1\nspacetimedb_token = \"a\"\ndefault_host = \"local\"\n\n[[server_configs]]\nnickname = \"home\"\nhost = \"127.0.0.1:3000\"\nprotocol = \"http\"\n";
    assert_eq!(doc.to_string(), expected);
}

#[test]
fn a_server_target_touches_the_registry_alone() {
    let mut doc = DocumentMut::new();
    update_cli_server_target(&mut doc, "home", "https://x.example/spacetime");
    let expected = "[[server_configs]]\nnickname = \"home\"\nhost = \"x.example\"\nprotocol = \"https\"\n";
    assert_eq!(doc.to_string(), expected);
}

#[test]
fn a_value_that_is_no_table_counts_as_a_row_without_fields() {
    let text = "[[server_configs]]\nnickname = \"home\"\nhost = \"old\"\nprotocol = \"http\"\n";
    let mut doc: DocumentMut = text.parse().unwrap();
    doc["server_configs"][0] = toml_edit::value(1);
    assert!(find_registry_entry(&doc, "home").is_none());
    upsert_registry_entry(&mut doc, "home", "new", "https");
    assert_eq!(row(&doc, "home"), (some("new"), some("https")));
    assert_eq!(row_count(&doc), 2);
    upsert_registry_entry(&mut doc, "home", "newer", "http");
    assert_eq!(row(&doc, "home"), (some("newer"), some("http")));
    assert_eq!(row_count(&doc), 2);
}
