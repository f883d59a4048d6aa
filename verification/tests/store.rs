use spacetime_token::error::{ProfileError, SchemaFailure};
use spacetime_token::profile::{Profile, UserProfiles};
use spacetime_token::store::{
    profiles_document, profiles_from_document, read_profiles, write_profiles, Schema,
};
use toml_edit::DocumentMut;

fn held(profiles: &UserProfiles, name: &str) -> (String, String) {
    let profile = profiles.get(name).unwrap();
    (profile.token.clone(), profile.address.clone())
}

fn pair(token: &str, address: &str) -> (String, String) {
    (token.to_string(), address.to_string())
}

#[test]
fn a_missing_file_gives_an_empty_store_and_an_empty_file() {
    let loaded = read_profiles(None).unwrap();
    assert!(loaded.profiles.is_empty());
    assert_eq!(loaded.schema, Schema::Current);
    assert_eq!(loaded.persist.unwrap().to_string(), "");
}

#[test]
fn a_blank_file_gives_an_empty_store_and_no_write() {
    for text in ["", "  \n\t\r\n", "\u{a0}\u{3000}"] {
        let loaded = read_profiles(Some(text)).unwrap();
        assert!(loaded.profiles.is_empty());
        assert!(loaded.persist.is_none());
    }
}

#[test]
fn the_current_schema_is_read_as_it_is() {
    let text = "[alice]\ntoken = \"tok123\"\naddress = \"https://x.example/spacetime\"\n\n[bob]\naddress = \"local\"\ntoken = \"b\"\n";
    let loaded = read_profiles(Some(text)).unwrap();
    assert_eq!(loaded.schema, Schema::Current);
    assert!(loaded.persist.is_none());
    assert_eq!(loaded.profiles.len(), 2);
    assert_eq!(held(&loaded.profiles, "alice"), pair("tok123", "https://x.example/spacetime"));
    assert_eq!(held(&loaded.profiles, "bob"), pair("b", "local"));
}

#[test]
fn inline_tables_are_the_current_schema_too() {
    let text = "alice = { token = \"t\", address = \"local\" }\n";
    let loaded = read_profiles(Some(text)).unwrap();
    assert_eq!(loaded.schema, Schema::Current);
    assert_eq!(held(&loaded.profiles, "alice"), pair("t", "local"));
}

#[test]
fn legacy_store_is_migrated_and_persisted() {
    let loaded = read_profiles(Some("alice = \"tok123\"\n")).unwrap();
    assert_eq!(loaded.schema, Schema::Legacy);
    assert_eq!(loaded.profiles.len(), 1);
    assert_eq!(held(&loaded.profiles, "alice"), pair("tok123", "local"));
    let upgraded = loaded.persist.unwrap().to_string();
    assert_eq!(upgraded, "[alice]\ntoken = \"tok123\"\naddress = \"local\"\n");
    let again = read_profiles(Some(&upgraded)).unwrap();
    assert_eq!(again.schema, Schema::Current);
    assert!(again.persist.is_none());
    assert_eq!(held(&again.profiles, "alice"), pair("tok123", "local"));
}

#[test]
fn a_store_of_neither_schema_is_corrupt() {
    for (text, not_current, not_legacy) in [
        ("alice = 5\n", "alice", "alice"),
        ("alice = \"tok\"\n[bob]\ntoken = \"t\"\naddress = \"local\"\n", "alice", "bob"),
        ("[alice]\ntoken = \"t\"\n", "alice", "alice"),
        ("[alice]\ntoken = 7\naddress = \"local\"\n", "alice", "alice"),
        ("[[alice]]\ntoken = \"t\"\naddress = \"local\"\n", "alice", "alice"),
        ("[ann]\ntoken = \"t\"\naddress = \"local\"\n[bob]\ntoken = \"\"\naddress = \"x\"\n", "bob", "ann"),
    ] {
        match read_profiles(Some(text)) {
            Err(ProfileError::CorruptStore {
                current: SchemaFailure::Shape { entry: first },
                legacy: SchemaFailure::Shape { entry: second },
            }) => {
                assert_eq!(first, not_current, "{:?}", text);
                assert_eq!(second, not_legacy, "{:?}", text);
            }
            other => panic!("{:?}", other),
        }
    }
}

#[test]
fn text_that_is_no_toml_is_corrupt() {
    match read_profiles(Some("alice = = \"tok\"")) {
        Err(ProfileError::CorruptStore {
            current: SchemaFailure::Syntax(first),
            legacy: SchemaFailure::Syntax(second),
        }) => {
            assert!(!first.is_empty());
            assert_eq!(first, second);
        }
        other => panic!("{:?}", other),
    }
}

#[test]
fn a_stored_credential_is_never_empty() {
    assert!(read_profiles(Some("[alice]\ntoken = \"\"\naddress = \"local\"\n")).is_err());
    assert!(read_profiles(Some("alice = \"\"\n")).is_err());
    assert!(Profile::new("", "local").is_none());
}

#[test]
fn a_document_without_entries_is_an_empty_store() {
    let loaded = read_profiles(Some("# nothing yet\n")).unwrap();
    assert!(loaded.profiles.is_empty());
    assert_eq!(loaded.schema, Schema::Current);
    assert!(loaded.persist.is_none());
}

#[test]
fn save_then_load_round_trips() {
    let mut profiles = UserProfiles::new();
    profiles.insert("home", Profile::new("a", "local").unwrap());
    profiles.insert("work", Profile::new("b \"quoted\" \\ ü", "https://x.example/spacetime").unwrap());
    profiles.insert("name with spaces", Profile::new("c", "").unwrap());
    let text = write_profiles(&profiles);
    let loaded = read_profiles(Some(&text)).unwrap();
    assert_eq!(loaded.schema, Schema::Current);
    assert_eq!(loaded.profiles.len(), 3);
    for name in ["home", "work", "name with spaces"] {
        assert_eq!(held(&loaded.profiles, name), held(&profiles, name));
    }
}

#[test]
fn the_store_is_written_as_one_table_per_name() {
    let mut profiles = UserProfiles::new();
    profiles.insert("home", Profile::new("a", "local").unwrap());
    profiles.insert("work", Profile::new("b", "host.example").unwrap());
    let expected = "[home]\ntoken = \"a\"\naddress = \"local\"\n\n[work]\ntoken = \"b\"\naddress = \"host.example\"\n";
    assert_eq!(write_profiles(&profiles), expected);
    assert_eq!(profiles_document(&profiles).to_string(), expected);
    assert_eq!(write_profiles(&UserProfiles::new()), "");
}

#[test]
fn a_document_is_read_by_its_shape() {
    let doc: DocumentMut = "a = \"x\"\nb = \"y\"\n".parse().unwrap();
    let (profiles, schema) = profiles_from_document(&doc).unwrap();
    assert_eq!(schema, Schema::Legacy);
    assert_eq!(profiles.names(), vec!["a".to_string(), "b".to_string()]);
    let mixed: DocumentMut = "a = \"x\"\nb = 1\n".parse().unwrap();
    match profiles_from_document(&mixed) {
        Err(ProfileError::CorruptStore {
            current: SchemaFailure::Shape { entry: first },
            legacy: SchemaFailure::Shape { entry: second },
        }) => {
            assert_eq!(first, "a");
            assert_eq!(second, "b");
        }
        other => panic!("{:?}", other),
    }
}

#[test]
fn fields_that_are_not_read_do_not_spoil_a_profile() {
    let text = "[alice]\ntoken = \"t\"\naddress = \"local\"\nnote = \"mine\"\n";
    let loaded = read_profiles(Some(text)).unwrap();
    assert_eq!(held(&loaded.profiles, "alice"), pair("t", "local"));
}
