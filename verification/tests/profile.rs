use spacetime_token::profile::{Profile, UserProfiles};

fn profile(token: &str, address: &str) -> Profile {
    Profile::new(token, address).unwrap()
}

#[test]
fn insert_overwrites_and_returns_the_previous_profile() {
    let mut profiles = UserProfiles::new();
    assert!(profiles.insert("a", profile("one", "local")).is_none());
    assert!(profiles.insert("b", profile("two", "local")).is_none());
    let previous = profiles.insert("a", profile("three", "x.example")).unwrap();
    assert_eq!(previous.token, "one");
    assert_eq!(profiles.len(), 2);
    assert_eq!(profiles.get("a").unwrap().token, "three");
    assert_eq!(profiles.get("a").unwrap().address, "x.example");
    assert_eq!(profiles.names(), vec!["a".to_string(), "b".to_string()]);
}

#[test]
fn names_are_case_sensitive() {
    let mut profiles = UserProfiles::new();
    profiles.insert("Admin", profile("one", "local"));
    assert!(profiles.contains_key("Admin"));
    assert!(!profiles.contains_key("admin"));
    assert!(profiles.get("admin").is_none());
}

#[test]
fn remove_takes_one_profile_out() {
    let mut profiles = UserProfiles::new();
    profiles.insert("a", profile("one", "local"));
    profiles.insert("b", profile("two", "local"));
    profiles.insert("c", profile("three", "local"));
    assert_eq!(profiles.remove("b").unwrap().token, "two");
    assert!(profiles.remove("b").is_none());
    assert_eq!(profiles.names(), vec!["a".to_string(), "c".to_string()]);
    assert_eq!(profiles.position("c"), Some(1));
    assert_eq!(profiles.position("b"), None);
}

#[test]
fn set_address_keeps_the_credential() {
    let mut profiles = UserProfiles::new();
    profiles.insert("a", profile("one", "local"));
    assert!(profiles.set_address("a", "https://x.example"));
    assert!(!profiles.set_address("b", "https://x.example"));
    assert_eq!(profiles.get("a").unwrap().token, "one");
    assert_eq!(profiles.get("a").unwrap().address, "https://x.example");
    assert_eq!(profiles.len(), 1);
}

#[test]
fn a_duplicate_is_equal_in_both_fields() {
    let original = profile("one", "local");
    let copy = original.duplicate();
    assert_eq!(copy.token, "one");
    assert_eq!(copy.address, "local");
}

#[test]
fn positions_follow_the_order_of_arrival() {
    let mut profiles = UserProfiles::new();
    profiles.insert("z", profile("1", "local"));
    profiles.insert("a", profile("2", "local"));
    assert_eq!(profiles.name_at(0), "z");
    assert_eq!(profiles.profile_at(1).token, "2");
    assert!(!profiles.is_empty());
}
