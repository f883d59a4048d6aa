use spacetime_token::address::{identity_url, normalize_identity_base, normalize_server_target};

fn target(address: &str) -> (String, String) {
    normalize_server_target(address)
}

fn pair(protocol: &str, host: &str) -> (String, String) {
    (protocol.to_string(), host.to_string())
}

#[test]
fn local_is_the_loopback_alias() {
    assert_eq!(target("local"), pair("http", "127.0.0.1:3000"));
}

#[test]
fn https_url_with_spacetime_segment() {
    assert_eq!(target("https://host.example/spacetime/"), pair("https", "host.example"));
}

#[test]
fn bare_host_defaults_to_http() {
    assert_eq!(target("host.example"), pair("http", "host.example"));
}

#[test]
fn http_url_keeps_its_port() {
    assert_eq!(target("http://10.0.0.7:3000/spacetime"), pair("http", "10.0.0.7:3000"));
}

#[test]
fn host_ends_at_the_next_slash() {
    assert_eq!(target("https://x.example/a/b"), pair("https", "x.example"));
    assert_eq!(target("x.example/a/b"), pair("http", "x.example"));
}

#[test]
fn malformed_addresses_give_an_empty_host() {
    assert_eq!(target(""), pair("http", ""));
    assert_eq!(target("/spacetime"), pair("http", ""));
    assert_eq!(target("https:///path"), pair("https", ""));
}

#[test]
fn local_is_only_an_alias_when_alone() {
    assert_eq!(target("local/"), pair("http", "local"));
    assert_eq!(target("Local"), pair("http", "Local"));
}

#[test]
fn the_spacetime_segment_is_case_sensitive_and_taken_once() {
    assert_eq!(normalize_identity_base("http://h/Spacetime"), "http://h/Spacetime");
    assert_eq!(normalize_identity_base("http://h/spacetime/spacetime"), "http://h/spacetime");
}

#[test]
fn one_slash_is_taken_on_each_side_of_the_segment() {
    assert_eq!(normalize_identity_base("http://h/"), "http://h");
    assert_eq!(normalize_identity_base("http://h//spacetime/"), "http://h");
    assert_eq!(normalize_identity_base("http://h///"), "http://h/");
    assert_eq!(target("https:////spacetime"), pair("https", ""));
}

#[test]
fn identity_base_keeps_the_scheme() {
    assert_eq!(normalize_identity_base("https://host.example/spacetime/"), "https://host.example");
    assert_eq!(normalize_identity_base("host.example"), "host.example");
    assert_eq!(normalize_identity_base("local"), "local");
}

#[test]
fn identity_url_appends_the_endpoint() {
    assert_eq!(
        identity_url("https://host.example/spacetime"),
        "https://host.example/v1/identity"
    );
}

#[test]
fn normalizing_a_normalized_target_changes_nothing() {
    for address in ["local", "https://host.example/spacetime/", "host.example", "http://a:1/b"] {
        let (protocol, host) = target(address);
        let again = target(&format!("{}://{}", protocol, host));
        assert_eq!(again, (protocol, host));
    }
}

#[test]
fn a_host_named_spacetime_is_not_a_fixed_point() {
    assert_eq!(target("spacetime"), pair("http", "spacetime"));
    assert_eq!(target("http://spacetime"), pair("http", "http:"));
}

#[test]
fn a_normalized_base_is_its_own_base() {
    let base = normalize_identity_base("https://host.example/spacetime/");
    assert_eq!(normalize_identity_base(&base), base);
}

#[test]
fn characters_outside_ascii_are_kept() {
    assert_eq!(target("https://höst.example/spacetime"), pair("https", "höst.example"));
}
