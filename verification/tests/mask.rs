use spacetime_token::mask::{can_mask, mask_token};

#[test]
fn short_credentials_are_shown_whole() {
    assert_eq!(mask_token(""), "");
    assert_eq!(mask_token("abc"), "abc");
    assert_eq!(mask_token("0123456789"), "0123456789");
}

#[test]
fn long_credentials_keep_five_bytes_at_each_end() {
    assert_eq!(mask_token("0123456789a"), "01234...6789a");
    assert_eq!(mask_token("eyJhbGciOiJFUzI1NiJ9.payload.signature"), "eyJhb...ature");
}

#[test]
fn length_is_counted_in_bytes() {
    assert_eq!(mask_token("ééééé"), "ééééé");
    assert_eq!(mask_token("abcdeéééfghij"), "abcde...fghij");
    assert_eq!(mask_token("éabcxxxxxxxyzé"), "éabc...xyzé");
    assert_eq!(mask_token("abcdefghijé"), "abcde...hijé");
}

#[test]
fn a_cut_inside_a_character_is_refused() {
    assert!(can_mask("0123456789a"));
    assert!(can_mask("ééééé"));
    assert!(!can_mask("éééééa"));
    assert!(!can_mask("abcdéfghijk"));
    assert!(!can_mask("abcdefgéhijk"));
    assert!(can_mask("abcdefghijé"));
}
