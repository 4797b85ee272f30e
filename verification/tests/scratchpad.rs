use openflow::scratchpad::encode_query;

#[test]
fn encodes_only_unsafe_characters() {
    assert_eq!(encode_query("1718000000000-3"), "1718000000000-3");
    assert_eq!(encode_query("a b&c"), "a%20b%26c");
}

#[test]
fn encodes_each_utf8_byte_in_upper_hex() {
    assert_eq!(encode_query("é/~._"), "%C3%A9%2F~._");
}

#[test]
fn encoded_values_hold_only_url_safe_characters() {
    let out = encode_query("note #1?&=+/ ünïcödé\n\"'<>");
    assert!(out
        .chars()
        .all(|c| c.is_ascii_alphanumeric() || "-_.~%".contains(c)));
    assert!(!out.contains('#') && !out.contains('&') && !out.contains('='));
}
