use package_registry::encode::escape;

#[test]
fn unreserved_characters_stand_for_themselves() {
    assert_eq!(escape("foo"), "foo");
    assert_eq!(escape("Az09-._~"), "Az09-._~");
    assert_eq!(escape("requests-2.31.0.tar.gz"), "requests-2.31.0.tar.gz");
    assert_eq!(escape(""), "");
}

#[test]
fn other_characters_are_percent_encoded() {
    assert_eq!(escape("a b"), "a%20b");
    assert_eq!(escape("a/b"), "a%2Fb");
    assert_eq!(escape("100%"), "100%25");
    assert_eq!(escape("a+b=c?d#e&f"), "a%2Bb%3Dc%3Fd%23e%26f");
    assert_eq!(escape("@scope:pkg"), "%40scope%3Apkg");
}

#[test]
fn the_characters_next_to_the_unreserved_ranges_are_encoded() {
    assert_eq!(escape("/:"), "%2F%3A");
    assert_eq!(escape("@["), "%40%5B");
    assert_eq!(escape("`{"), "%60%7B");
    assert_eq!(escape(","), "%2C");
    assert_eq!(escape("^"), "%5E");
    assert_eq!(escape("}\u{7f}"), "%7D%7F");
    assert_eq!(escape("\u{0}\u{1f}"), "%00%1F");
}

#[test]
fn characters_beyond_ascii_are_encoded_byte_by_byte() {
    assert_eq!(escape("\u{e9}"), "%C3%A9");
    assert_eq!(escape("d\u{e9}p\u{f4}t"), "d%C3%A9p%C3%B4t");
    assert_eq!(escape("\u{2603}"), "%E2%98%83");
    assert_eq!(escape("\u{1f980}"), "%F0%9F%A6%80");
}

#[test]
fn an_escaped_name_is_one_path_segment() {
    let names = ["a/b/c", "..", "?x=1#y", "\u{e9}/\u{2603}", " ", "%2F", "a\\b", "plain-1.0_~"];
    for name in names {
        for c in escape(name).chars() {
            let unreserved = c.is_ascii_alphanumeric() || "-._~".contains(c);
            assert!(unreserved || c == '%');
        }
    }
}
