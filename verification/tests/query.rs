use anweb::query::{parse_query, QueryNameValue};

fn nv(name: &[u8], value: &[u8]) -> QueryNameValue {
    QueryNameValue { name: name.to_vec(), value: value.to_vec() }
}

#[test]
fn query_parse() {
    assert!(parse_query(b"").parts.is_empty());
    assert!(parse_query(b"&").parts.is_empty());
    assert!(parse_query(b"&&").parts.is_empty());
    assert!(!parse_query(b"x").parts.is_empty());
    assert_eq!(parse_query(b"x=").parts, vec![nv(b"x", b"")]);
    assert_eq!(parse_query(b"x=1").parts, vec![nv(b"x", b"1")]);
    assert_eq!(parse_query(b"x&").parts, vec![nv(b"x", b"")]);
    assert_eq!(parse_query(b"x&y").parts, vec![nv(b"x", b""), nv(b"y", b"")]);
    assert_eq!(parse_query(b"x=1&y=").parts, vec![nv(b"x", b"1"), nv(b"y", b"")]);
    assert_eq!(parse_query(b"x=1&y=1").parts, vec![nv(b"x", b"1"), nv(b"y", b"1")]);
    assert_eq!(parse_query(b"x=1&y=1").parts, vec![nv(b"x", b"1"), nv(b"y", b"1")]);
    assert_eq!(
        parse_query(b"x&y;z").parts,
        vec![nv(b"x", b""), nv(b"y", b""), nv(b"z", b"")]
    );
    assert_eq!(
        parse_query(b"abc=xyz&test=check&xyz=abc").parts,
        vec![nv(b"abc", b"xyz"), nv(b"test", b"check"), nv(b"xyz", b"abc")]
    );
}

#[test]
fn query_values_decoded() {
    let q = parse_query(b"first=text1&second=utf-8+%E0%AC%B6%E1%A8%87%D8%86");
    assert_eq!(q.value("first"), Some("text1".to_string()));
    // Positional access reads `+` as a space.
    assert_eq!(q.value_at(0), Some("text1".to_string()));
    assert_eq!(q.value_at(1), Some("utf-8 \u{B36}\u{1A07}\u{606}".to_string()));
    assert_eq!(q.value_at(2), None);
}

#[test]
fn form_values_decoded() {
    // An application/x-www-form-urlencoded body, 70 bytes long.
    let body: &[u8] = b"first=-%E0%A8%8A%E0%B0%88%E0%AF%B5&second=%E0%AF%B5%E0%B0%88%E0%A8%8A-";
    assert_eq!(body.len(), 70);
    let form = parse_query(body);
    assert_eq!(form.value("first"), Some("-\u{A0A}\u{C08}\u{BF5}".to_string()));
    assert_eq!(form.value("second"), Some("\u{BF5}\u{C08}\u{A0A}-".to_string()));
}

#[test]
fn value_skips_undecodable() {
    // The first pair under the name does not decode to UTF-8; the search
    // moves on to the next one.
    let q = parse_query(b"k=%ff&k=ok");
    assert_eq!(q.value("k"), Some("ok".to_string()));
    assert_eq!(q.value("missing"), None);
}
