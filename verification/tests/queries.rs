//! Query-string parsing: percent decoding and the key-to-values table.

use nails::query::{parse_percent_encoding, parse_query, parse_query_pair};

fn s(v: &str) -> String {
    v.to_owned()
}

#[test]
fn test_parse_query() {
    let t = parse_query("foo=bar");
    assert_eq!(t.num_keys(), 1);
    assert_eq!(t.get("foo"), Some(&vec![s("bar")]));

    let t = parse_query("foo=bar&foo=baz");
    assert_eq!(t.num_keys(), 1);
    assert_eq!(t.get("foo"), Some(&vec![s("bar"), s("baz")]));

    let t = parse_query("foo=bar&foo2=baz");
    assert_eq!(t.num_keys(), 2);
    assert_eq!(t.get("foo"), Some(&vec![s("bar")]));
    assert_eq!(t.get("foo2"), Some(&vec![s("baz")]));

    let t = parse_query("foo&foo=foo=foo&f%oo=1&1=%E3");
    assert_eq!(t.num_keys(), 0);
}

#[test]
fn test_parse_percent_encoding() {
    assert_eq!(parse_percent_encoding("foo"), Some(s("foo")));
    assert_eq!(parse_percent_encoding("f%6F%6f"), Some(s("foo")));
    assert_eq!(parse_percent_encoding("\u{3042}"), Some(s("\u{3042}")));
    assert_eq!(parse_percent_encoding("%E3%81%82"), Some(s("\u{3042}")));
}

#[test]
fn test_parse_percent_encoding_failing() {
    assert_eq!(parse_percent_encoding("fo%"), None);
    assert_eq!(parse_percent_encoding("%kv"), None);
    assert_eq!(parse_percent_encoding("%E3%81"), None);
    // well-formed escapes that decode to invalid UTF-8 drop the pair too
    assert_eq!(parse_percent_encoding("%FF"), None);
}

#[test]
fn test_parse_query_pair() {
    assert_eq!(parse_query_pair("a=b"), Some((s("a"), s("b"))));
    assert_eq!(parse_query_pair("a%20b=c%2Fd"), Some((s("a b"), s("c/d"))));
    assert_eq!(parse_query_pair("a"), None);
    assert_eq!(parse_query_pair("a=b=c"), None);
    assert_eq!(parse_query_pair("a=%"), None);
    assert_eq!(parse_query_pair("="), Some((s(""), s(""))));
}

#[test]
fn test_parse_query_empty_values() {
    let t = parse_query("a=&a=x");
    assert_eq!(t.get("a"), Some(&vec![s(""), s("x")]));
    let t = parse_query("");
    assert_eq!(t.num_keys(), 0);
}
