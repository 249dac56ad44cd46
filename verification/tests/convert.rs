//! The typed conversions: path components and query value lists into
//! strongly typed values.

use nails::error::QueryError;
use nails::request::{i64_to_path, u64_to_path, FromPath, FromQuery, JsonBody};

fn s(v: &str) -> String {
    v.to_owned()
}

#[test]
fn test_from_path() {
    assert_eq!(String::from_path("%20\u{3042}"), Ok(s("%20\u{3042}")));
    assert_eq!(i32::from_path("20"), Ok(20));
    assert_eq!(i32::from_path("08"), Ok(8));
    assert_eq!(i32::from_path("-2"), Ok(-2));
    assert_eq!(i32::from_path(" 5"), Err(()));
    assert_eq!(i8::from_path("200"), Err(()));
    assert_eq!(u32::from_path("-1"), Err(()));

    assert!(String::matches("%20\u{3042}"));
    assert!(i32::matches("20"));
    assert!(i32::matches("08"));
    assert!(i32::matches("-2"));
    assert!(!i32::matches(" 5"));
    assert!(!i8::matches("200"));
    assert!(!u32::matches("-1"));
}

#[test]
fn test_from_query() {
    assert_eq!(String::from_query(&[]).ok(), None);
    assert_eq!(String::from_query(&[s("foo")]).ok(), Some(s("foo")));
    assert_eq!(String::from_query(&[s("foo"), s("bar")]).ok(), None);
    assert_eq!(Option::<String>::from_query(&[]).ok(), Some(None));
    assert_eq!(
        Option::<String>::from_query(&[s("foo")]).ok(),
        Some(Some(s("foo")))
    );
    assert_eq!(Option::<String>::from_query(&[s("foo"), s("bar")]).ok(), None);
    assert_eq!(i32::from_query(&[s("42")]).ok(), Some(42));
    assert_eq!(i32::from_query(&[s("42"), s("42")]).ok(), None);
    assert_eq!(i32::from_query(&[s("4x2")]).ok(), None);
    assert_eq!(i32::from_query(&[]).ok(), None);
    assert_eq!(Vec::<i32>::from_query(&[]).ok(), Some(vec![]));
    assert_eq!(Vec::<i32>::from_query(&[s("42")]).ok(), Some(vec![42]));
    assert_eq!(
        Vec::<i32>::from_query(&[s("42"), s("42")]).ok(),
        Some(vec![42, 42])
    );
}

#[test]
fn test_from_query_errors() {
    assert_eq!(String::from_query(&[]), Err(QueryError::NoQuery));
    assert_eq!(
        String::from_query(&[s("a"), s("b")]),
        Err(QueryError::MultipleQuery)
    );
    assert_eq!(String::from_query(&[s("a")]), Ok(s("a")));
    assert_eq!(i32::from_query(&[s("4x2")]), Err(QueryError::ParseIntError));
    assert_eq!(
        Vec::<i32>::from_query(&[s("1"), s("x")]),
        Err(QueryError::ParseIntError)
    );
    assert_eq!(
        Option::<i32>::from_query(&[s("1"), s("2")]),
        Err(QueryError::MultipleQuery)
    );
}

#[test]
fn test_option_from_query_empty_regardless_of_type() {
    assert_eq!(Option::<String>::from_query(&[]), Ok(None));
    assert_eq!(Option::<i32>::from_query(&[]), Ok(None));
    assert_eq!(Option::<u128>::from_query(&[]), Ok(None));
    assert_eq!(Option::<Vec<String>>::from_query(&[]), Ok(None));
}

#[test]
fn test_int_path_roundtrip() {
    assert_eq!(u64_to_path(0).as_str(), "0");
    assert_eq!(u64_to_path(42).as_str(), "42");
    assert_eq!(u64_to_path(u64::MAX).as_str(), "18446744073709551615");
    assert_eq!(u64::from_path(&u64_to_path(42)), Ok(42));
    assert_eq!(u64::from_path(&u64_to_path(u64::MAX)), Ok(u64::MAX));

    assert_eq!(i64_to_path(-7).as_str(), "-7");
    assert_eq!(i64_to_path(i64::MIN).as_str(), "-9223372036854775808");
    assert_eq!(i64::from_path(&i64_to_path(-7)), Ok(-7));
    assert_eq!(i64::from_path(&i64_to_path(i64::MIN)), Ok(i64::MIN));
    assert_eq!(i64::from_path(&i64_to_path(i64::MAX)), Ok(i64::MAX));
}

#[test]
fn test_json_body_wrapper() {
    let body: JsonBody<u32> = JsonBody(5);
    assert_eq!(body.0, 5);
    assert_eq!(body, JsonBody(5));
    assert!(JsonBody(1) < JsonBody(2));
}

#[test]
fn test_int_path_edges() {
    assert_eq!(u8::from_path("255"), Ok(255));
    assert_eq!(u8::from_path("256"), Err(()));
    assert_eq!(i8::from_path("-128"), Ok(-128));
    assert_eq!(i8::from_path("-129"), Err(()));
    assert_eq!(u64::from_path("+5"), Ok(5));
    assert_eq!(u64::from_path("+"), Err(()));
    assert_eq!(u64::from_path(""), Err(()));
    assert_eq!(i128::from_path("-170141183460469231731687303715884105728"), Ok(i128::MIN));
    assert_eq!(u128::from_path("340282366920938463463374607431768211455"), Ok(u128::MAX));
    assert_eq!(u128::from_path("340282366920938463463374607431768211456"), Err(()));
}
