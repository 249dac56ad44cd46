//! The field-binding resolver: tags, fallbacks, and the bijection between
//! template variables and path-bound fields.

use nails::descriptor::{
    BuildError, FieldDecl, FieldTy, MethodFilter, ParamType, RouteDescriptor,
};
use nails::path::PathPattern;

fn s(v: &str) -> String {
    v.to_owned()
}

fn field(ident: &str, ty: FieldTy) -> FieldDecl {
    FieldDecl { ident: Some(s(ident)), query: None, path: None, body: false, ty }
}

fn one_string() -> FieldTy {
    FieldTy::One(ParamType::StringParam)
}

#[test]
fn test_resolver_fallbacks() {
    let pattern = PathPattern::parse("/api/posts/{id}").unwrap();
    // `id` falls back to the path variable, `param1` to a query parameter
    let fields = vec![field("id", one_string()), field("param1", one_string())];
    assert!(RouteDescriptor::new(MethodFilter::GetOrHead, pattern, &fields).is_ok());
}

#[test]
fn test_resolver_non_captured_path_name() {
    let pattern = PathPattern::parse("/api/posts/{id}").unwrap();
    let mut f = field("id2", one_string());
    f.path = Some(Some(s("idd")));
    let fields = vec![field("id", one_string()), f];
    let err = RouteDescriptor::new(MethodFilter::GetOrHead, pattern, &fields).unwrap_err();
    assert_eq!(err, BuildError::PathNameNotInPattern);
    assert_eq!(err.message(), "This name doesn't exist in the endpoint path");
}

#[test]
fn test_resolver_duplicate_path_names() {
    let pattern = PathPattern::parse("/api/posts/{id}").unwrap();
    let mut f1 = field("id", one_string());
    f1.path = Some(None);
    let mut f2 = field("id2", one_string());
    f2.path = Some(Some(s("id")));
    let fields = vec![f1, f2];
    let err = RouteDescriptor::new(MethodFilter::GetOrHead, pattern, &fields).unwrap_err();
    assert_eq!(err, BuildError::DuplicatePathNames(s("id")));
    assert_eq!(err.message(), "Duplicate path names");
}

#[test]
fn test_resolver_missing_path_field() {
    let pattern = PathPattern::parse("/api/posts/{id}").unwrap();
    let fields: Vec<FieldDecl> = vec![];
    let err = RouteDescriptor::new(MethodFilter::GetOrHead, pattern, &fields).unwrap_err();
    assert_eq!(err, BuildError::MissingFieldForBinding(s("id")));
    assert_eq!(err.message(), "Missing field for binding name from {id}");
}

#[test]
fn test_resolver_query_and_path_conflict() {
    let pattern = PathPattern::parse("/api/posts/{id}").unwrap();
    let mut f = field("id", one_string());
    f.query = Some(None);
    f.path = Some(None);
    let fields = vec![f];
    let err = RouteDescriptor::new(MethodFilter::GetOrHead, pattern, &fields).unwrap_err();
    assert_eq!(err, BuildError::QueryAndPath);
}

#[test]
fn test_resolver_positional_fields_need_names() {
    let pattern = PathPattern::parse("/api/posts/{id}").unwrap();
    let mut f = field("id", one_string());
    f.path = Some(None);

    let bare = FieldDecl { ident: None, query: None, path: None, body: false, ty: one_string() };
    let err = RouteDescriptor::new(
        MethodFilter::GetOrHead,
        PathPattern::parse("/api/posts/{id}").unwrap(),
        &vec![f.clone(), bare],
    )
    .unwrap_err();
    assert_eq!(err, BuildError::FieldNameMissing);

    let q = FieldDecl { ident: None, query: Some(None), path: None, body: false, ty: one_string() };
    let err = RouteDescriptor::new(MethodFilter::GetOrHead, pattern, &vec![f.clone(), q])
        .unwrap_err();
    assert_eq!(err, BuildError::QueryNameMissing);

    let p = FieldDecl { ident: None, query: None, path: Some(None), body: false, ty: one_string() };
    let err = RouteDescriptor::new(
        MethodFilter::GetOrHead,
        PathPattern::parse("/api/posts/{id}").unwrap(),
        &vec![f, p],
    )
    .unwrap_err();
    assert_eq!(err, BuildError::PathNameMissing);
}

#[test]
fn test_resolver_one_body_field_at_most() {
    let pattern = PathPattern::parse("/api/users").unwrap();
    let mut b1 = field("body", one_string());
    b1.body = true;
    let mut b2 = field("extra", one_string());
    b2.body = true;
    let err = RouteDescriptor::new(MethodFilter::Post, pattern, &vec![b1.clone(), b2])
        .unwrap_err();
    assert_eq!(err, BuildError::MultipleBodyFields);

    let ok = RouteDescriptor::new(
        MethodFilter::Post,
        PathPattern::parse("/api/users").unwrap(),
        &vec![b1],
    );
    assert!(ok.is_ok());
}

#[test]
fn test_resolver_path_field_takes_one_value() {
    let pattern = PathPattern::parse("/api/posts/{id}").unwrap();
    let f = field("id", FieldTy::Opt(ParamType::U64Param));
    let err = RouteDescriptor::new(MethodFilter::GetOrHead, pattern, &vec![f]).unwrap_err();
    assert_eq!(err, BuildError::PathFieldNotSingle);
}
