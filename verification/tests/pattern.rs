//! The path-pattern compiler: identifiers, parsing, the prefix hint, the
//! match predicate, and the positional extractor.

use nails::path::{is_ident, PathComponent, PathPattern};

fn s(v: &str) -> String {
    v.to_owned()
}

#[test]
fn test_is_ident() {
    assert!(is_ident("foo_bar2"));
    assert!(is_ident("_foo_bar2"));
    assert!(!is_ident("_"));
    assert!(!is_ident("1st"));
    assert!(!is_ident("foo-bar"));
}

#[test]
fn test_path_prefix() {
    let parse = |t: &str| PathPattern::parse(t).unwrap();
    assert_eq!(parse("/").path_prefix(), s("/"));
    assert_eq!(parse("/api/posts/{id}").path_prefix(), s("/api/posts/"));
    assert_eq!(
        parse("/api/posts/{post_id}/comments/{id}").path_prefix(),
        s("/api/posts/"),
    );
}

#[test]
fn test_parse() {
    let parse = |t: &str| PathPattern::parse(t).unwrap();

    let p = parse("/");
    assert_eq!(p.components(), &vec![PathComponent::Lit(s(""))]);
    assert!(p.bindings().is_empty());

    let p = parse("/ping");
    assert_eq!(p.components(), &vec![PathComponent::Lit(s("ping"))]);
    assert!(p.bindings().is_empty());

    let p = parse("/api/");
    assert_eq!(
        p.components(),
        &vec![PathComponent::Lit(s("api")), PathComponent::Lit(s(""))],
    );
    assert!(p.bindings().is_empty());

    let p = parse("/api/posts/{id}");
    assert_eq!(
        p.components(),
        &vec![
            PathComponent::Lit(s("api")),
            PathComponent::Lit(s("posts")),
            PathComponent::Var(s("id")),
        ],
    );
    assert_eq!(p.bindings(), &vec![s("id")]);

    let p = parse("/api/posts/{post_id}/comments/{id}");
    assert_eq!(
        p.components(),
        &vec![
            PathComponent::Lit(s("api")),
            PathComponent::Lit(s("posts")),
            PathComponent::Var(s("post_id")),
            PathComponent::Lit(s("comments")),
            PathComponent::Var(s("id")),
        ],
    );
    assert_eq!(p.bindings(), &vec![s("post_id"), s("id")]);
}

#[test]
fn test_parse_error() {
    let parse_err = |t: &str| PathPattern::parse(t).unwrap_err().message;
    assert_eq!(parse_err(""), "must start with slash");
    assert_eq!(parse_err("api/posts/{id}"), "must start with slash");
    assert_eq!(
        parse_err("/api/posts/post_{id}"),
        "variable must span the whole path component",
    );
    assert_eq!(
        parse_err("/api/posts/{foo}_{bar}"),
        "variable must span the whole path component",
    );
    assert_eq!(
        parse_err("/api/posts/}/"),
        "variable must span the whole path component",
    );
    assert_eq!(
        parse_err("/api/posts/{barrr/"),
        "variable must span the whole path component",
    );
    assert_eq!(
        parse_err("/api/posts/}foo{/"),
        "variable must span the whole path component",
    );
    assert_eq!(parse_err("/api/posts/{}/"), "variable must contain variable name");
    assert_eq!(
        parse_err("/api/posts/{1}/"),
        "variable must be /[a-zA-Z_][a-zA-Z0-9_]*/",
    );
    assert_eq!(
        parse_err("/api/posts/{id}/comments/{id}"),
        "duplicate name: `id`",
    );
}

#[test]
fn test_parse_error_message() {
    let parse_err = |t: &str| PathPattern::parse(t).unwrap_err();
    assert_eq!(
        parse_err("").render(),
        "error while parsing path matcher ``: must start with slash",
    );
    assert_eq!(
        parse_err("api/posts/{id}").render(),
        "error while parsing path matcher `api/posts/{id}`: must start with slash",
    );
    assert_eq!(
        parse_err("").description(),
        "error while parsing path matcher",
    );
}

#[test]
fn test_novar_pattern_matches_itself() {
    for t in ["/", "/ping", "/api/", "/api/posts"] {
        let p = PathPattern::parse(t).unwrap();
        assert!(p.matches(t));
        assert_eq!(p.path_prefix().as_str(), t);
    }
    let p = PathPattern::parse("/ping").unwrap();
    assert!(!p.matches("/pong"));
    assert!(!p.matches("/ping/"));
    assert!(!p.matches("ping"));
}

#[test]
fn test_pattern_extract() {
    let p = PathPattern::parse("/api/posts/{post_id}/comments/{id}").unwrap();
    assert!(p.matches("/api/posts/7/comments/abc"));
    let captured = p.extract("/api/posts/7/comments/abc");
    assert_eq!(captured, vec![s("7"), s("abc")]);
    let p = PathPattern::parse("/").unwrap();
    assert!(p.matches("/"));
    assert_eq!(p.extract("/"), Vec::<String>::new());
}
