//! End-to-end dispatch: routing, extraction, handler results, error
//! responses, and the CORS behaviour.

use nails::context::Context;
use nails::descriptor::{
    FieldDecl, FieldTy, FieldValue, MethodFilter, ParamType, ParamValue, RouteDescriptor,
};
use nails::error::{AnyError, JsonBodyError, NailsError, QueryError};
use nails::http::{Method, Request, RequestBody, Response};
use nails::path::PathPattern;
use nails::service::{respond_finish, DispatchStep, FatalError, Service, ServiceWithContext};

fn s(v: &str) -> String {
    v.to_owned()
}

#[derive(Debug, Clone)]
struct TestCtx {
    label: String,
}

impl Context for TestCtx {}

fn get_post_service() -> ServiceWithContext<TestCtx> {
    let pattern = PathPattern::parse("/api/posts/{id}").unwrap();
    let fields = vec![FieldDecl {
        ident: Some(s("id")),
        query: None,
        path: None,
        body: false,
        ty: FieldTy::One(ParamType::U64Param),
    }];
    let route = RouteDescriptor::new(MethodFilter::GetOrHead, pattern, &fields).unwrap();
    let mut builder = Service::builder();
    builder.add_route(route);
    let service = builder.finish();
    service.with_context(&TestCtx { label: s("app") })
}

fn plain_request(method: Method, path: &str) -> Request {
    Request {
        method,
        path: s(path),
        query: s(""),
        headers: Vec::new(),
        body: RequestBody::Bytes(Vec::new()),
    }
}

fn header_value<'a>(resp: &'a Response, name: &str) -> Option<&'a str> {
    for (n, v) in &resp.headers {
        if n == name {
            return Some(v.as_str());
        }
    }
    None
}

#[test]
fn test_dispatch_get_post() {
    let svc = get_post_service();
    let req = plain_request(Method::Get, "/api/posts/42");
    let step = svc.respond_begin(&req).unwrap();
    match step {
        DispatchStep::CallHandler { route, ctx, value } => {
            assert_eq!(route, 0);
            assert_eq!(ctx.label, "app");
            assert_eq!(value.len(), 1);
            assert!(matches!(
                &value[0],
                FieldValue::PathVal(ParamValue::UintVal(42))
            ));
            // the handler returns a fixed JSON body
            let handler_resp = Response {
                status: 200,
                headers: vec![(s("Content-Type"), s("application/json"))],
                body: s("{\"post\":{\"body\":\"foo\"}}"),
            };
            let resp = respond_finish(Ok(handler_resp));
            assert_eq!(resp.status, 200);
            assert_eq!(resp.body, "{\"post\":{\"body\":\"foo\"}}");
            assert_eq!(header_value(&resp, "Access-Control-Allow-Origin"), Some("*"));
        }
        DispatchStep::Done(resp) => panic!("expected a handler call, got {:?}", resp),
    }
}

#[test]
fn test_dispatch_not_found() {
    let svc = get_post_service();
    let req = plain_request(Method::Get, "/unknown");
    let step = svc.respond_begin(&req).unwrap();
    match step {
        DispatchStep::Done(resp) => {
            assert_eq!(resp.status, 404);
            assert_eq!(resp.body, "Not Found");
            assert_eq!(header_value(&resp, "Content-Type"), None);
            assert_eq!(header_value(&resp, "Access-Control-Allow-Origin"), Some("*"));
        }
        DispatchStep::CallHandler { .. } => panic!("no route should have matched"),
    }
}

#[test]
fn test_dispatch_wrong_content_type() {
    let pattern = PathPattern::parse("/api/users").unwrap();
    let fields = vec![FieldDecl {
        ident: Some(s("body")),
        query: None,
        path: None,
        body: true,
        ty: FieldTy::One(ParamType::StringParam),
    }];
    let route = RouteDescriptor::new(MethodFilter::Post, pattern, &fields).unwrap();
    let mut builder = Service::builder();
    builder.add_route(route);
    let svc = builder.finish().with_context(&TestCtx { label: s("app") });

    let req = Request {
        method: Method::Post,
        path: s("/api/users"),
        query: s(""),
        headers: vec![(s("Content-Type"), s("text/plain"))],
        body: RequestBody::Bytes(b"{}".to_vec()),
    };
    let step = svc.respond_begin(&req).unwrap();
    match step {
        DispatchStep::Done(resp) => {
            assert_eq!(resp.status, 415);
            assert_eq!(header_value(&resp, "Content-Type"), Some("application/json"));
            assert_eq!(header_value(&resp, "Access-Control-Allow-Origin"), Some("*"));
            assert_eq!(
                resp.body,
                "{\"error\":\"nails::error::ContentTypeError\",\"message\":\"Invalid \
                 Content-Type: expected \\\"application/json\\\", got \\\"text/plain\\\"\"}",
            );
        }
        DispatchStep::CallHandler { .. } => panic!("extraction should have failed"),
    }
}

#[test]
fn test_dispatch_body_passed_through() {
    let pattern = PathPattern::parse("/api/users").unwrap();
    let fields = vec![FieldDecl {
        ident: Some(s("body")),
        query: None,
        path: None,
        body: true,
        ty: FieldTy::One(ParamType::StringParam),
    }];
    let route = RouteDescriptor::new(MethodFilter::Post, pattern, &fields).unwrap();
    let mut builder = Service::builder();
    builder.add_route(route);
    let svc = builder.finish().with_context(&TestCtx { label: s("app") });

    let req = Request {
        method: Method::Post,
        path: s("/api/users"),
        query: s(""),
        headers: vec![(s("Content-Type"), s("application/json"))],
        body: RequestBody::Bytes(b"{\"user\":{}}".to_vec()),
    };
    let step = svc.respond_begin(&req).unwrap();
    match step {
        DispatchStep::CallHandler { value, .. } => {
            assert_eq!(value.len(), 1);
            match &value[0] {
                FieldValue::BodyRaw(bytes) => assert_eq!(bytes, b"{\"user\":{}}"),
                other => panic!("expected the raw body, got {:?}", other),
            }
        }
        DispatchStep::Done(resp) => panic!("expected a handler call, got {:?}", resp),
    }
}

#[test]
fn test_dispatch_cors_preflight() {
    let svc = get_post_service();
    let req = Request {
        method: Method::Options,
        path: s("/api/posts/42"),
        query: s(""),
        headers: vec![(s("Origin"), s("https://example.test"))],
        body: RequestBody::Bytes(Vec::new()),
    };
    let step = svc.respond_begin(&req).unwrap();
    match step {
        DispatchStep::Done(resp) => {
            assert_eq!(resp.status, 200);
            assert_eq!(resp.body, "");
            assert_eq!(header_value(&resp, "Access-Control-Allow-Origin"), Some("*"));
            assert_eq!(header_value(&resp, "Access-Control-Allow-Methods"), Some("*"));
            assert_eq!(header_value(&resp, "Access-Control-Allow-Headers"), Some("*"));
        }
        DispatchStep::CallHandler { .. } => panic!("a preflight must bypass routing"),
    }
}

#[test]
fn test_dispatch_query_extraction_and_errors() {
    let pattern = PathPattern::parse("/api/articles").unwrap();
    let fields = vec![
        FieldDecl {
            ident: Some(s("tag")),
            query: None,
            path: None,
            body: false,
            ty: FieldTy::Opt(ParamType::StringParam),
        },
        FieldDecl {
            ident: Some(s("limit")),
            query: None,
            path: None,
            body: false,
            ty: FieldTy::One(ParamType::I32Param),
        },
    ];
    let route = RouteDescriptor::new(MethodFilter::GetOrHead, pattern, &fields).unwrap();
    let mut builder = Service::builder();
    builder.add_route(route);
    let svc = builder.finish().with_context(&TestCtx { label: s("app") });

    let mut req = plain_request(Method::Get, "/api/articles");
    req.query = s("limit=10&tag=rust");
    let step = svc.respond_begin(&req).unwrap();
    match step {
        DispatchStep::CallHandler { value, .. } => {
            assert_eq!(value.len(), 2);
            assert!(matches!(
                &value[0],
                FieldValue::QueryOpt(Some(ParamValue::StrVal(v))) if v == "rust"
            ));
            assert!(matches!(&value[1], FieldValue::QueryOne(ParamValue::IntVal(10))));
        }
        DispatchStep::Done(resp) => panic!("expected a handler call, got {:?}", resp),
    }

    // a missing required parameter gives the 400 JSON error
    let req = plain_request(Method::Get, "/api/articles");
    let step = svc.respond_begin(&req).unwrap();
    match step {
        DispatchStep::Done(resp) => {
            assert_eq!(resp.status, 400);
            assert_eq!(
                resp.body,
                "{\"error\":\"nails::error::QueryError\",\"message\":\"no query value found\"}",
            );
        }
        DispatchStep::CallHandler { .. } => panic!("extraction should have failed"),
    }
}

#[test]
fn test_dispatch_typed_variables_filter_matches() {
    let svc = get_post_service();
    // a non-numeric component does not match an integer-typed variable
    let req = plain_request(Method::Get, "/api/posts/abc");
    let step = svc.respond_begin(&req).unwrap();
    assert!(matches!(step, DispatchStep::Done(resp) if resp.status == 404));
    // the method filter rejects POST
    let req = plain_request(Method::Post, "/api/posts/42");
    let step = svc.respond_begin(&req).unwrap();
    assert!(matches!(step, DispatchStep::Done(resp) if resp.status == 404));
    // HEAD is accepted by the default filter
    let req = plain_request(Method::Head, "/api/posts/42");
    let step = svc.respond_begin(&req).unwrap();
    assert!(matches!(step, DispatchStep::CallHandler { .. }));
}

#[test]
fn test_dispatch_multiple_matches_is_fatal() {
    let pattern1 = PathPattern::parse("/ping").unwrap();
    let pattern2 = PathPattern::parse("/{word}").unwrap();
    let fields2 = vec![FieldDecl {
        ident: Some(s("word")),
        query: None,
        path: None,
        body: false,
        ty: FieldTy::One(ParamType::StringParam),
    }];
    let r1 = RouteDescriptor::new(MethodFilter::GetOrHead, pattern1, &Vec::new()).unwrap();
    let r2 = RouteDescriptor::new(MethodFilter::GetOrHead, pattern2, &fields2).unwrap();
    let mut builder = Service::builder();
    builder.add_route(r1);
    builder.add_route(r2);
    let svc = builder.finish().with_context(&TestCtx { label: s("app") });

    let req = plain_request(Method::Get, "/ping");
    assert_eq!(svc.respond_begin(&req).unwrap_err(), FatalError::MultipleMatches);

    let req = plain_request(Method::Get, "/pong");
    assert!(matches!(
        svc.respond_begin(&req).unwrap(),
        DispatchStep::CallHandler { route: 1, .. }
    ));
}

#[test]
fn test_error_conversions() {
    let e: NailsError = QueryError::NoQuery.into();
    assert!(matches!(e, NailsError::QueryError(QueryError::NoQuery)));
    assert_eq!(e.status(), 400);
    let e: NailsError = nails::error::BodyError.into();
    assert!(matches!(e, NailsError::BodyError(_)));
    assert_eq!(e.status(), 500);
    assert_eq!(e.public_message(), None);
    let e: NailsError = JsonBodyError { message: s("boom") }.into();
    assert_eq!(e.status(), 400);
    assert_eq!(e.class_name(), Some(s("nails::error::JsonBodyError")));
    let e: NailsError = nails::error::ContentTypeError { expected: vec![], got: None }.into();
    assert_eq!(e.status(), 415);
    assert_eq!(
        e.public_message(),
        Some(s("Invalid Content-Type: expected nothing, got nothing"))
    );
}

#[test]
fn test_handler_error_responses() {
    let resp = respond_finish(Err(NailsError::QueryError(QueryError::MultipleQuery)));
    assert_eq!(resp.status, 400);
    assert_eq!(
        resp.body,
        "{\"error\":\"nails::error::QueryError\",\"message\":\"multiple query values found\"}",
    );

    let resp = respond_finish(Err(NailsError::JsonBodyError(JsonBodyError {
        message: s("expected value at line 1 column 1"),
    })));
    assert_eq!(resp.status, 400);
    assert_eq!(
        resp.body,
        "{\"error\":\"nails::error::JsonBodyError\",\"message\":\"Error in JSON Body: \
         expected value at line 1 column 1\"}",
    );

    let resp = respond_finish(Err(NailsError::AnyError(AnyError {
        status: 500,
        class_name: None,
        public_message: None,
    })));
    assert_eq!(resp.status, 500);
    assert_eq!(resp.body, "{\"message\":\"error\"}");

    let resp = respond_finish(Err(NailsError::AnyError(AnyError {
        status: 503,
        class_name: Some(s("app::Busy")),
        public_message: Some(s("try \"again\"\nlater")),
    })));
    assert_eq!(resp.status, 503);
    assert_eq!(
        resp.body,
        "{\"error\":\"app::Busy\",\"message\":\"try \\\"again\\\"\\nlater\"}",
    );
}
