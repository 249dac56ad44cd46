//! A declarative HTTP route-matching and typed-parameter-extraction engine.
//!
//! A route is described by an HTTP method filter, a URL path template with
//! named variable segments, and a set of field bindings that pull values from
//! the path, the query string, or the request body.  The library compiles each
//! description into a match predicate and an extraction procedure, resolves
//! the unique route for an incoming request, and turns handler results and
//! extraction failures into HTTP responses.

pub mod context;
pub mod descriptor;
pub mod error;
pub mod http;
pub mod json;
pub mod numparse;
pub mod path;
pub mod query;
pub mod request;
pub mod routing;
pub mod service;
pub mod strutil;

pub use path::PathPattern;
pub use request::{FromPath, FromQuery};
pub use routing::Router;
pub use service::Service;
