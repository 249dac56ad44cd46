//! The failure taxonomy: every error this engine can produce, each with its
//! HTTP status code, its machine-readable class name, and its optional
//! human-readable public message.

use crate::http::Response;
use crate::json::{error_body_json, render_error_body};
use vstd::prelude::*;
use vstd::string::{StrSliceExecFns, StringExecFns};

verus! {

/// A failure while converting query-string values to a typed value.
#[derive(Debug, Clone, PartialEq, Eq, Structural)]
pub enum QueryError {
    /// More than one value was given for a single-valued parameter.
    MultipleQuery,
    /// No value was given for a required parameter.
    NoQuery,
    /// A value was not valid integer text for the parameter's type.
    ParseIntError,
    /// A value was not a valid floating-point number.
    ParseFloatError,
    /// Any other conversion failure.
    AnyError,
}

/// The request body's `Content-Type` header was missing or not one of the
/// expected media types.
#[derive(Debug)]
pub struct ContentTypeError {
    pub expected: Vec<String>,
    pub got: Option<String>,
}

/// The request body was read but was not valid JSON; carries the decoder's
/// message.
#[derive(Debug)]
pub struct JsonBodyError {
    pub message: String,
}

/// The transport failed while the request body was being read.
#[derive(Debug)]
pub struct BodyError;

/// An opaque handler-supplied failure: the handler chooses the status and
/// may supply a class name and a public message.
#[derive(Debug)]
pub struct AnyError {
    pub status: u16,
    pub class_name: Option<String>,
    pub public_message: Option<String>,
}

/// The closed set of failures that reach the wire, each mapped to a status
/// code and a JSON error body.
#[derive(Debug)]
pub enum NailsError {
    ContentTypeError(ContentTypeError),
    JsonBodyError(JsonBodyError),
    BodyError(BodyError),
    QueryError(QueryError),
    AnyError(AnyError),
}

/// `s` wrapped in double quotes.
pub open spec fn quoted(s: Seq<char>) -> Seq<char> {
    seq!['"'] + s + seq!['"']
}

/// The comma-separated list of quoted media types that precedes the final
/// two entries of an expected-types list.
pub open spec fn ct_commas(es: Seq<Seq<char>>) -> Seq<char>
    decreases es.len(),
{
    if es.len() == 0 {
        Seq::<char>::empty()
    } else {
        ct_commas(es.drop_last()) + quoted(es.last()) + ", "@
    }
}

/// The rendering of the expected media types: `nothing`, one quoted type,
/// or a comma-separated list whose last two entries are joined by `and`.
pub open spec fn ct_expected_text(es: Seq<Seq<char>>) -> Seq<char> {
    if es.len() == 0 {
        "nothing"@
    } else if es.len() == 1 {
        quoted(es[0])
    } else {
        ct_commas(es.take(es.len() - 2)) + quoted(es[es.len() - 2]) + " and "@ + quoted(
            es[es.len() - 1],
        )
    }
}

/// The full public message of a `ContentTypeError`.
pub open spec fn content_type_message(expected: Seq<Seq<char>>, got: Option<Seq<char>>) -> Seq<
    char,
> {
    "Invalid Content-Type: expected "@ + ct_expected_text(expected) + (match got {
        Some(g) => ", got "@ + quoted(g),
        None => ", got nothing"@,
    })
}

/// Appends `v` wrapped in double quotes.
fn append_quoted(out: &mut String, v: &str)
    ensures
        final(out)@ == old(out)@ + quoted(v@),
{
    proof {
        reveal_strlit("\"");
    }
    out.append("\"");
    out.append(v);
    out.append("\"");
    proof {
        assert(final(out)@ =~= old(out)@ + quoted(v@));
    }
}

impl ContentTypeError {
    /// The public message: the expected media types against what the
    /// request carried.
    pub fn public_message(&self) -> (r: String)
        ensures
            r@ == content_type_message(self.expected.deep_view(), match self.got {
                Some(ref g) => Some(g@),
                None => None,
            }),
    {
        let ghost es = self.expected.deep_view();
        let mut out = String::from_str("Invalid Content-Type: expected ");
        let n = self.expected.len();
        if n == 0 {
            out.append("nothing");
            proof {
                assert(out@ =~= "Invalid Content-Type: expected "@ + ct_expected_text(es));
            }
        } else if n == 1 {
            append_quoted(&mut out, self.expected[0].as_str());
            proof {
                assert(out@ =~= "Invalid Content-Type: expected "@ + ct_expected_text(es));
            }
        } else {
            let mut i: usize = 0;
            proof {
                assert(ct_commas(es.take(0)) =~= Seq::<char>::empty());
            }
            while i < n - 2
                invariant
                    i <= n - 2,
                    2 <= n == self.expected.len(),
                    es == self.expected.deep_view(),
                    out@ == "Invalid Content-Type: expected "@ + ct_commas(es.take(i as int)),
                decreases n - i,
            {
                append_quoted(&mut out, self.expected[i].as_str());
                out.append(", ");
                proof {
                    assert(es.take(i + 1).drop_last() =~= es.take(i as int));
                    assert(es.take(i + 1).last() == es[i as int]);
                    assert(out@ =~= "Invalid Content-Type: expected "@ + ct_commas(
                        es.take(i + 1),
                    ));
                }
                i = i + 1;
            }
            append_quoted(&mut out, self.expected[n - 2].as_str());
            out.append(" and ");
            append_quoted(&mut out, self.expected[n - 1].as_str());
            proof {
                assert(es.take(es.len() - 2) == es.take(i as int));
                assert(out@ =~= "Invalid Content-Type: expected "@ + ct_expected_text(es));
            }
        }
        match &self.got {
            Some(g) => {
                out.append(", got ");
                append_quoted(&mut out, g.as_str());
                proof {
                    assert(out@ =~= content_type_message(es, Some(self.got->0@)));
                }
            },
            None => {
                out.append(", got nothing");
                proof {
                    assert(out@ =~= content_type_message(es, None::<Seq<char>>));
                }
            },
        }
        out
    }
}

impl QueryError {
    /// The public message of each query failure.
    pub open spec fn message_view(self) -> Seq<char> {
        match self {
            QueryError::MultipleQuery => "multiple query values found"@,
            QueryError::NoQuery => "no query value found"@,
            QueryError::ParseIntError => "invalid integer in query"@,
            QueryError::ParseFloatError => "invalid number in query"@,
            QueryError::AnyError => "invalid query value"@,
        }
    }

    pub fn public_message(&self) -> (r: String)
        ensures
            r@ == self.message_view(),
    {
        match self {
            QueryError::MultipleQuery => String::from_str("multiple query values found"),
            QueryError::NoQuery => String::from_str("no query value found"),
            QueryError::ParseIntError => String::from_str("invalid integer in query"),
            QueryError::ParseFloatError => String::from_str("invalid number in query"),
            QueryError::AnyError => String::from_str("invalid query value"),
        }
    }
}

impl NailsError {
    /// The HTTP status code each failure is reported with.
    pub open spec fn status_spec(&self) -> u16 {
        match self {
            NailsError::ContentTypeError(_) => 415,
            NailsError::JsonBodyError(_) => 400,
            NailsError::BodyError(_) => 500,
            NailsError::QueryError(_) => 400,
            NailsError::AnyError(e) => e.status,
        }
    }

    pub fn status(&self) -> (r: u16)
        ensures
            r == self.status_spec(),
    {
        match self {
            NailsError::ContentTypeError(_) => 415,
            NailsError::JsonBodyError(_) => 400,
            NailsError::BodyError(_) => 500,
            NailsError::QueryError(_) => 400,
            NailsError::AnyError(e) => e.status,
        }
    }

    /// The machine-readable class name, when the variant carries one.
    pub open spec fn class_name_view(&self) -> Option<Seq<char>> {
        match self {
            NailsError::ContentTypeError(_) => Some("nails::error::ContentTypeError"@),
            NailsError::JsonBodyError(_) => Some("nails::error::JsonBodyError"@),
            NailsError::BodyError(_) => Some("nails::error::BodyError"@),
            NailsError::QueryError(_) => Some("nails::error::QueryError"@),
            NailsError::AnyError(e) => match e.class_name {
                Some(ref c) => Some(c@),
                None => None,
            },
        }
    }

    pub fn class_name(&self) -> (r: Option<String>)
        ensures
            r is Some <==> self.class_name_view() is Some,
            r matches Some(s) ==> s@ == self.class_name_view()->0,
    {
        match self {
            NailsError::ContentTypeError(_) => Some(
                String::from_str("nails::error::ContentTypeError"),
            ),
            NailsError::JsonBodyError(_) => Some(String::from_str("nails::error::JsonBodyError")),
            NailsError::BodyError(_) => Some(String::from_str("nails::error::BodyError")),
            NailsError::QueryError(_) => Some(String::from_str("nails::error::QueryError")),
            NailsError::AnyError(e) => match &e.class_name {
                Some(c) => Some(c.clone()),
                None => None,
            },
        }
    }

    /// The human-readable public message, when the variant carries one.
    pub open spec fn public_message_view(&self) -> Option<Seq<char>> {
        match self {
            NailsError::ContentTypeError(e) => Some(
                content_type_message(e.expected.deep_view(), match e.got {
                    Some(ref g) => Some(g@),
                    None => None,
                }),
            ),
            NailsError::JsonBodyError(e) => Some("Error in JSON Body: "@ + e.message@),
            NailsError::BodyError(_) => None,
            NailsError::QueryError(e) => Some(e.message_view()),
            NailsError::AnyError(e) => match e.public_message {
                Some(ref m) => Some(m@),
                None => None,
            },
        }
    }

    pub fn public_message(&self) -> (r: Option<String>)
        ensures
            r is Some <==> self.public_message_view() is Some,
            r matches Some(s) ==> s@ == self.public_message_view()->0,
    {
        match self {
            NailsError::ContentTypeError(e) => Some(e.public_message()),
            NailsError::JsonBodyError(e) => {
                let mut m = String::from_str("Error in JSON Body: ");
                m.append(e.message.as_str());
                Some(m)
            },
            NailsError::BodyError(_) => None,
            NailsError::QueryError(e) => Some(e.public_message()),
            NailsError::AnyError(e) => match &e.public_message {
                Some(m) => Some(m.clone()),
                None => None,
            },
        }
    }
}


impl NailsError {
    /// The message placed in the error body: the public message when the
    /// variant carries one, the word `error` otherwise.
    pub open spec fn body_message_view(&self) -> Seq<char> {
        match self.public_message_view() {
            Some(m) => m,
            None => "error"@,
        }
    }

    /// Converts the failure to its wire response: its status code, a JSON
    /// content type, and the JSON error body.
    pub fn to_response(&self) -> (r: Response)
        ensures
            r.status == self.status_spec(),
            r.headers.deep_view() == seq![("Content-Type"@, "application/json"@)],
            r.body@ == error_body_json(self.class_name_view(), self.body_message_view()),
    {
        let class = self.class_name();
        let message = match self.public_message() {
            Some(m) => m,
            None => String::from_str("error"),
        };
        let body = match &class {
            Some(c) => render_error_body(Some(c), message.as_str()),
            None => render_error_body(None, message.as_str()),
        };
        proof {
            assert(body@ == error_body_json(self.class_name_view(), self.body_message_view()));
        }
        let mut headers: Vec<(String, String)> = Vec::new();
        headers.push(("Content-Type".to_owned(), "application/json".to_owned()));
        let r = Response { status: self.status(), headers, body };
        proof {
            assert(r.headers.deep_view() =~= seq![("Content-Type"@, "application/json"@)]);
        }
        r
    }
}

impl From<ContentTypeError> for NailsError {
    fn from(e: ContentTypeError) -> (r: Self) {
        NailsError::ContentTypeError(e)
    }
}

impl vstd::std_specs::convert::FromSpecImpl<ContentTypeError> for NailsError {
    open spec fn obeys_from_spec() -> bool {
        true
    }

    open spec fn from_spec(e: ContentTypeError) -> Self {
        NailsError::ContentTypeError(e)
    }
}

impl From<JsonBodyError> for NailsError {
    fn from(e: JsonBodyError) -> (r: Self) {
        NailsError::JsonBodyError(e)
    }
}

impl vstd::std_specs::convert::FromSpecImpl<JsonBodyError> for NailsError {
    open spec fn obeys_from_spec() -> bool {
        true
    }

    open spec fn from_spec(e: JsonBodyError) -> Self {
        NailsError::JsonBodyError(e)
    }
}

impl From<BodyError> for NailsError {
    fn from(e: BodyError) -> (r: Self) {
        NailsError::BodyError(e)
    }
}

impl vstd::std_specs::convert::FromSpecImpl<BodyError> for NailsError {
    open spec fn obeys_from_spec() -> bool {
        true
    }

    open spec fn from_spec(e: BodyError) -> Self {
        NailsError::BodyError(e)
    }
}

impl From<QueryError> for NailsError {
    fn from(e: QueryError) -> (r: Self) {
        NailsError::QueryError(e)
    }
}

impl vstd::std_specs::convert::FromSpecImpl<QueryError> for NailsError {
    open spec fn obeys_from_spec() -> bool {
        true
    }

    open spec fn from_spec(e: QueryError) -> Self {
        NailsError::QueryError(e)
    }
}

} // verus!
