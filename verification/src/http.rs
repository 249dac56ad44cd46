//! The plain HTTP surface this engine works on: methods, headers, the
//! request data a transport hands in, and the response data handed back.

use vstd::prelude::*;

verus! {

/// The request methods the engine routes.
#[derive(Debug, Clone, Copy, PartialEq, Eq, Structural)]
pub enum Method {
    Get,
    Head,
    Post,
    Put,
    Delete,
    Options,
    Patch,
}

/// The outcome of reading the request body, as the transport reports it.
#[derive(Debug)]
pub enum RequestBody {
    /// The whole body, buffered; an absent body is an empty buffer.
    Bytes(Vec<u8>),
    /// The transport failed while reading.
    ReadFailed,
}

/// One incoming request, as plain values: the transport supplies the
/// method, the path, the raw query string, the headers, and the body.
#[derive(Debug)]
pub struct Request {
    pub method: Method,
    pub path: String,
    pub query: String,
    pub headers: Vec<(String, String)>,
    pub body: RequestBody,
}

/// One outgoing response: status, headers in order, and a text body.
#[derive(Debug)]
pub struct Response {
    pub status: u16,
    pub headers: Vec<(String, String)>,
    pub body: String,
}

/// The value of the first header named `name`, if any.
pub open spec fn header_lookup(hs: Seq<(Seq<char>, Seq<char>)>, name: Seq<char>) -> Option<
    Seq<char>,
>
    decreases hs.len(),
{
    if hs.len() == 0 {
        None
    } else if hs[0].0 == name {
        Some(hs[0].1)
    } else {
        header_lookup(hs.drop_first(), name)
    }
}

proof fn lemma_header_lookup_found(hs: Seq<(Seq<char>, Seq<char>)>, name: Seq<char>, i: int)
    requires
        0 <= i < hs.len(),
        hs[i].0 == name,
        forall|j: int| 0 <= j < i ==> (#[trigger] hs[j]).0 != name,
    ensures
        header_lookup(hs, name) == Some(hs[i].1),
    decreases i,
{
    if i > 0 {
        assert(hs[0].0 != name);
        lemma_header_lookup_found(hs.drop_first(), name, i - 1);
        assert(hs.drop_first()[i - 1] == hs[i]);
        assert forall|j: int| 0 <= j < i - 1 implies (#[trigger] hs.drop_first()[j]).0
            != name by {
            assert(hs.drop_first()[j] == hs[j + 1]);
        }
    }
}

proof fn lemma_header_lookup_absent(hs: Seq<(Seq<char>, Seq<char>)>, name: Seq<char>)
    requires
        forall|j: int| 0 <= j < hs.len() ==> (#[trigger] hs[j]).0 != name,
    ensures
        header_lookup(hs, name) is None,
    decreases hs.len(),
{
    if hs.len() > 0 {
        assert forall|j: int| 0 <= j < hs.drop_first().len() implies (
        #[trigger] hs.drop_first()[j]).0 != name by {
            assert(hs.drop_first()[j] == hs[j + 1]);
        }
        lemma_header_lookup_absent(hs.drop_first(), name);
    }
}

/// The first header named `name`, as `header_lookup` describes.
pub fn get_header<'a>(headers: &'a Vec<(String, String)>, name: &str) -> (r: Option<&'a String>)
    ensures
        r is Some <==> header_lookup(headers.deep_view(), name@) is Some,
        r matches Some(v) ==> header_lookup(headers.deep_view(), name@) == Some(v@),
{
    let n = headers.len();
    let mut i: usize = 0;
    while i < n
        invariant
            i <= n,
            n == headers@.len(),
            forall|j: int| 0 <= j < i ==> (#[trigger] headers.deep_view()[j]).0 != name@,
        decreases n - i,
    {
        if crate::strutil::str_eq(headers[i].0.as_str(), name) {
            proof {
                assert(headers.deep_view()[i as int].0 == name@);
                lemma_header_lookup_found(headers.deep_view(), name@, i as int);
            }
            return Some(&headers[i].1);
        }
        i = i + 1;
    }
    proof {
        lemma_header_lookup_absent(headers.deep_view(), name@);
    }
    None
}

impl Response {
    /// Appends one header, leaving the rest of the response unchanged.
    pub fn append_header(&mut self, name: &str, value: &str)
        ensures
            final(self).status == old(self).status,
            final(self).body == old(self).body,
            final(self).headers.deep_view() == old(self).headers.deep_view().push(
                (name@, value@),
            ),
    {
        let ghost old_h = self.headers.deep_view();
        self.headers.push((name.to_owned(), value.to_owned()));
        proof {
            assert(self.headers.deep_view() =~= old_h.push((name@, value@)));
        }
    }
}

} // verus!
