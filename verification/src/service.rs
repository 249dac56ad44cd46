//! The dispatcher: wraps the router with a cloneable application context,
//! short-circuits CORS preflights, resolves and extracts the matching
//! route, and turns handler results and failures into wire responses, each
//! carrying the permissive CORS origin header.

use crate::context::Context;
use crate::descriptor::{
    body_bytes_of, ct_of, descriptor_matches, extract_err_matches, field_err, field_ok,
    field_val_ok, first_fail, DescView, ExtractErrView, FieldValue, RouteDescriptor,
};
use crate::error::{content_type_message, NailsError};
use crate::http::{get_header, header_lookup, Method, Request, RequestBody, Response};
use crate::json::error_body_json;
use crate::query::{parse_query, query_table_spec};
use crate::routing::{any_route_matches, RouteMatch, Router};
use vstd::prelude::*;
use vstd::string::StringExecFns;

verus! {

/// An immutable set of compiled routes, ready to serve.
#[derive(Debug)]
pub struct Service {
    router: Router,
}

impl View for Service {
    type V = Seq<DescView>;

    closed spec fn view(&self) -> Seq<DescView> {
        self.router@
    }
}

impl Service {
    pub closed spec fn wf(&self) -> bool {
        self.router.wf()
    }

    pub fn builder() -> (r: Builder)
        ensures
            r.routes_view() == Some(Seq::<DescView>::empty()),
    {
        Builder::new()
    }

    /// Pairs the service with one clone of the application context.
    pub fn with_context<Ctx: Context>(self, ctx: &Ctx) -> (r: ServiceWithContext<Ctx>)
        ensures
            r.service@ == self@,
            self.wf() ==> r.service.wf(),
    {
        ServiceWithContext { service: self, ctx: ctx.clone() }
    }
}

/// Builds a service by registering routes; `finish` consumes the set and
/// must be called only once.
#[derive(Debug)]
pub struct Builder {
    inner: Option<Router>,
}

impl Builder {
    /// The routes registered so far, or nothing once finished.
    pub closed spec fn routes_view(&self) -> Option<Seq<DescView>> {
        match self.inner {
            Some(ref r) => Some(r@),
            None => None,
        }
    }

    pub closed spec fn wf(&self) -> bool {
        match self.inner {
            Some(ref r) => r.wf(),
            None => true,
        }
    }

    pub fn new() -> (r: Builder)
        ensures
            r.routes_view() == Some(Seq::<DescView>::empty()),
            r.wf(),
    {
        Builder { inner: Some(Router::new()) }
    }

    /// Registers one route.
    pub fn add_route(&mut self, route: RouteDescriptor)
        requires
            old(self).wf(),
            old(self).routes_view() is Some,
            route.wf(),
        ensures
            final(self).wf(),
            final(self).routes_view() == Some(old(self).routes_view()->0.push(route@)),
    {
        match &mut self.inner {
            Some(router) => {
                router.add_route(route);
            },
            None => {
                proof {
                    assert(false);
                }
            },
        }
    }

    /// Consumes the registered routes into a service.
    pub fn finish(&mut self) -> (r: Service)
        requires
            old(self).wf(),
            old(self).routes_view() is Some,
        ensures
            r@ == old(self).routes_view()->0,
            r.wf(),
            final(self).routes_view() is None,
    {
        let mut taken: Option<Router> = None;
        core::mem::swap(&mut taken, &mut self.inner);
        match taken {
            Some(router) => Service { router },
            None => {
                proof {
                    assert(false);
                }
                Service { router: Router::new() }
            },
        }
    }
}

/// A service together with the context clone handed to each handler.
#[derive(Debug)]
pub struct ServiceWithContext<Ctx: Context> {
    pub service: Service,
    pub ctx: Ctx,
}

/// What the dispatcher decided for one request: a finished response, or a
/// call into the matched route's handler with the extracted value and a
/// context clone.
#[derive(Debug)]
pub enum DispatchStep<Ctx> {
    Done(Response),
    CallHandler { route: usize, ctx: Ctx, value: Vec<FieldValue> },
}

/// A programming defect in the registered route set, detected while
/// serving: the caller must treat it as fatal, as the route set must be
/// mutually exclusive.
#[derive(Debug, Clone, Copy, PartialEq, Eq, Structural)]
pub enum FatalError {
    MultipleMatches,
}

/// Whether the request is a CORS preflight: the OPTIONS method with an
/// Origin header.
pub open spec fn is_preflight(m: Method, headers: Seq<(Seq<char>, Seq<char>)>) -> bool {
    m == Method::Options && header_lookup(headers, "Origin"@) is Some
}

/// The status an extraction failure is reported with.
pub open spec fn extract_err_status(x: ExtractErrView) -> u16 {
    match x {
        ExtractErrView::QErrV(_) => 400,
        ExtractErrView::CtErrV(_) => 415,
        ExtractErrView::BodyErrV => 500,
    }
}

/// The JSON body an extraction failure is reported with.
pub open spec fn extract_err_body(x: ExtractErrView) -> Seq<char> {
    match x {
        ExtractErrView::QErrV(q) => error_body_json(
            Some("nails::error::QueryError"@),
            q.message_view(),
        ),
        ExtractErrView::CtErrV(got) => error_body_json(
            Some("nails::error::ContentTypeError"@),
            content_type_message(seq!["application/json"@], got),
        ),
        ExtractErrView::BodyErrV => error_body_json(Some("nails::error::BodyError"@), "error"@),
    }
}

impl<Ctx: Context> ServiceWithContext<Ctx> {
    /// Serves one request up to the handler call.
    ///
    /// An OPTIONS request with an Origin header is answered at once with a
    /// permissive CORS response, bypassing routing.  Otherwise the unique
    /// matching route is resolved: no route gives the plain 404, an
    /// extraction failure gives that error's response, and a successful
    /// extraction hands back the route, the typed value, and a context
    /// clone for the handler.  Every response carries the permissive CORS
    /// origin header.  More than one matching route is a programming
    /// defect, reported as fatal.
    pub fn respond_begin(&self, req: &Request) -> (r: Result<DispatchStep<Ctx>, FatalError>)
        requires
            self.service.wf(),
        ensures
            ({
                let ds = self.service@;
                let m = req.method;
                let pathv = req.path@;
                let hs = req.headers.deep_view();
                let qt = query_table_spec(req.query@);
                let ctv = header_lookup(hs, "Content-Type"@);
                let body_read = req.body is Bytes;
                &&& (is_preflight(m, hs) ==> (r matches Ok(DispatchStep::Done(resp))
                    && resp.status == 200 && resp.body@ == Seq::<char>::empty()
                    && resp.headers.deep_view() == seq![
                    ("Access-Control-Allow-Origin"@, "*"@),
                    ("Access-Control-Allow-Methods"@, "*"@),
                    ("Access-Control-Allow-Headers"@, "*"@),
                ]))
                &&& (!is_preflight(m, hs) && !any_route_matches(ds, m, pathv) ==> (r matches Ok(
                    DispatchStep::Done(resp),
                ) && resp.status == 404 && resp.body@ == "Not Found"@
                    && resp.headers.deep_view() == seq![("Access-Control-Allow-Origin"@, "*"@)]))
                &&& (forall|i: int|
                    !is_preflight(m, hs) && 0 <= i < ds.len() && descriptor_matches(
                        #[trigger] ds[i],
                        m,
                        pathv,
                    ) && (forall|j: int|
                        0 <= j < ds.len() && j != i ==> !descriptor_matches(
                            #[trigger] ds[j],
                            m,
                            pathv,
                        )) ==> ({
                        let fields = ds[i].fields;
                        let ff = first_fail(fields, qt, ctv, body_read);
                        if forall|k: int|
                            0 <= k < fields.len() ==> field_ok(
                                #[trigger] fields[k],
                                qt,
                                ctv,
                                body_read,
                            ) {
                            r matches Ok(DispatchStep::CallHandler { route, value, .. })
                                && route == i && value@.len() == fields.len() && (forall|k: int|
                                0 <= k < fields.len() ==> field_val_ok(
                                    #[trigger] fields[k],
                                    ds[i].comps,
                                    crate::strutil::split_on(pathv.drop_first(), '/'),
                                    qt,
                                    body_bytes_of(req.body),
                                    value@[k],
                                ))
                        } else {
                            let x = field_err(fields[ff], qt, ctv);
                            r matches Ok(DispatchStep::Done(resp)) && resp.status
                                == extract_err_status(x) && resp.body@ == extract_err_body(x)
                                && resp.headers.deep_view() == seq![
                                ("Content-Type"@, "application/json"@),
                                ("Access-Control-Allow-Origin"@, "*"@),
                            ]
                        }
                    }))
                &&& (!is_preflight(m, hs) && (exists|i: int, j: int|
                    0 <= i < j < ds.len() && descriptor_matches(#[trigger] ds[i], m, pathv)
                        && descriptor_matches(#[trigger] ds[j], m, pathv)) ==> r == Err::<
                    DispatchStep<Ctx>,
                    FatalError,
                >(FatalError::MultipleMatches))
            }),
    {
        let is_options = matches!(req.method, Method::Options);
        let has_origin = match get_header(&req.headers, "Origin") {
            Some(_) => true,
            None => false,
        };
        if is_options && has_origin {
            let mut resp = Response {
                status: 200,
                headers: Vec::new(),
                body: String::new(),
            };
            resp.append_header("Access-Control-Allow-Origin", "*");
            resp.append_header("Access-Control-Allow-Methods", "*");
            resp.append_header("Access-Control-Allow-Headers", "*");
            proof {
                assert(resp.headers.deep_view() =~= seq![
                    ("Access-Control-Allow-Origin"@, "*"@),
                    ("Access-Control-Allow-Methods"@, "*"@),
                    ("Access-Control-Allow-Headers"@, "*"@),
                ]);
            }
            return Ok(DispatchStep::Done(resp));
        }
        match self.service.router.resolve(&req.method, req.path.as_str()) {
            RouteMatch::NoRoute => {
                let mut resp = Response {
                    status: 404,
                    headers: Vec::new(),
                    body: String::from_str("Not Found"),
                };
                resp.append_header("Access-Control-Allow-Origin", "*");
                proof {
                    assert(resp.headers.deep_view() =~= seq![
                        ("Access-Control-Allow-Origin"@, "*"@),
                    ]);
                }
                Ok(DispatchStep::Done(resp))
            },
            RouteMatch::ManyRoutes => Err(FatalError::MultipleMatches),
            RouteMatch::OneRoute(i) => {
                let route = self.service.router.route_at(i);
                let table = parse_query(req.query.as_str());
                let ct = get_header(&req.headers, "Content-Type");
                proof {
                    assert(descriptor_matches(route@, req.method, req.path@));
                    assert(ct_of(ct) == header_lookup(req.headers.deep_view(), "Content-Type"@));
                }
                match route.extract(req.path.as_str(), &table, ct, &req.body) {
                    Ok(vals) => Ok(
                        DispatchStep::CallHandler {
                            route: i,
                            ctx: self.ctx.clone(),
                            value: vals,
                        },
                    ),
                    Err(e) => {
                        let mut resp = e.to_response();
                        resp.append_header("Access-Control-Allow-Origin", "*");
                        proof {
                            let fields = self.service@[i as int].fields;
                            let x = field_err(
                                fields[
                                    first_fail(
                                        fields,
                                        query_table_spec(req.query@),
                                        ct_of(ct),
                                        req.body is Bytes,
                                    )
                                ],
                                query_table_spec(req.query@),
                                ct_of(ct),
                            );
                            assert(extract_err_matches(e, x));
                            assert(resp.status == extract_err_status(x));
                            assert(resp.body@ == extract_err_body(x));
                            assert(resp.headers.deep_view() =~= seq![
                                ("Content-Type"@, "application/json"@),
                                ("Access-Control-Allow-Origin"@, "*"@),
                            ]);
                        }
                        Ok(DispatchStep::Done(resp))
                    },
                }
            },
        }
    }
}

/// Turns the handler's result into the wire response: a success passes
/// through, a failure becomes its error response; either way the
/// permissive CORS origin header is appended.
pub fn respond_finish(result: Result<Response, NailsError>) -> (r: Response)
    ensures
        result matches Ok(resp) ==> r.status == resp.status && r.body == resp.body
            && r.headers.deep_view() == resp.headers.deep_view().push(
            ("Access-Control-Allow-Origin"@, "*"@),
        ),
        result matches Err(e) ==> r.status == e.status_spec() && r.body@ == error_body_json(
            e.class_name_view(),
            e.body_message_view(),
        ) && r.headers.deep_view() == seq![
            ("Content-Type"@, "application/json"@),
            ("Access-Control-Allow-Origin"@, "*"@),
        ],
{
    let mut resp = match result {
        Ok(resp) => resp,
        Err(e) => e.to_response(),
    };
    resp.append_header("Access-Control-Allow-Origin", "*");
    proof {
        if result is Err {
            assert(resp.headers.deep_view() =~= seq![
                ("Content-Type"@, "application/json"@),
                ("Access-Control-Allow-Origin"@, "*"@),
            ]);
        }
    }
    resp
}

} // verus!
