//! The router: an ordered collection of route descriptors, and the
//! resolution of the unique route that matches an incoming request line.

use crate::descriptor::{descriptor_matches, DescView, RouteDescriptor};
use crate::http::Method;
use vstd::prelude::*;

verus! {

/// Whether any route in `ds` matches the request line.
pub open spec fn any_route_matches(ds: Seq<DescView>, m: Method, path: Seq<char>) -> bool {
    exists|i: int| 0 <= i < ds.len() && descriptor_matches(#[trigger] ds[i], m, path)
}

/// The outcome of route resolution: no route, exactly one, or more than
/// one — the last a programming defect in the registered route set.
#[derive(Debug, Clone, Copy, PartialEq, Eq, Structural)]
pub enum RouteMatch {
    NoRoute,
    OneRoute(usize),
    ManyRoutes,
}

/// The ordered collection of registered routes.
#[derive(Debug)]
pub struct Router {
    routes: Vec<RouteDescriptor>,
}

impl View for Router {
    type V = Seq<DescView>;

    closed spec fn view(&self) -> Seq<DescView> {
        self.routes.deep_view()
    }
}

impl Router {
    /// Internal shape: every registered descriptor is well formed.
    pub closed spec fn wf(&self) -> bool {
        forall|i: int| 0 <= i < self.routes@.len() ==> (#[trigger] self.routes@[i]).wf()
    }

    pub fn new() -> (r: Router)
        ensures
            r@ == Seq::<DescView>::empty(),
            r.wf(),
    {
        let r = Router { routes: Vec::new() };
        proof {
            assert(r@ =~= Seq::<DescView>::empty());
        }
        r
    }

    /// Registers one route at the end of the order.
    pub fn add_route(&mut self, route: RouteDescriptor)
        requires
            old(self).wf(),
            route.wf(),
        ensures
            final(self).wf(),
            final(self)@ == old(self)@.push(route@),
    {
        let ghost old_routes = self.routes@;
        self.routes.push(route);
        proof {
            assert(self@ =~= old(self)@.push(route@));
            assert forall|i: int| 0 <= i < self.routes@.len() implies (
            #[trigger] self.routes@[i]).wf() by {
                if i < old_routes.len() {
                    assert(self.routes@[i] == old_routes[i]);
                }
            }
        }
    }

    /// Whether any route matches: the cheap pre-filter before dispatch.
    pub fn match_path(&self, method: &Method, path: &str) -> (r: bool)
        requires
            self.wf(),
        ensures
            r == any_route_matches(self@, *method, path@),
    {
        match self.resolve(method, path) {
            RouteMatch::NoRoute => false,
            _ => true,
        }
    }

    /// Resolves the request line to no route, the unique matching route, or
    /// a report that several routes match.
    #[verifier::loop_isolation(false)]
    pub fn resolve(&self, method: &Method, path: &str) -> (r: RouteMatch)
        requires
            self.wf(),
        ensures
            r is NoRoute <==> !any_route_matches(self@, *method, path@),
            r matches RouteMatch::OneRoute(i) ==> i < self@.len() && descriptor_matches(
                self@[i as int],
                *method,
                path@,
            ) && (forall|j: int|
                0 <= j < self@.len() && j != i ==> !descriptor_matches(
                    #[trigger] self@[j],
                    *method,
                    path@,
                )),
            r is ManyRoutes <==> exists|i: int, j: int|
                0 <= i < j < self@.len() && descriptor_matches(#[trigger] self@[i], *method, path@)
                    && descriptor_matches(#[trigger] self@[j], *method, path@),
    {
        let n = self.routes.len();
        let mut found: Option<usize> = None;
        let mut i: usize = 0;
        while i < n
            invariant
                i <= n,
                found matches Some(k) ==> k < i && descriptor_matches(
                    self@[k as int],
                    *method,
                    path@,
                ) && (forall|j: int|
                    0 <= j < i && j != k ==> !descriptor_matches(
                        #[trigger] self@[j],
                        *method,
                        path@,
                    )),
                found is None ==> (forall|j: int|
                    0 <= j < i ==> !descriptor_matches(#[trigger] self@[j], *method, path@)),
            decreases n - i,
        {
            proof {
                assert(self@[i as int] == self.routes@[i as int]@);
            }
            if self.routes[i].matches(method, path) {
                match found {
                    Some(k) => {
                        return RouteMatch::ManyRoutes;
                    },
                    None => {
                        found = Some(i);
                    },
                }
            }
            i = i + 1;
        }
        match found {
            Some(k) => RouteMatch::OneRoute(k),
            None => RouteMatch::NoRoute,
        }
    }

    /// The route registered at position `i`.
    pub fn route_at(&self, i: usize) -> (r: &RouteDescriptor)
        requires
            self.wf(),
            i < self@.len(),
        ensures
            r@ == self@[i as int],
            r.wf(),
    {
        proof {
            assert(self.routes@[i as int].wf());
        }
        &self.routes[i]
    }
}

} // verus!
