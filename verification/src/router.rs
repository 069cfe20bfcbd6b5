//! The pattern router: route registration and resolution.
//!
//! Routes are tried in the order of their registration, and the first one
//! that takes a request answers it. A route takes a request with its method
//! whose path its pattern matches; matching is done by the regular
//! expression of the route, and a match counts only if the captured texts
//! spell the path by the pattern.

pub mod pattern;

use crate::bindings::{captures, group_texts, regex_captures};
use crate::error::Error;
use crate::http::method::Method;
use crate::http::pairs::{lemma_put, put, value_of, Pairs};
use crate::http::params::Params;
use crate::http::request::Request;
use crate::http::response::Response;
use crate::text::{chars_of, texts};
pub use pattern::compile_pattern;
use pattern::{
    capture_names, filled, fits, is_segment, lemma_fit_spells_path, regex_of, template_fits,
};
use vstd::prelude::*;

verus! {

/// What answers a request once a route has taken it.
pub trait Handler {
    /// The outcomes that this handler may give for a request: any, unless
    /// the handler says more.
    open spec fn may_yield(&self, request: Request, outcome: Result<Response, Error>) -> bool {
        true
    }

    fn call(&self, request: Request) -> (outcome: Result<Response, Error>)
        ensures
            self.may_yield(request, outcome),
    ;
}

/// One registered route.
#[derive(Debug, Clone)]
pub struct Route<H> {
    pub method: Method,
    pub pattern: String,
    pub regex: String,
    pub param_names: Vec<String>,
    pub handler: H,
}

/// The routes in the order of their registration.
#[derive(Debug, Clone)]
pub struct Router<H> {
    routes: Vec<Route<H>>,
}

/// What a route is matched by.
pub struct RouteView {
    pub method: Seq<char>,
    pub pattern: Seq<char>,
    pub regex: Seq<char>,
    pub names: Seq<Seq<char>>,
}

/// The route that registering `pattern` under `method` makes.
pub open spec fn route_for(method: Seq<char>, pattern: Seq<char>) -> RouteView {
    RouteView {
        method,
        pattern,
        regex: regex_of(pattern),
        names: capture_names(pattern),
    }
}

/// The texts that a match captured, from its groups: the text of every
/// group but the first, which is the whole match. There are none where a
/// group took no part in the match.
pub open spec fn captured(groups: Seq<Option<Seq<char>>>) -> Option<Seq<Seq<char>>> {
    if groups.len() > 0 && forall|k: int| 1 <= k < groups.len() ==> (#[trigger] groups[k]) is Some {
        Some(Seq::new((groups.len() - 1) as nat, |k: int| groups[k + 1]->Some_0))
    } else {
        None
    }
}

/// What matching a route against a path gives: the captured segments, where
/// the regular expression of the route matches the path and the captured
/// texts spell the path by the pattern of the route.
pub open spec fn route_match(route: RouteView, path: Seq<char>) -> Option<Seq<Seq<char>>> {
    match regex_captures(route.regex, path) {
        Some(groups) => match captured(groups) {
            Some(segments) => if fits(route.pattern, path, segments) {
                Some(segments)
            } else {
                None
            },
            None => None,
        },
        None => None,
    }
}

/// The parameters of a match: each name with the segment captured in its
/// place. A name without a segment is left out; of two equal names the
/// later one counts.
pub open spec fn bind(names: Seq<Seq<char>>, segments: Seq<Seq<char>>) -> Pairs
    decreases names.len(),
{
    if names.len() == 0 {
        Pairs::empty()
    } else {
        let earlier = bind(names.drop_last(), segments);
        if names.len() <= segments.len() {
            put(earlier, names.last(), segments[names.len() - 1])
        } else {
            earlier
        }
    }
}

/// Whether a route takes a request with this method and path.
pub open spec fn takes(route: RouteView, method: Seq<char>, path: Seq<char>) -> bool {
    route.method == method && route_match(route, path) is Some
}

/// The position of the first route that takes the request, or the number of
/// routes if none does.
pub open spec fn first_match(routes: Seq<RouteView>, method: Seq<char>, path: Seq<char>) -> int
    decreases routes.len(),
{
    if routes.len() == 0 || takes(routes[0], method, path) {
        0
    } else {
        1 + first_match(routes.drop_first(), method, path)
    }
}

/// `first_match` is the first route that takes the request, and only such a
/// route.
pub proof fn lemma_first_match(routes: Seq<RouteView>, method: Seq<char>, path: Seq<char>)
    ensures
        0 <= first_match(routes, method, path) <= routes.len(),
        forall|k: int|
            0 <= k < first_match(routes, method, path) ==> !takes(
                #[trigger] routes[k],
                method,
                path,
            ),
        first_match(routes, method, path) < routes.len() ==> takes(
            routes[first_match(routes, method, path)],
            method,
            path,
        ),
    decreases routes.len(),
{
    if routes.len() == 0 || takes(routes[0], method, path) {
    } else {
        let rest = routes.drop_first();
        lemma_first_match(rest, method, path);
        assert forall|k: int| 0 <= k < first_match(routes, method, path) implies !takes(
            #[trigger] routes[k],
            method,
            path,
        ) by {
            if k > 0 {
                assert(routes[k] == rest[k - 1]);
            }
        }
        if first_match(rest, method, path) < rest.len() {
            assert(routes[first_match(routes, method, path)] == rest[first_match(
                rest,
                method,
                path,
            )]);
        }
    }
}

proof fn lemma_first_match_is(routes: Seq<RouteView>, method: Seq<char>, path: Seq<char>, i: int)
    requires
        0 <= i <= routes.len(),
        forall|k: int| 0 <= k < i ==> !takes(#[trigger] routes[k], method, path),
        i < routes.len() ==> takes(routes[i], method, path),
    ensures
        first_match(routes, method, path) == i,
{
    lemma_first_match(routes, method, path);
    let j = first_match(routes, method, path);
    if j < i {
        assert(!takes(routes[j], method, path));
    }
}

/// Route precedence: where two routes take the same request, the one
/// registered first is resolved, never the later one.
pub proof fn lemma_first_registered_wins(
    routes: Seq<RouteView>,
    method: Seq<char>,
    path: Seq<char>,
    i: int,
    j: int,
)
    requires
        0 <= i < j < routes.len(),
        takes(routes[i], method, path),
        takes(routes[j], method, path),
    ensures
        first_match(routes, method, path) <= i,
        first_match(routes, method, path) != j,
{
    lemma_first_match(routes, method, path);
}

/// Registering a route never changes how a request is resolved that an
/// earlier route takes.
pub proof fn lemma_later_route_never_shadows(
    routes: Seq<RouteView>,
    added: RouteView,
    method: Seq<char>,
    path: Seq<char>,
)
    requires
        first_match(routes, method, path) < routes.len(),
    ensures
        first_match(routes.push(added), method, path) == first_match(routes, method, path),
    decreases routes.len(),
{
    assert(routes.push(added)[0] == routes[0]);
    if routes.len() == 0 || takes(routes[0], method, path) {
    } else {
        assert(routes.push(added).drop_first() =~= routes.drop_first().push(added));
        lemma_later_route_never_shadows(routes.drop_first(), added, method, path);
    }
}

/// What is no declared name has no parameter.
pub proof fn lemma_bind_only_names(
    names: Seq<Seq<char>>,
    segments: Seq<Seq<char>>,
    name: Seq<char>,
)
    requires
        !names.contains(name),
    ensures
        value_of(bind(names, segments), name) is None,
    decreases names.len(),
{
    if names.len() > 0 {
        let earlier = bind(names.drop_last(), segments);
        assert(names.last() == names[names.len() - 1]);
        assert forall|k: int| 0 <= k < names.drop_last().len() implies names.drop_last()[k]
            != name by {
            assert(names.drop_last()[k] == names[k]);
        }
        lemma_bind_only_names(names.drop_last(), segments, name);
        if names.len() <= segments.len() {
            lemma_put(earlier, names.last(), segments[names.len() - 1]);
        }
    }
}

/// Where the declared names differ from one another, the parameter under
/// the name at position `k` is the segment at position `k`, and a name
/// without a segment has no parameter.
pub proof fn lemma_bind_by_position(names: Seq<Seq<char>>, segments: Seq<Seq<char>>, k: int)
    requires
        0 <= k < names.len(),
        forall|a: int, b: int| 0 <= a < b < names.len() ==> names[a] != names[b],
    ensures
        value_of(bind(names, segments), names[k]) == if k < segments.len() {
            Some(segments[k])
        } else {
            None
        },
    decreases names.len(),
{
    let earlier = bind(names.drop_last(), segments);
    let last = names.len() - 1;
    if k == last {
        if names.len() <= segments.len() {
            lemma_put(earlier, names.last(), segments[last]);
        } else {
            assert forall|a: int| 0 <= a < names.drop_last().len() implies names.drop_last()[a]
                != names[k] by {
                assert(names.drop_last()[a] == names[a]);
            }
            lemma_bind_only_names(names.drop_last(), segments, names[k]);
        }
    } else {
        assert(names.drop_last()[k] == names[k]);
        assert forall|a: int, b: int| 0 <= a < b < names.drop_last().len() implies names.drop_last()[a]
            != names.drop_last()[b] by {
            assert(names.drop_last()[a] == names[a]);
            assert(names.drop_last()[b] == names[b]);
        }
        lemma_bind_by_position(names.drop_last(), segments, k);
        if names.len() <= segments.len() {
            lemma_put(earlier, names.last(), segments[last]);
            assert(names[k] != names[last]);
        }
    }
}

/// Captured parameters: where a registered route matches a path, the path
/// is the pattern with one segment in place of each capture, and the
/// parameter under each declared name is exactly the segment in the place
/// of its capture, the names taken in the order of their declaration. This
/// holds of patterns whose names differ from one another.
pub proof fn lemma_parameters_are_segments(
    method: Seq<char>,
    pattern: Seq<char>,
    path: Seq<char>,
    k: int,
)
    requires
        route_match(route_for(method, pattern), path) is Some,
        0 <= k < capture_names(pattern).len(),
        forall|a: int, b: int|
            0 <= a < b < capture_names(pattern).len() ==> capture_names(pattern)[a]
                != capture_names(pattern)[b],
    ensures
        ({
            let segments = route_match(route_for(method, pattern), path)->Some_0;
            let params = bind(capture_names(pattern), segments);
            &&& segments.len() == capture_names(pattern).len()
            &&& path == filled(pattern, segments)
            &&& is_segment(segments[k])
            &&& value_of(params, capture_names(pattern)[k]) == Some(segments[k])
        }),
{
    let segments = route_match(route_for(method, pattern), path)->Some_0;
    lemma_fit_spells_path(pattern, path, segments);
    lemma_bind_by_position(capture_names(pattern), segments, k);
}

impl<H> Route<H> {
    /// What the route is matched by.
    pub open spec fn view(&self) -> RouteView {
        RouteView {
            method: self.method.name(),
            pattern: self.pattern@,
            regex: self.regex@,
            names: texts(self.param_names@),
        }
    }
}

/// The texts that a match captured, if every group took part in it.
pub fn captured_texts(groups: &Vec<Option<String>>) -> (r: Option<Vec<String>>)
    ensures
        match r {
            Some(segments) => captured(group_texts(groups@)) == Some(texts(segments@)),
            None => captured(group_texts(groups@)) is None,
        },
{
    if groups.len() == 0 {
        return None;
    }
    let mut segments: Vec<String> = Vec::new();
    let mut k: usize = 1;
    while k < groups.len()
        invariant
            1 <= k <= groups@.len(),
            segments@.len() == k - 1,
            forall|i: int| 1 <= i < k ==> (#[trigger] group_texts(groups@)[i]) is Some,
            forall|i: int|
                0 <= i < k - 1 ==> (#[trigger] segments@[i])@ == group_texts(
                    groups@,
                )[i + 1]->Some_0,
        decreases groups@.len() - k,
    {
        match &groups[k] {
            Some(text) => {
                segments.push(text.clone());
            },
            None => {
                assert(group_texts(groups@)[k as int] is None);
                return None;
            },
        }
        k += 1;
    }
    assert(texts(segments@) =~= captured(group_texts(groups@))->Some_0);
    Some(segments)
}

/// Binds each declared name to the segment captured in its place.
pub fn bind_params(names: &Vec<String>, segments: &Vec<String>) -> (params: Params)
    ensures
        params@ == bind(texts(names@), texts(segments@)),
{
    let mut params = Params::new();
    let mut i: usize = 0;
    assert(texts(names@).subrange(0, 0) =~= Seq::<Seq<char>>::empty());
    while i < names.len()
        invariant
            i <= names@.len(),
            params@ == bind(texts(names@).subrange(0, i as int), texts(segments@)),
        decreases names@.len() - i,
    {
        proof {
            let done = texts(names@).subrange(0, i + 1);
            assert(done.drop_last() =~= texts(names@).subrange(0, i as int));
            assert(done.last() == names@[i as int]@);
        }
        if i < segments.len() {
            params.insert(names[i].clone(), segments[i].clone());
        }
        i += 1;
    }
    assert(texts(names@).subrange(0, i as int) =~= texts(names@));
    params
}

impl<H: Handler> Router<H> {
    /// The routes, in the order of their registration.
    pub closed spec fn view(&self) -> Seq<RouteView> {
        Seq::new(self.routes@.len(), |i: int| self.routes@[i]@)
    }

    /// The handlers of the routes, in the same order.
    pub closed spec fn handlers(&self) -> Seq<H> {
        Seq::new(self.routes@.len(), |i: int| self.routes@[i].handler)
    }

    /// A router without routes.
    pub fn new() -> (router: Router<H>)
        ensures
            router@ == Seq::<RouteView>::empty(),
            router.handlers() == Seq::<H>::empty(),
    {
        let router = Router { routes: Vec::new() };
        assert(router@ =~= Seq::<RouteView>::empty());
        assert(router.handlers() =~= Seq::<H>::empty());
        router
    }

    /// The number of routes.
    pub fn len(&self) -> (n: usize)
        ensures
            n == self@.len(),
            n == self.handlers().len(),
    {
        self.routes.len()
    }

    /// The route at position `i`.
    pub fn route_at(&self, i: usize) -> (route: &Route<H>)
        requires
            i < self@.len(),
        ensures
            route@ == self@[i as int],
            route.handler == self.handlers()[i as int],
    {
        &self.routes[i]
    }

    /// Registers a route as the last one.
    pub fn add_route(&mut self, method: Method, pattern: &str, handler: H) -> (router: &mut Self)
        ensures
            router@ == old(self)@.push(route_for(method.name(), pattern@)),
            router.handlers() == old(self).handlers().push(handler),
            *final(self) == *final(router),
    {
        let compiled = compile_pattern(pattern);
        let route = Route {
            method,
            pattern: pattern.to_owned(),
            regex: compiled.0,
            param_names: compiled.1,
            handler,
        };
        self.routes.push(route);
        assert(self@ =~= old(self)@.push(route_for(method.name(), pattern@)));
        assert(self.handlers() =~= old(self).handlers().push(handler));
        self
    }

    /// Registers a route for `GET`.
    pub fn get(&mut self, pattern: &str, handler: H) -> (router: &mut Self)
        ensures
            router@ == old(self)@.push(route_for("GET"@, pattern@)),
            router.handlers() == old(self).handlers().push(handler),
            *final(self) == *final(router),
    {
        self.add_route(Method::GET, pattern, handler)
    }

    /// Registers a route for `POST`.
    pub fn post(&mut self, pattern: &str, handler: H) -> (router: &mut Self)
        ensures
            router@ == old(self)@.push(route_for("POST"@, pattern@)),
            router.handlers() == old(self).handlers().push(handler),
            *final(self) == *final(router),
    {
        self.add_route(Method::POST, pattern, handler)
    }

    /// Registers a route for `PUT`.
    pub fn put(&mut self, pattern: &str, handler: H) -> (router: &mut Self)
        ensures
            router@ == old(self)@.push(route_for("PUT"@, pattern@)),
            router.handlers() == old(self).handlers().push(handler),
            *final(self) == *final(router),
    {
        self.add_route(Method::PUT, pattern, handler)
    }

    /// Registers a route for `DELETE`.
    pub fn delete(&mut self, pattern: &str, handler: H) -> (router: &mut Self)
        ensures
            router@ == old(self)@.push(route_for("DELETE"@, pattern@)),
            router.handlers() == old(self).handlers().push(handler),
            *final(self) == *final(router),
    {
        self.add_route(Method::DELETE, pattern, handler)
    }

    /// Registers a route for `OPTIONS`.
    pub fn options(&mut self, pattern: &str, handler: H) -> (router: &mut Self)
        ensures
            router@ == old(self)@.push(route_for("OPTIONS"@, pattern@)),
            router.handlers() == old(self).handlers().push(handler),
            *final(self) == *final(router),
    {
        self.add_route(Method::OPTIONS, pattern, handler)
    }

    /// Matches one route against a path: the parameters, where the route
    /// matches.
    pub fn match_route(&self, route: &Route<H>, path: &str) -> (r: Option<Params>)
        ensures
            match r {
                Some(params) => route_match(route@, path@) is Some && params@ == bind(
                    route@.names,
                    route_match(route@, path@)->Some_0,
                ),
                None => route_match(route@, path@) is None,
            },
    {
        let groups = match captures(route.regex.as_str(), path) {
            Some(groups) => groups,
            None => {
                return None;
            },
        };
        let segments = match captured_texts(&groups) {
            Some(segments) => segments,
            None => {
                return None;
            },
        };
        let template = chars_of(route.pattern.as_str());
        let text = chars_of(path);
        if template_fits(template.as_slice(), text.as_slice(), &segments) {
            Some(bind_params(&route.param_names, &segments))
        } else {
            None
        }
    }

    /// Resolves a request: the position of the first route with this method
    /// that matches the path, and the parameters of that match. Without
    /// such a route it is `RouteNotFound`, with the path.
    pub fn resolve(&self, method: &Method, path: &str) -> (r: Result<(usize, Params), Error>)
        ensures
            match r {
                Ok(found) => {
                    &&& found.0 == first_match(self@, method.name(), path@)
                    &&& found.0 < self@.len()
                    &&& route_match(self@[found.0 as int], path@) is Some
                    &&& found.1@ == bind(
                        self@[found.0 as int].names,
                        route_match(self@[found.0 as int], path@)->Some_0,
                    )
                },
                Err(e) => {
                    &&& first_match(self@, method.name(), path@) == self@.len()
                    &&& e is RouteNotFound
                    &&& e->RouteNotFound_0@ == path@
                },
            },
    {
        let mut i: usize = 0;
        while i < self.routes.len()
            invariant
                i <= self@.len(),
                self@.len() == self.routes@.len(),
                forall|k: int| 0 <= k < i ==> !takes(#[trigger] self@[k], method.name(), path@),
            decreases self@.len() - i,
        {
            let route = &self.routes[i];
            assert(route@ == self@[i as int]);
            if route.method.same_as(method) {
                match self.match_route(route, path) {
                    Some(params) => {
                        proof {
                            lemma_first_match_is(self@, method.name(), path@, i as int);
                        }
                        return Ok((i, params));
                    },
                    None => {},
                }
            }
            i += 1;
        }
        proof {
            lemma_first_match_is(self@, method.name(), path@, i as int);
        }
        Err(Error::RouteNotFound(path.to_owned()))
    }

    /// What answering a request may give: an outcome of the handler of the
    /// route that resolves the request, called with the request and the
    /// parameters of the match; or `RouteNotFound`, with the path, where no
    /// route takes the request.
    pub open spec fn answers(&self, request: Request, outcome: Result<Response, Error>) -> bool {
        let method = request.method.name();
        let path = request.uri.path_text();
        let i = first_match(self@, method, path);
        if i < self@.len() {
            exists|params: Params|
                {
                    &&& route_match(self@[i], path) is Some
                    &&& params@ == bind(self@[i].names, route_match(self@[i], path)->Some_0)
                    &&& #[trigger] self.handlers()[i].may_yield(
                        Request { params, ..request },
                        outcome,
                    )
                }
        } else {
            outcome is Err && outcome->Err_0 is RouteNotFound && outcome->Err_0->RouteNotFound_0@
                == path
        }
    }

    /// Answers a request: the handler of the first route that takes it is
    /// called with the request and the parameters of the match.
    pub fn handle(&self, request: Request) -> (r: Result<Response, Error>)
        ensures
            self.answers(request, r),
    {
        match self.resolve(&request.method, request.uri.path()) {
            Ok(found) => {
                let mut routed = request;
                routed.params = found.1;
                let ghost sent = routed;
                let outcome = self.routes[found.0].handler.call(routed);
                proof {
                    assert(sent == Request { params: sent.params, ..request });
                    assert(self.handlers()[found.0 as int].may_yield(
                        Request { params: sent.params, ..request },
                        outcome,
                    ));
                }
                outcome
            },
            Err(e) => Err(e),
        }
    }
}

impl<H: Handler> Default for Router<H> {
    fn default() -> (router: Router<H>)
        ensures
            router@ == Seq::<RouteView>::empty(),
    {
        Router::new()
    }
}

} // verus!
