//! The router: a set of routes with a handler each, kept in specificity
//! order and indexed by a trie.

use crate::captures::Captures;
use crate::matching::well_formed;
use crate::order::outranks;
use crate::pattern::{parse_tokens, ParseError};
use crate::reverse_match::ReverseMatch;
use crate::route_match::Match;
use crate::route_spec::{lemma_texts_of_push, pattern_text, texts_of, RouteSpec};
use crate::router_model::{
    added, agreeing_upto, built, empty_model, ends_here, first_agreeing, id_of, known,
    lemma_added_ok, lemma_built_fails, lemma_handler_changed, lemma_id_of, lemma_lookup_known,
    matching_upto, model_ok, place_of, raw_of, route_known, RouterModel, Scan,
};
use crate::segment::Token;
use crate::strings::bytes_of;
use crate::trie::{as_index, empty_node, lookup, Hit, Trie, TrieMatch};
use vstd::prelude::*;
use vstd::string::StringSliceAdditionalSpecFns;

verus! {

/// Whether a pattern may be handed to a router: if it parses at all, what it
/// parses to is well formed, so that it can be matched.
pub open spec fn may_be_added(pattern: Seq<u8>) -> bool {
    parse_tokens(pattern) is Ok ==> well_formed(parse_tokens(pattern)->Ok_0)
}

/// Whether a pattern may be handed to a router.
pub fn may_add(pattern: &str) -> (yes: bool)
    ensures
        yes == may_be_added(pattern.spec_bytes()),
{
    match RouteSpec::parse(pattern) {
        Ok(route) => route.is_well_formed(),
        Err(_) => true,
    }
}

/// The tokens of each route of a sequence.
pub open spec fn tokens_each(routes: Seq<RouteSpec>) -> Seq<Seq<Token>> {
    Seq::new(routes.len(), |i: int| routes[i]@)
}

/// The source text of each route of a sequence.
pub open spec fn sources_each(routes: Seq<RouteSpec>) -> Seq<Option<Seq<char>>> {
    Seq::new(routes.len(), |i: int| routes[i].source_text())
}

/// The numbers of a sequence, as mathematical integers.
pub open spec fn ints_of(order: Seq<usize>) -> Seq<int> {
    Seq::new(order.len(), |k: int| order[k] as int)
}

/// The top level struct of this crate: an ordered set of routes which can
/// be applied to a path, and a handler of any type for each route.
pub struct Router<Handler> {
    routes: Vec<RouteSpec>,
    handlers: Vec<Handler>,
    order: Vec<usize>,
    trie: Trie,
}

impl<Handler> View for Router<Handler> {
    type V = RouterModel<Handler>;

    closed spec fn view(&self) -> RouterModel<Handler> {
        RouterModel {
            routes: tokens_each(self.routes@),
            sources: sources_each(self.routes@),
            handlers: self.handlers@,
            order: ints_of(self.order@),
            trie: self.trie@,
        }
    }
}

impl<Handler> Default for Router<Handler> {
    /// A router without routes.
    fn default() -> (router: Router<Handler>)
        ensures
            router.wf(),
            router@ == empty_model::<Handler>(),
    {
        Router::new()
    }
}

impl<Handler> Router<Handler> {
    /// The invariant of a router: see [`model_ok`].
    pub open spec fn wf(&self) -> bool {
        model_ok(self@)
    }

    /// A router without routes.
    pub fn new() -> (router: Router<Handler>)
        ensures
            router.wf(),
            router@ == empty_model::<Handler>(),
    {
        let router = Router {
            routes: Vec::new(),
            handlers: Vec::new(),
            order: Vec::new(),
            trie: Trie::new(),
        };
        assert(router@.routes =~= Seq::empty());
        assert(router@.sources =~= Seq::empty());
        assert(router@.order =~= Seq::empty());
        router
    }

    /// The number of routes.
    pub fn len(&self) -> (count: usize)
        ensures
            count == self@.routes.len(),
    {
        self.routes.len()
    }

    /// Whether there is no route.
    pub fn is_empty(&self) -> (empty: bool)
        ensures
            empty == (self@.routes.len() == 0),
    {
        self.routes.len() == 0
    }

    /// The number of the route with the segments of `route`.
    fn find(&self, route: &RouteSpec) -> (id: Option<usize>)
        ensures
            as_index(id) == id_of(self@.routes, route@, 0),
            id is Some ==> id->0 < self@.routes.len(),
    {
        let mut i: usize = 0;
        while i < self.routes.len()
            invariant
                i <= self.routes@.len(),
                id_of(self@.routes, route@, 0) == id_of(self@.routes, route@, i as int),
            decreases self.routes@.len() - i,
        {
            if self.routes[i].same_as(route) {
                return Some(i);
            }
            i = i + 1;
        }
        None
    }

    /// Registers a route with its handler: see [`added`].
    pub fn add_route(&mut self, route: RouteSpec, handler: Handler)
        requires
            old(self).wf(),
            well_formed(route@),
        ensures
            final(self).wf(),
            final(self)@ == added(old(self)@, route@, route.source_text(), handler),
    {
        let ghost before = self@;
        let ghost goal = added(before, route@, route.source_text(), handler);
        proof {
            lemma_id_of(before.routes, route@, 0);
            lemma_added_ok(before, route@, route.source_text(), handler);
        }
        match self.find(&route) {
            Some(id) => {
                self.trie.insert(&route, id);
                self.routes[id] = route;
                self.handlers[id] = handler;
                proof {
                    assert(self@.routes =~= goal.routes);
                    assert(self@.sources =~= goal.sources);
                }
            },
            None => {
                let id: usize = self.routes.len();
                let place: usize = self.place(&route);
                self.trie.insert(&route, id);
                self.routes.push(route);
                self.handlers.push(handler);
                self.order.insert(place, id);
                proof {
                    assert(self@.routes =~= goal.routes);
                    assert(self@.sources =~= goal.sources);
                    assert(self@.order =~= goal.order);
                }
            },
        }
    }

    /// Parses a pattern and registers it with its handler. A pattern that
    /// does not parse leaves the router as it is.
    pub fn add(&mut self, pattern: &str, handler: Handler) -> (done: Result<(), ParseError>)
        requires
            old(self).wf(),
            may_be_added(pattern.spec_bytes()),
        ensures
            final(self).wf(),
            match parse_tokens(pattern.spec_bytes()) {
                Ok(tokens) => done is Ok && final(self)@ == added(
                    old(self)@,
                    tokens,
                    Some(pattern@),
                    handler,
                ),
                Err(fault) => done is Err && done->Err_0@ == fault && final(self)@ == old(self)@,
            },
    {
        match RouteSpec::parse(pattern) {
            Ok(route) => {
                self.add_route(route, handler);
                Ok(())
            },
            Err(e) => Err(e),
        }
    }

    /// Parses a pattern and registers it with its handler if it can be
    /// matched, and says whether it did. A pattern that does not parse, or
    /// that parses to a route that is not well formed, leaves the router as
    /// it is.
    pub fn try_add(&mut self, pattern: &str, handler: Handler) -> (done: Result<bool, ParseError>)
        requires
            old(self).wf(),
        ensures
            final(self).wf(),
            match parse_tokens(pattern.spec_bytes()) {
                Ok(tokens) => done == Ok::<bool, ParseError>(well_formed(tokens)) && final(self)@
                    == (if well_formed(tokens) {
                    added(old(self)@, tokens, Some(pattern@), handler)
                } else {
                    old(self)@
                }),
                Err(fault) => done is Err && done->Err_0@ == fault && final(self)@ == old(self)@,
            },
    {
        match RouteSpec::parse(pattern) {
            Ok(route) => {
                if route.is_well_formed() {
                    self.add_route(route, handler);
                    Ok(true)
                } else {
                    Ok(false)
                }
            },
            Err(e) => Err(e),
        }
    }

    /// The route under the number `id`.
    pub fn route(&self, id: usize) -> (route: &RouteSpec)
        requires
            id < self@.routes.len(),
        ensures
            route@ == self@.routes[id as int],
            route.source_text() == self@.sources[id as int],
    {
        &self.routes[id]
    }

    /// The handler of the route under the number `id`.
    pub fn handler(&self, id: usize) -> (handler: &Handler)
        requires
            self.wf(),
            id < self@.routes.len(),
        ensures
            *handler == self@.handlers[id as int],
    {
        &self.handlers[id]
    }

    /// The number of the route at the place `k` of the specificity order.
    pub fn nth(&self, k: usize) -> (id: usize)
        requires
            self.wf(),
            k < self@.routes.len(),
        ensures
            id == self@.order[k as int],
            id < self@.routes.len(),
    {
        self.order[k]
    }

    /// The handler registered for a pattern, if the pattern parses and is
    /// registered.
    pub fn get_handler(&self, pattern: &str) -> (handler: Option<&Handler>)
        requires
            self.wf(),
        ensures
            match known(self@, pattern.spec_bytes()) {
                Some(id) => handler is Some && *handler->0 == self@.handlers[id],
                None => handler is None,
            },
    {
        match RouteSpec::parse(pattern) {
            Ok(route) => {
                proof {
                    lemma_id_of(self@.routes, route@, 0);
                }
                match self.find(&route) {
                    Some(id) => Some(&self.handlers[id]),
                    None => None,
                }
            },
            Err(_) => None,
        }
    }

    /// The handler registered for a pattern, to be changed in place, if the
    /// pattern parses and is registered.
    pub fn get_handler_mut(&mut self, pattern: &str) -> (handler: Option<&mut Handler>)
        requires
            old(self).wf(),
        ensures
            match known(old(self)@, pattern.spec_bytes()) {
                Some(id) => {
                    &&& handler is Some
                    &&& *handler->0 == old(self)@.handlers[id]
                    &&& final(self)@ == (RouterModel {
                        handlers: old(self)@.handlers.update(id, *final(handler->0)),
                        ..old(self)@
                    })
                    &&& final(self).wf()
                },
                None => handler is None && final(self)@ == old(self)@,
            },
    {
        match RouteSpec::parse(pattern) {
            Ok(route) => {
                proof {
                    lemma_id_of(self@.routes, route@, 0);
                }
                match self.find(&route) {
                    Some(id) => {
                        proof {
                            let m = self@;
                            assert forall|h: Handler|
                                model_ok(
                                    RouterModel {
                                        handlers: #[trigger] m.handlers.update(id as int, h),
                                        ..m
                                    },
                                ) by {
                                lemma_handler_changed(m, id as int, h);
                            }
                        }
                        Some(&mut self.handlers[id])
                    },
                    None => None,
                }
            },
            Err(_) => None,
        }
    }

    /// The single best match for a path: the route that the trie finds, with
    /// its handler and what it captured, the wildcard's capture last.
    pub fn best_match<'a, 'b>(&'a self, path: &'b str) -> (best: Option<Match<'a, 'b, Handler>>)
        requires
            self.wf(),
        ensures
            match lookup(self@.trie, path.spec_bytes()) {
                Some(hit) => best is Some && is_match_of(best->0, self@, path, hit),
                None => best is None,
            },
    {
        match self.trie.matches(path) {
            Some(found) => {
                let TrieMatch { route, captures, wildcard } = found;
                proof {
                    lemma_lookup_known(self@.trie, path.spec_bytes(), self@.routes.len() as int);
                }
                let mut captures = captures;
                match wildcard {
                    Some(rest) => {
                        proof {
                            lemma_texts_of_push(captures@, rest);
                        }
                        captures.push(rest);
                    },
                    None => {},
                }
                Some(
                    Match {
                        path,
                        route: &self.routes[route],
                        captures,
                        handler: &self.handlers[route],
                    },
                )
            },
            None => None,
        }
    }

    /// All matches for a path, most specific route first. Each route is
    /// tried on its own, so this takes longer than [`Router::best_match`].
    pub fn matches<'a, 'b>(&'a self, path: &'b str) -> (all: Vec<Match<'a, 'b, Handler>>)
        requires
            self.wf(),
        ensures
            all@.len() == matching_upto(self@, path.spec_bytes(), self@.order.len() as int).len(),
            forall|j: int|
                0 <= j < all@.len() ==> is_scan_match(
                    #[trigger] all@[j],
                    self@,
                    path,
                    matching_upto(self@, path.spec_bytes(), self@.order.len() as int)[j],
                ),
    {
        let mut all: Vec<Match<'a, 'b, Handler>> = Vec::new();
        let mut k: usize = 0;
        while k < self.order.len()
            invariant
                self.wf(),
                k <= self.order@.len(),
                all@.len() == matching_upto(self@, path.spec_bytes(), k as int).len(),
                forall|j: int|
                    0 <= j < all@.len() ==> is_scan_match(
                        #[trigger] all@[j],
                        self@,
                        path,
                        matching_upto(self@, path.spec_bytes(), k as int)[j],
                    ),
            decreases self.order@.len() - k,
        {
            assert(self@.order[k as int] == self.order@[k as int]);
            let id: usize = self.order[k];
            assert(self@.routes[id as int] == self.routes@[id as int]@);
            match self.routes[id].matches(path) {
                Some(captures) => {
                    all.push(
                        Match {
                            path,
                            route: &self.routes[id],
                            captures,
                            handler: &self.handlers[id],
                        },
                    );
                },
                None => {},
            }
            k = k + 1;
        }
        all
    }

    /// The routes that can be rendered from the named values, most specific
    /// first.
    pub fn reverse_matches<'keys, 'values, 'captures, 'route>(
        &'route self,
        captures: &'captures Captures<'keys, 'values>,
    ) -> (all: Vec<ReverseMatch<'keys, 'values, 'captures, 'route>>)
        requires
            self.wf(),
        ensures
            all@.len() == agreeing_upto(self@, captures@, self@.order.len() as int).len(),
            forall|j: int|
                0 <= j < all@.len() ==> (#[trigger] all@[j]).parts() == (
                    self@.routes[agreeing_upto(self@, captures@, self@.order.len() as int)[j]],
                    captures@,
                ),
    {
        let mut all: Vec<ReverseMatch<'keys, 'values, 'captures, 'route>> = Vec::new();
        let mut k: usize = 0;
        while k < self.order.len()
            invariant
                self.wf(),
                k <= self.order@.len(),
                all@.len() == agreeing_upto(self@, captures@, k as int).len(),
                forall|j: int|
                    0 <= j < all@.len() ==> (#[trigger] all@[j]).parts() == (
                        self@.routes[agreeing_upto(self@, captures@, k as int)[j]],
                        captures@,
                    ),
            decreases self.order@.len() - k,
        {
            assert(self@.order[k as int] == self.order@[k as int]);
            let id: usize = self.order[k];
            match ReverseMatch::new(captures, &self.routes[id]) {
                Some(found) => {
                    all.push(found);
                },
                None => {},
            }
            k = k + 1;
        }
        all
    }

    /// The most specific route that can be rendered from the named values.
    pub fn best_reverse_match<'keys, 'values, 'captures, 'route>(
        &'route self,
        captures: &'captures Captures<'keys, 'values>,
    ) -> (best: Option<ReverseMatch<'keys, 'values, 'captures, 'route>>)
        requires
            self.wf(),
        ensures
            match first_agreeing(self@, captures@, 0) {
                Some(id) => best is Some && best->0.parts() == (self@.routes[id], captures@),
                None => best is None,
            },
    {
        let mut k: usize = 0;
        while k < self.order.len()
            invariant
                self.wf(),
                k <= self.order@.len(),
                first_agreeing(self@, captures@, 0) == first_agreeing(self@, captures@, k as int),
            decreases self.order@.len() - k,
        {
            let id: usize = self.order[k];
            match ReverseMatch::new(captures, &self.routes[id]) {
                Some(found) => {
                    return Some(found);
                },
                None => {},
            }
            k = k + 1;
        }
        None
    }

    /// The routes with their handlers, most specific first.
    pub fn iter(&self) -> (all: Vec<(&RouteSpec, &Handler)>)
        requires
            self.wf(),
        ensures
            all@.len() == self@.order.len(),
            forall|k: int|
                0 <= k < all@.len() ==> (#[trigger] all@[k]).0@ == self@.routes[self@.order[k]]
                    && all@[k].0.source_text() == self@.sources[self@.order[k]] && *all@[k].1
                    == self@.handlers[self@.order[k]],
    {
        let mut all: Vec<(&RouteSpec, &Handler)> = Vec::new();
        let mut k: usize = 0;
        while k < self.order.len()
            invariant
                self.wf(),
                k <= self.order@.len(),
                all@.len() == k,
                forall|j: int|
                    0 <= j < all@.len() ==> (#[trigger] all@[j]).0@ == self@.routes[self@.order[j]]
                        && all@[j].0.source_text() == self@.sources[self@.order[j]] && *all@[j].1
                        == self@.handlers[self@.order[j]],
            decreases self.order@.len() - k,
        {
            assert(self@.order[k as int] == self.order@[k as int]);
            let id: usize = self.order[k];
            all.push((&self.routes[id], &self.handlers[id]));
            k = k + 1;
        }
        all
    }

    /// The router with the given routes, registered in the order given, or
    /// the error of the first pattern that does not parse.
    pub fn new_with_routes(routes: Vec<(&str, Handler)>) -> (made: Result<
        Router<Handler>,
        ParseError,
    >)
        requires
            forall|i: int|
                0 <= i < routes@.len() ==> may_be_added((#[trigger] routes@[i]).0.spec_bytes()),
        ensures
            match built(routes@, routes@.len() as int) {
                Ok(m) => made is Ok && made->Ok_0@ == m && made->Ok_0.wf(),
                Err(fault) => made is Err && made->Err_0@ == fault,
            },
    {
        let ghost given = routes@;
        let mut left = routes;
        let mut stack: Vec<(&str, Handler)> = Vec::new();
        while left.len() > 0
            invariant
                left@.len() + stack@.len() == given.len(),
                forall|j: int| 0 <= j < left@.len() ==> left@[j] == given[j],
                forall|j: int| 0 <= j < stack@.len() ==> stack@[j] == given[given.len() - 1 - j],
            decreases left@.len(),
        {
            match left.pop() {
                Some(pair) => {
                    stack.push(pair);
                },
                None => {},
            }
        }
        let mut router: Router<Handler> = Router::new();
        while stack.len() > 0
            invariant
                router.wf(),
                given == routes@,
                stack@.len() <= given.len(),
                forall|j: int| 0 <= j < stack@.len() ==> stack@[j] == given[given.len() - 1 - j],
                forall|i: int|
                    0 <= i < given.len() ==> may_be_added((#[trigger] given[i]).0.spec_bytes()),
                built(given, given.len() - stack@.len()) == Ok::<
                    RouterModel<Handler>,
                    crate::pattern::ParseFault,
                >(router@),
            decreases stack@.len(),
        {
            let ghost n = given.len() - stack@.len();
            match stack.pop() {
                Some(pair) => {
                    let (pattern, handler) = pair;
                    match router.add(pattern, handler) {
                        Ok(_) => {},
                        Err(e) => {
                            proof {
                                lemma_built_fails(given, n + 1, given.len() as int);
                            }
                            return Err(e);
                        },
                    }
                },
                None => {},
            }
        }
        Ok(router)
    }

    /// The routes written as patterns, most specific first.
    pub fn patterns(&self) -> (all: Vec<String>)
        requires
            self.wf(),
        ensures
            all@.len() == self@.order.len(),
            forall|k: int|
                0 <= k < all@.len() ==> bytes_of((#[trigger] all@[k])@)
                    == pattern_text(self@.routes[self@.order[k]]),
    {
        let mut all: Vec<String> = Vec::new();
        let mut k: usize = 0;
        while k < self.order.len()
            invariant
                self.wf(),
                k <= self.order@.len(),
                all@.len() == k,
                forall|j: int|
                    0 <= j < all@.len() ==> bytes_of((#[trigger] all@[j])@)
                        == pattern_text(self@.routes[self@.order[j]]),
            decreases self.order@.len() - k,
        {
            assert(self@.order[k as int] == self.order@[k as int]);
            let id: usize = self.order[k];
            all.push(self.routes[id].to_string());
            k = k + 1;
        }
        all
    }

    /// The place in the order for a new route.
    fn place(&self, route: &RouteSpec) -> (place: usize)
        requires
            self.wf(),
        ensures
            place == place_of(self@.routes, self@.order, route@, 0),
            place <= self@.order.len(),
            forall|k: int|
                0 <= k < place ==> !outranks(route@, #[trigger] self@.routes[self@.order[k]]),
            place < self@.order.len() ==> outranks(route@, self@.routes[self@.order[place as int]]),
    {
        let mut k: usize = 0;
        while k < self.order.len()
            invariant
                self.wf(),
                k <= self.order@.len(),
                place_of(self@.routes, self@.order, route@, 0) == place_of(
                    self@.routes,
                    self@.order,
                    route@,
                    k as int,
                ),
                forall|j: int|
                    0 <= j < k ==> !outranks(route@, #[trigger] self@.routes[self@.order[j]]),
            decreases self.order@.len() - k,
        {
            let id: usize = self.order[k];
            if route.outranks(&self.routes[id]) {
                return k;
            }
            k = k + 1;
        }
        k
    }
}

/// Whether a match is the one a hit of the trie stands for.
pub open spec fn is_match_of<H>(
    found: Match<'_, '_, H>,
    m: RouterModel<H>,
    path: &str,
    hit: Hit,
) -> bool {
    &&& 0 <= hit.route < m.routes.len()
    &&& found.path == path
    &&& found.route@ == m.routes[hit.route]
    &&& found.route.source_text() == m.sources[hit.route]
    &&& *found.handler == m.handlers[hit.route]
    &&& texts_of(found.captures@) == raw_of(hit)
}

/// Whether a match is the one a scan stands for.
pub open spec fn is_scan_match<H>(
    found: Match<'_, '_, H>,
    m: RouterModel<H>,
    path: &str,
    scan: Scan,
) -> bool {
    &&& found.path == path
    &&& found.route@ == m.routes[scan.route]
    &&& found.route.source_text() == m.sources[scan.route]
    &&& *found.handler == m.handlers[scan.route]
    &&& texts_of(found.captures@) == scan.captures
}

} // verus!
