//! A route on its own: a parsed pattern together with a handler.

use crate::captures::Captures;
use crate::matching::well_formed;
use crate::pattern::{parse_tokens, tokens_of, ParseError};
use crate::reverse_match::{agree, ReverseMatch};
use crate::route_match::Match;
use crate::route_spec::{match_route, texts_of, RouteSpec};
use crate::segment::{Segment, Token};
use std::cmp::Ordering;
use vstd::prelude::*;
use vstd::std_specs::cmp::PartialEqSpecImpl;
use vstd::std_specs::cmp::PartialOrdSpecImpl;
use vstd::string::StringSliceAdditionalSpecFns;

verus! {

/// A parsed [`RouteSpec`] and associated handler.
#[derive(Debug)]
pub struct Route<T> {
    definition: RouteSpec,
    handler: T,
}

impl<T> View for Route<T> {
    type V = Seq<Token>;

    closed spec fn view(&self) -> Seq<Token> {
        self.definition@
    }
}

impl<T> Route<T> {
    /// The handler of this route, in contracts.
    pub closed spec fn handler_value(&self) -> T {
        self.handler
    }

    /// A standalone route from a pattern and a handler.
    pub fn new(pattern: &str, handler: T) -> (made: Result<Route<T>, ParseError>)
        ensures
            match parse_tokens(pattern.spec_bytes()) {
                Ok(tokens) => made is Ok && made->Ok_0@ == tokens && made->Ok_0.handler_value()
                    == handler,
                Err(fault) => made is Err && made->Err_0@ == fault,
            },
    {
        match RouteSpec::parse(pattern) {
            Ok(definition) => Ok(Route { definition, handler }),
            Err(e) => Err(e),
        }
    }

    /// The [`RouteSpec`] of this route.
    pub fn definition(&self) -> (definition: &RouteSpec)
        ensures
            definition@ == self@,
    {
        &self.definition
    }

    /// The handler of this route.
    pub fn handler(&self) -> (handler: &T)
        ensures
            *handler == self.handler_value(),
    {
        &self.handler
    }

    /// The segments of this route.
    pub fn segments(&self) -> (segments: &[Segment])
        ensures
            tokens_of(segments@) == self@,
    {
        self.definition.segments()
    }

    /// The match of this route on a path, or `None` when it does not match.
    pub fn matches<'router, 'path>(&'router self, path: &'path str) -> (found: Option<
        Match<'router, 'path, T>,
    >)
        requires
            well_formed(self@),
        ensures
            match match_route(self@, path.spec_bytes()) {
                Some(captures) => {
                    &&& found is Some
                    &&& found->0.path == path
                    &&& found->0.route@ == self@
                    &&& *found->0.handler == self.handler_value()
                    &&& texts_of(found->0.captures@) == captures
                },
                None => found is None,
            },
    {
        match self.definition.matches(path) {
            Some(captures) => Some(
                Match { path, route: &self.definition, captures, handler: &self.handler },
            ),
            None => None,
        }
    }

    /// Populates this route with the params and wildcard of `captures`,
    /// where they agree with it.
    pub fn template<'route, 'keys, 'captures, 'values>(
        &'route self,
        captures: &'captures Captures<'keys, 'values>,
    ) -> (found: Option<ReverseMatch<'keys, 'values, 'captures, 'route>>)
        ensures
            found is Some <==> agree(self@, captures@),
            found is Some ==> found->0.parts() == (self@, captures@),
    {
        ReverseMatch::new(captures, &self.definition)
    }
}

impl<T> PartialEq for Route<T> {
    /// Two routes are equal when their definitions are.
    fn eq(&self, other: &Route<T>) -> (same: bool) {
        self.definition.same_as(&other.definition)
    }
}

impl<T> PartialEqSpecImpl for Route<T> {
    open spec fn obeys_eq_spec() -> bool {
        true
    }

    open spec fn eq_spec(&self, other: &Route<T>) -> bool {
        self@ == other@
    }
}

impl<T> Eq for Route<T> {

}

impl<T> PartialOrd for Route<T> {
    /// Orders two routes as their definitions are ordered.
    fn partial_cmp(&self, other: &Route<T>) -> (o: Option<Ordering>) {
        Some(self.definition.cmp(&other.definition))
    }
}

impl<T> PartialOrdSpecImpl for Route<T> {
    open spec fn obeys_partial_cmp_spec() -> bool {
        true
    }

    open spec fn partial_cmp_spec(&self, other: &Route<T>) -> Option<Ordering> {
        Some(crate::order::specificity_order(self@, other@))
    }
}

} // verus!
