//! The result of matching a path against a route.

use crate::captures::{Capture, Captures, Named, Pair};
use crate::order::specificity_order;
use crate::pattern::tokens_of;
use crate::route_spec::{texts_of, RouteSpec};
use crate::segment::{Segment, Token};
use std::cmp::Ordering;
use vstd::prelude::*;
use vstd::std_specs::cmp::PartialEqSpecImpl;
use vstd::std_specs::cmp::PartialOrdSpecImpl;
use vstd::string::StringSliceAdditionalSpecFns;

verus! {

/// The number of tokens among the first `n` that capture: parameters and
/// wildcards.
pub open spec fn slots(tokens: Seq<Token>, n: int) -> nat
    decreases n,
{
    if n <= 0 || n > tokens.len() {
        0
    } else if tokens[n - 1] is Param || tokens[n - 1] is Wildcard {
        slots(tokens, n - 1) + 1
    } else {
        slots(tokens, n - 1)
    }
}

/// The raw captures `raw`, named after the capturing tokens among the first
/// `n`: the k-th capturing token takes the k-th raw capture, a parameter
/// under its name and a wildcard as the wildcard value. Tokens left over when
/// the raw captures run out take nothing.
pub open spec fn named_upto(tokens: Seq<Token>, raw: Seq<Seq<u8>>, n: int) -> Named
    decreases n,
{
    if n <= 0 || n > tokens.len() {
        Named { params: Seq::empty(), wildcard: None }
    } else {
        let before = named_upto(tokens, raw, n - 1);
        let k = slots(tokens, n - 1) as int;
        if k >= raw.len() {
            before
        } else {
            match tokens[n - 1] {
                Token::Param(name) => Named {
                    params: before.params.push(Pair { name, value: raw[k] }),
                    wildcard: before.wildcard,
                },
                Token::Wildcard => Named { params: before.params, wildcard: Some(raw[k]) },
                _ => before,
            }
        }
    }
}

/// The raw captures of a match, named after the tokens of its route.
pub open spec fn named(tokens: Seq<Token>, raw: Seq<Seq<u8>>) -> Named {
    named_upto(tokens, raw, tokens.len() as int)
}

/// The output of a successful application of a [`RouteSpec`] to a path: the
/// path, the route, the handler registered for the route, and the raw
/// captures in the order of the route's parameters and wildcard.
#[derive(Debug)]
pub struct Match<'router, 'path, Handler> {
    pub path: &'path str,
    pub route: &'router RouteSpec,
    pub captures: Vec<&'path str>,
    pub handler: &'router Handler,
}

impl<'router, 'path, Handler> Match<'router, 'path, Handler> {
    /// The handler associated with the matched route.
    pub fn handler(&self) -> (handler: &'router Handler)
        ensures
            handler == self.handler,
    {
        self.handler
    }

    /// The matched route.
    pub fn route(&self) -> (route: &'router RouteSpec)
        ensures
            route == self.route,
    {
        self.route
    }

    /// Gives up the match for its route.
    pub fn into_route(self) -> (route: &'router RouteSpec)
        ensures
            route == self.route,
    {
        self.route
    }

    /// The exact path that was matched.
    pub fn path(&self) -> (path: &'path str)
        ensures
            path == self.path,
    {
        self.path
    }

    /// The captures of this match, each parameter's under its name.
    pub fn captures(&self) -> (captures: Captures<'router, 'path>)
        ensures
            captures@ == named(self.route@, texts_of(self.captures@)),
    {
        let segments = self.route.segments();
        let ghost tokens = self.route@;
        let ghost raw = texts_of(self.captures@);
        let mut captures = Captures::new();
        let mut k: usize = 0;
        let mut i: usize = 0;
        while i < segments.len()
            invariant
                tokens == tokens_of(segments@),
                raw == texts_of(self.captures@),
                i <= segments@.len(),
                k <= i,
                k == slots(tokens, i as int),
                captures@ == named_upto(tokens, raw, i as int),
            decreases segments@.len() - i,
        {
            match &segments[i] {
                Segment::Param(name) => {
                    if k < self.captures.len() {
                        captures.push(Capture::new(name.as_str(), self.captures[k]));
                    }
                    k = k + 1;
                },
                Segment::Wildcard => {
                    if k < self.captures.len() {
                        captures.set_wildcard(self.captures[k]);
                    }
                    k = k + 1;
                },
                _ => {},
            }
            i = i + 1;
        }
        captures
    }

    /// Orders two matches as their routes are ordered.
    pub fn cmp(&self, other: &Match<'router, 'path, Handler>) -> (o: Ordering)
        ensures
            o == specificity_order(self.route@, other.route@),
    {
        self.route.cmp(other.route)
    }
}

impl<'router, 'path, Handler> PartialEq for Match<'router, 'path, Handler> {
    /// Two matches are equal when their routes are.
    fn eq(&self, other: &Match<'router, 'path, Handler>) -> (same: bool) {
        self.route.same_as(other.route)
    }
}

impl<'router, 'path, Handler> PartialEqSpecImpl for Match<'router, 'path, Handler> {
    open spec fn obeys_eq_spec() -> bool {
        true
    }

    open spec fn eq_spec(&self, other: &Match<'router, 'path, Handler>) -> bool {
        self.route@ == other.route@
    }
}

impl<'router, 'path, Handler> Eq for Match<'router, 'path, Handler> {

}

impl<'router, 'path, Handler> PartialOrd for Match<'router, 'path, Handler> {
    /// Orders two matches as their routes are ordered.
    fn partial_cmp(&self, other: &Match<'router, 'path, Handler>) -> (o: Option<Ordering>) {
        Some(self.route.cmp(other.route))
    }
}

impl<'router, 'path, Handler> PartialOrdSpecImpl for Match<'router, 'path, Handler> {
    open spec fn obeys_partial_cmp_spec() -> bool {
        true
    }

    open spec fn partial_cmp_spec(&self, other: &Match<'router, 'path, Handler>) -> Option<
        Ordering,
    > {
        Some(specificity_order(self.route@, other.route@))
    }
}

impl<'router, 'path, Handler> std::ops::Deref for Match<'router, 'path, Handler> {
    type Target = Handler;

    /// The handler associated with the matched route.
    fn deref(&self) -> (handler: &Handler)
        ensures
            handler == self.handler,
    {
        self.handler
    }
}

} // verus!
