//! What a router holds, in contracts: the routes by number, their order,
//! and the trie; what registering a route does to them, and what a query
//! finds in them.

use crate::captures::Named;
use crate::matching::well_formed;
use crate::order::{lemma_outranks_one_way, outranks};
use crate::pattern::{parse_tokens, ParseFault};
use crate::reach::{keeps_routes, lemma_grow, lemma_reach_kept, reach};
use crate::reverse_match::agree;
use crate::route_spec::match_route;
use crate::segment::Token;
use crate::text::{next_of, slash_run_end, trim, DOT, SLASH};
use crate::trie::{descend, edge_for, empty_node, inserted, lookup, search, trie_ok, Hit, NodeModel};
use vstd::prelude::*;
use vstd::string::StringSliceAdditionalSpecFns;

verus! {

/// What a [`Router`] holds, in contracts.
pub struct RouterModel<H> {
    /// The routes, each under its number: the order of registration.
    pub routes: Seq<Seq<Token>>,
    /// The text each route was parsed from, under the route's number.
    pub sources: Seq<Option<Seq<char>>>,
    /// The handler of each route, under the route's number.
    pub handlers: Seq<H>,
    /// The numbers of the routes, most specific first.
    pub order: Seq<int>,
    /// The trie over the routes.
    pub trie: Seq<NodeModel>,
}

/// The number of the first route from `from` on that has the tokens
/// `tokens`.
pub open spec fn id_of(routes: Seq<Seq<Token>>, tokens: Seq<Token>, from: int) -> Option<int>
    decreases routes.len() - from,
{
    if from < 0 || from >= routes.len() {
        None
    } else if routes[from] == tokens {
        Some(from)
    } else {
        id_of(routes, tokens, from + 1)
    }
}

/// The first position from `from` on in `order` whose route is less specific
/// than `tokens`, or the length of `order`.
pub open spec fn place_of(
    routes: Seq<Seq<Token>>,
    order: Seq<int>,
    tokens: Seq<Token>,
    from: int,
) -> int
    decreases order.len() - from,
{
    if from < 0 || from >= order.len() {
        order.len() as int
    } else if outranks(tokens, routes[order[from]]) {
        from
    } else {
        place_of(routes, order, tokens, from + 1)
    }
}

/// The router after a route is registered with a handler. A route that is
/// registered already keeps its number and its place, and takes the new
/// source text and handler. A new route takes the next number, and its place
/// is before the first route that is less specific. Either way the route is
/// inserted into the trie under its number.
pub open spec fn added<H>(
    m: RouterModel<H>,
    tokens: Seq<Token>,
    source: Option<Seq<char>>,
    handler: H,
) -> RouterModel<H> {
    match id_of(m.routes, tokens, 0) {
        Some(id) => RouterModel {
            routes: m.routes,
            sources: m.sources.update(id, source),
            handlers: m.handlers.update(id, handler),
            order: m.order,
            trie: inserted(m.trie, tokens, id),
        },
        None => {
            let id = m.routes.len() as int;
            RouterModel {
                routes: m.routes.push(tokens),
                sources: m.sources.push(source),
                handlers: m.handlers.push(handler),
                order: m.order.insert(place_of(m.routes, m.order, tokens, 0), id),
                trie: inserted(m.trie, tokens, id),
            }
        },
    }
}

/// Whether the routes at two neighbouring places are in order: the later one
/// is not more specific than the earlier one.
pub open spec fn in_order<H>(m: RouterModel<H>, k: int) -> bool {
    !outranks(m.routes[m.order[k + 1]], m.routes[m.order[k]])
}

/// Whether the route of a node of the trie, if it has one, is a route of the
/// router.
pub open spec fn route_known(trie: Seq<NodeModel>, at: int, count: int) -> bool {
    trie[at].route is Some ==> 0 <= trie[at].route->0 < count
}

/// Whether the route of a node of the trie, if it has one, ends at that node:
/// the tokens of the route lead from the root to the node.
pub open spec fn ends_here<H>(m: RouterModel<H>, at: int) -> bool {
    m.trie[at].route is Some ==> reach(m.trie, 0, m.routes[m.trie[at].route->0], 0) == Some(at)
}

/// The invariant of a router.
///
/// - Each route has a handler and a place in the order, and each place of
///   the order holds another route.
/// - No two routes have the same tokens, and each route is well formed.
/// - Neighbours in the order are in order.
/// - The trie is a trie, and its routes are routes of the router. A node
///   has a route only if that route ends at the node.
pub open spec fn model_ok<H>(m: RouterModel<H>) -> bool {
    &&& m.handlers.len() == m.routes.len()
    &&& m.sources.len() == m.routes.len()
    &&& m.order.len() == m.routes.len()
    &&& forall|k: int| 0 <= k < m.order.len() ==> 0 <= #[trigger] m.order[k] < m.routes.len()
    &&& forall|k: int, l: int|
        0 <= k < l < m.order.len() ==> #[trigger] m.order[k] != #[trigger] m.order[l]
    &&& forall|i: int, j: int|
        0 <= i < j < m.routes.len() ==> #[trigger] m.routes[i] != #[trigger] m.routes[j]
    &&& forall|i: int| 0 <= i < m.routes.len() ==> well_formed(#[trigger] m.routes[i])
    &&& forall|k: int| 0 <= k < m.order.len() - 1 ==> #[trigger] in_order(m, k)
    &&& trie_ok(m.trie)
    &&& forall|at: int|
        0 <= at < m.trie.len() ==> #[trigger] route_known(m.trie, at, m.routes.len() as int)
    &&& forall|at: int| 0 <= at < m.trie.len() ==> #[trigger] ends_here(m, at)
}

/// A router without routes.
pub open spec fn empty_model<H>() -> RouterModel<H> {
    RouterModel {
        routes: Seq::empty(),
        sources: Seq::empty(),
        handlers: Seq::empty(),
        order: Seq::empty(),
        trie: seq![empty_node()],
    }
}

/// The router after the first `n` of the given patterns are registered with
/// their handlers, or why the first pattern that does not parse is refused.
pub open spec fn built<H>(routes: Seq<(&str, H)>, n: int) -> Result<
    RouterModel<H>,
    ParseFault,
>
    decreases n,
{
    if n <= 0 || n > routes.len() {
        Ok(empty_model())
    } else {
        match built(routes, n - 1) {
            Ok(m) => match parse_tokens(routes[n - 1].0.spec_bytes()) {
                Ok(tokens) => Ok(added(m, tokens, Some(routes[n - 1].0@), routes[n - 1].1)),
                Err(fault) => Err(fault),
            },
            Err(fault) => Err(fault),
        }
    }
}

/// The number of the route that a pattern names, if the pattern parses and a
/// route with its tokens is registered.
pub open spec fn known<H>(m: RouterModel<H>, pattern: Seq<u8>) -> Option<int> {
    match parse_tokens(pattern) {
        Ok(tokens) => id_of(m.routes, tokens, 0),
        Err(_) => None,
    }
}

/// The raw captures of a hit of the trie: what the parameters captured, and
/// what the wildcard captured after them.
pub open spec fn raw_of(hit: Hit) -> Seq<Seq<u8>> {
    match hit.wildcard {
        Some(rest) => hit.captures.push(rest),
        None => hit.captures,
    }
}

/// A route that matches a path, and what it captures from it.
pub struct Scan {
    pub route: int,
    pub captures: Seq<Seq<u8>>,
}

/// The routes among the first `n` of the order that match `path`, in order,
/// each with what it captures.
pub open spec fn matching_upto<H>(m: RouterModel<H>, path: Seq<u8>, n: int) -> Seq<Scan>
    decreases n,
{
    if n <= 0 || n > m.order.len() {
        Seq::empty()
    } else {
        let id = m.order[n - 1];
        match match_route(m.routes[id], path) {
            Some(captures) => matching_upto(m, path, n - 1).push(Scan { route: id, captures }),
            None => matching_upto(m, path, n - 1),
        }
    }
}

/// The numbers of the routes among the first `n` of the order that agree
/// with the named values, in order.
pub open spec fn agreeing_upto<H>(m: RouterModel<H>, values: Named, n: int) -> Seq<int>
    decreases n,
{
    if n <= 0 || n > m.order.len() {
        Seq::empty()
    } else if agree(m.routes[m.order[n - 1]], values) {
        agreeing_upto(m, values, n - 1).push(m.order[n - 1])
    } else {
        agreeing_upto(m, values, n - 1)
    }
}

/// The number of the first route from the place `from` on that agrees with
/// the named values.
pub open spec fn first_agreeing<H>(m: RouterModel<H>, values: Named, from: int) -> Option<int>
    decreases m.order.len() - from,
{
    if from < 0 || from >= m.order.len() {
        None
    } else if agree(m.routes[m.order[from]], values) {
        Some(m.order[from])
    } else {
        first_agreeing(m, values, from + 1)
    }
}

/// Where no route has the tokens, each route has other tokens; where one
/// has, it is the route found.
pub proof fn lemma_id_of(routes: Seq<Seq<Token>>, tokens: Seq<Token>, from: int)
    requires
        0 <= from,
    ensures
        match id_of(routes, tokens, from) {
            Some(id) => from <= id < routes.len() && routes[id] == tokens,
            None => forall|i: int| from <= i < routes.len() ==> routes[i] != tokens,
        },
    decreases routes.len() - from,
{
    if from < routes.len() && routes[from] != tokens {
        lemma_id_of(routes, tokens, from + 1);
    }
}

/// The place of a new route lies in the order; no route before it is less
/// specific than the new one, and the route at it is.
pub proof fn lemma_place_of(
    routes: Seq<Seq<Token>>,
    order: Seq<int>,
    tokens: Seq<Token>,
    from: int,
)
    requires
        0 <= from <= order.len(),
    ensures
        from <= place_of(routes, order, tokens, from) <= order.len(),
        forall|k: int|
            from <= k < place_of(routes, order, tokens, from) ==> !outranks(
                tokens,
                routes[#[trigger] order[k]],
            ),
        place_of(routes, order, tokens, from) < order.len() ==> outranks(
            tokens,
            routes[order[place_of(routes, order, tokens, from)]],
        ),
    decreases order.len() - from,
{
    if from < order.len() && !outranks(tokens, routes[order[from]]) {
        lemma_place_of(routes, order, tokens, from + 1);
    }
}

/// Registering a route keeps the invariant of a router.
pub proof fn lemma_added_ok<H>(
    m: RouterModel<H>,
    tokens: Seq<Token>,
    source: Option<Seq<char>>,
    handler: H,
)
    requires
        model_ok(m),
        well_formed(tokens),
    ensures
        model_ok(added(m, tokens, source, handler)),
{
    let after = added(m, tokens, source, handler);
    lemma_id_of(m.routes, tokens, 0);
    {
        lemma_grow(m.trie, 0, tokens, 0, match id_of(m.routes, tokens, 0) {
            Some(id) => id,
            None => m.routes.len() as int,
        });
        let end = reach(after.trie, 0, tokens, 0)->0;
        assert forall|at: int| 0 <= at < after.trie.len() implies #[trigger] ends_here(
            after,
            at,
        ) && route_known(after.trie, at, after.routes.len() as int) by {
            if after.trie[at].route is Some && at != end {
                assert(ends_here(m, at));
                assert(route_known(m.trie, at, m.routes.len() as int));
                let r = m.trie[at].route->0;
                lemma_reach_kept(m.trie, after.trie, 0, m.routes[r], 0);
            }
        }
        assert forall|at: int| 0 <= at < after.trie.len() implies #[trigger] route_known(
            after.trie,
            at,
            after.routes.len() as int,
        ) by {
            assert(ends_here(after, at));
        }
        match id_of(m.routes, tokens, 0) {
            Some(id) => {
                assert forall|k: int| 0 <= k < after.order.len() - 1 implies #[trigger] in_order(
                    after,
                    k,
                ) by {
                    assert(in_order(m, k));
                }
            },
            None => {
                let id = m.routes.len() as int;
                let place = place_of(m.routes, m.order, tokens, 0);
                lemma_place_of(m.routes, m.order, tokens, 0);
                assert forall|k: int| 0 <= k < after.order.len() implies 0
                    <= #[trigger] after.order[k] < after.routes.len() by {}
                assert forall|k: int, l: int| 0 <= k < l < after.order.len() implies
                    #[trigger] after.order[k] != #[trigger] after.order[l] by {}
                assert forall|k: int| 0 <= k < after.order.len() - 1 implies #[trigger] in_order(
                    after,
                    k,
                ) by {
                    // before the new route and after it the neighbours are
                    // as they were; the new route stands after a route that
                    // it does not outrank, and before one that it outranks
                    if k + 1 < place {
                        assert(in_order(m, k));
                    } else if k == place {
                        lemma_outranks_one_way(tokens, m.routes[m.order[k]]);
                    } else if k > place {
                        assert(in_order(m, k - 1));
                    }
                }
            },
        }
    }
}

/// A router stays a router when a handler is changed.
pub proof fn lemma_handler_changed<H>(m: RouterModel<H>, id: int, handler: H)
    requires
        model_ok(m),
        0 <= id < m.handlers.len(),
    ensures
        model_ok(RouterModel { handlers: m.handlers.update(id, handler), ..m }),
{
    let after = RouterModel { handlers: m.handlers.update(id, handler), ..m };
    assert forall|k: int| 0 <= k < after.order.len() - 1 implies #[trigger] in_order(after, k) by {
        assert(in_order(m, k));
    }
    assert forall|at: int| 0 <= at < after.trie.len() implies #[trigger] ends_here(after, at) by {
        assert(ends_here(m, at));
    }
}

/// Once a pattern is refused, the patterns after it change nothing.
pub proof fn lemma_built_fails<H>(routes: Seq<(&str, H)>, n: int, m: int)
    requires
        0 < n <= m <= routes.len(),
        built(routes, n) is Err,
    ensures
        built(routes, m) == built(routes, n),
    decreases m - n,
{
    if n < m {
        lemma_built_fails(routes, n, m - 1);
    }
}

/// What the trie of a router finds is a route of the router.
pub proof fn lemma_lookup_known(trie: Seq<NodeModel>, path: Seq<u8>, count: int)
    requires
        forall|at: int| 0 <= at < trie.len() ==> #[trigger] route_known(trie, at, count),
    ensures
        lookup(trie, path) is Some ==> 0 <= lookup(trie, path)->0.route < count,
{
    lemma_search_known(trie, 0, trim(path), 0, count);
}

/// What a search finds is a route of a node.
pub proof fn lemma_search_known(trie: Seq<NodeModel>, at: int, path: Seq<u8>, pos: int, count: int)
    requires
        forall|i: int| 0 <= i < trie.len() ==> #[trigger] route_known(trie, i, count),
    ensures
        search(trie, at, path, pos) is Some ==> 0 <= search(
            trie,
            at,
            path,
            pos,
        )->0.route < count,
    decreases trie.len() - at, 1int,
{
    if 0 <= at < trie.len() && 0 <= pos <= path.len() {
        let node = trie[at];
        assert(route_known(trie, at, count));
        let end = next_of(path, pos, DOT, SLASH);
        let part = path.subrange(pos, end);
        lemma_descend_known(trie, at, node.slash, path, slash_run_end(path, pos), count);
        lemma_descend_known(trie, at, node.slash, path, pos, count);
        lemma_descend_known(trie, at, node.dot, path, pos + 1, count);
        lemma_descend_known(trie, at, node.params, path, end, count);
        lemma_descend_known(
            trie,
            at,
            edge_for(node.statics, part, 0),
            path,
            end,
            count,
        );
    }
}

/// What a search below a child finds is a route of a node.
pub proof fn lemma_descend_known(
    trie: Seq<NodeModel>,
    at: int,
    child: Option<int>,
    path: Seq<u8>,
    pos: int,
    count: int,
)
    requires
        forall|i: int| 0 <= i < trie.len() ==> #[trigger] route_known(trie, i, count),
        0 <= at < trie.len(),
    ensures
        descend(trie, at, child, path, pos) is Some ==> 0 <= descend(
            trie,
            at,
            child,
            path,
            pos,
        )->0.route < count,
    decreases trie.len() - at, 0int,
{
    if child is Some && at < child->0 < trie.len() {
        lemma_search_known(trie, child->0, path, pos, count);
    }
}

} // verus!
