//! Where a route ends in a trie: the node that its tokens lead to from the
//! root, and what inserting a route does to the nodes that other routes end
//! at.

use crate::segment::Token;
use crate::trie::{
    child_for, edge_for, empty_node, grow, lemma_child_in_range, lemma_link_ok, node_ok, trie_ok,
    with_child, Edge, NodeModel,
};
use vstd::prelude::*;

verus! {

/// The node that the tokens from `depth` on lead to from the node `at`, where
/// there is a child for each of them. A wildcard, like the end of the
/// tokens, ends the way at the node reached.
pub open spec fn reach(nodes: Seq<NodeModel>, at: int, tokens: Seq<Token>, depth: int) -> Option<
    int,
>
    decreases tokens.len() - depth,
{
    if depth < 0 || depth >= tokens.len() || tokens[depth] is Wildcard {
        Some(at)
    } else {
        match child_for(nodes[at], tokens[depth]) {
            Some(child) => reach(nodes, child, tokens, depth + 1),
            None => None,
        }
    }
}

/// Whether the way of the tokens from `depth` on stops at a wildcard.
pub open spec fn stops_at_wildcard(tokens: Seq<Token>, depth: int) -> bool
    decreases tokens.len() - depth,
{
    if depth < 0 || depth >= tokens.len() {
        false
    } else if tokens[depth] is Wildcard {
        true
    } else {
        stops_at_wildcard(tokens, depth + 1)
    }
}

/// Whether `after` has every node of `before`, each with the children that
/// it had.
pub open spec fn keeps_links(before: Seq<NodeModel>, after: Seq<NodeModel>) -> bool {
    &&& before.len() <= after.len()
    &&& forall|at: int, token: Token|
        0 <= at < before.len() && child_for(before[at], token) is Some ==> #[trigger] child_for(
            after[at],
            token,
        ) == child_for(before[at], token)
}

/// Whether every node of `after` but the node `but` has the route and the
/// mark that it had in `before`, or none if it is new.
pub open spec fn keeps_routes(before: Seq<NodeModel>, after: Seq<NodeModel>, but: int) -> bool {
    forall|at: int|
        0 <= at < after.len() && at != but ==> if at < before.len() {
            (#[trigger] after[at]).route == before[at].route && after[at].wildcard
                == before[at].wildcard
        } else {
            after[at].route is None && !after[at].wildcard
        }
}

/// An edge that is found is still found after another edge is added.
pub proof fn lemma_edge_for_push(statics: Seq<Edge>, added: Edge, text: Seq<u8>, from: int)
    requires
        0 <= from <= statics.len(),
    ensures
        edge_for(statics.push(added), text, from) == (if edge_for(statics, text, from) is Some {
            edge_for(statics, text, from)
        } else if added.text == text {
            Some(added.child)
        } else {
            None
        }),
    decreases statics.len() - from,
{
    let longer = statics.push(added);
    if from < statics.len() {
        lemma_edge_for_push(statics, added, text, from + 1);
    } else {
        assert(edge_for(longer, text, from + 1) is None);
    }
}

/// A node with one more child has the children that it had, and the new
/// child for the token that it was made for.
pub proof fn lemma_with_child(node: NodeModel, token: Token, child: int)
    requires
        !(token is Wildcard),
        child_for(node, token) is None,
    ensures
        child_for(with_child(node, token, child), token) == Some(child),
        forall|other: Token|
            child_for(node, other) is Some ==> #[trigger] child_for(
                with_child(node, token, child),
                other,
            ) == child_for(node, other),
        with_child(node, token, child).route == node.route,
        with_child(node, token, child).wildcard == node.wildcard,
{
    let linked = with_child(node, token, child);
    match token {
        Token::Exact(text) => {
            let added = Edge { text, child };
            lemma_edge_for_push(node.statics, added, text, 0);
            assert forall|other: Token| child_for(node, other) is Some implies #[trigger] child_for(
                linked,
                other,
            ) == child_for(node, other) by {
                match other {
                    Token::Exact(wanted) => {
                        lemma_edge_for_push(node.statics, added, wanted, 0);
                    },
                    _ => {},
                }
            }
        },
        _ => {},
    }
}

/// Keeping links goes on from one trie to the next.
pub proof fn lemma_keeps_links_on(a: Seq<NodeModel>, b: Seq<NodeModel>, c: Seq<NodeModel>)
    requires
        keeps_links(a, b),
        keeps_links(b, c),
    ensures
        keeps_links(a, c),
{
    assert forall|at: int, token: Token|
        0 <= at < a.len() && child_for(a[at], token) is Some implies #[trigger] child_for(
        c[at],
        token,
    ) == child_for(a[at], token) by {}
}

/// What inserting a route does, seen from the node `at`:
///
/// - the trie stays a trie, and every node keeps the children that it had;
/// - the tokens now lead to a node, which has the route under its number,
///   and the mark if the tokens stop at a wildcard;
/// - every other node keeps its route and its mark.
pub proof fn lemma_grow(nodes: Seq<NodeModel>, at: int, tokens: Seq<Token>, depth: int, id: int)
    requires
        trie_ok(nodes),
        0 <= at < nodes.len(),
        0 <= depth,
    ensures
        trie_ok(grow(nodes, at, tokens, depth, id)),
        keeps_links(nodes, grow(nodes, at, tokens, depth, id)),
        reach(grow(nodes, at, tokens, depth, id), at, tokens, depth) is Some,
        ({
            let after = grow(nodes, at, tokens, depth, id);
            let end = reach(after, at, tokens, depth)->0;
            &&& at <= end < after.len()
            &&& after[end].route == Some(id)
            &&& stops_at_wildcard(tokens, depth) ==> after[end].wildcard
            &&& keeps_routes(nodes, after, end)
        }),
    decreases tokens.len() - depth,
{
    let after = grow(nodes, at, tokens, depth, id);
    if depth >= tokens.len() || tokens[depth] is Wildcard {
        crate::trie::lemma_update_ok(nodes, at, after[at]);
        assert forall|i: int, token: Token|
            0 <= i < nodes.len() && child_for(nodes[i], token) is Some implies #[trigger] child_for(
            after[i],
            token,
        ) == child_for(nodes[i], token) by {}
    } else {
        let token = tokens[depth];
        match child_for(nodes[at], token) {
            Some(child) => {
                lemma_child_in_range(nodes, at, token);
                lemma_grow(nodes, child, tokens, depth + 1, id);
            },
            None => {
                let fresh = nodes.len() as int;
                let linked = nodes.update(at, with_child(nodes[at], token, fresh)).push(
                    empty_node(),
                );
                lemma_link_ok(nodes, at, token);
                lemma_with_child(nodes[at], token, fresh);
                assert(keeps_links(nodes, linked)) by {
                    assert forall|i: int, other: Token|
                        0 <= i < nodes.len() && child_for(nodes[i], other) is Some implies
                        #[trigger] child_for(linked[i], other) == child_for(nodes[i], other) by {}
                }
                lemma_grow(linked, fresh, tokens, depth + 1, id);
                lemma_keeps_links_on(nodes, linked, after);
                let end = reach(after, fresh, tokens, depth + 1)->0;
                assert(keeps_routes(nodes, after, end)) by {
                    assert forall|i: int| 0 <= i < after.len() && i != end implies if i
                        < nodes.len() {
                        (#[trigger] after[i]).route == nodes[i].route && after[i].wildcard
                            == nodes[i].wildcard
                    } else {
                        after[i].route is None && !after[i].wildcard
                    } by {}
                }
            },
        }
    }
}

/// A way that leads to a node still leads to it when every node keeps its
/// children.
pub proof fn lemma_reach_kept(
    before: Seq<NodeModel>,
    after: Seq<NodeModel>,
    at: int,
    tokens: Seq<Token>,
    depth: int,
)
    requires
        trie_ok(before),
        keeps_links(before, after),
        0 <= at < before.len(),
        0 <= depth,
        reach(before, at, tokens, depth) is Some,
    ensures
        reach(after, at, tokens, depth) == reach(before, at, tokens, depth),
        0 <= reach(before, at, tokens, depth)->0 < before.len(),
    decreases tokens.len() - depth,
{
    if depth < tokens.len() && !(tokens[depth] is Wildcard) {
        let child = child_for(before[at], tokens[depth])->0;
        lemma_child_in_range(before, at, tokens[depth]);
        lemma_reach_kept(before, after, child, tokens, depth + 1);
    }
}

} // verus!
