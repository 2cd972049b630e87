//! A compiled index over routes: a prefix tree keyed by the kinds of their
//! segments, which finds the best route for a path without trying each route
//! in turn.
//!
//! The nodes live in one vector and name their children by index; a child
//! always has a larger index than its parent. Routes are named by the numbers
//! under which they were inserted.

use crate::pattern::tokens_of;
use crate::route_spec::{texts_of, RouteSpec};
use crate::segment::{Segment, Token};
use crate::strings::{
    bytes_of, lemma_boundary_after_ascii, lemma_boundary_at_ascii, lemma_boundary_at_ends,
    lemma_bytes_of_valid, substr, trim_str,
};
use crate::text::{
    find_either, lemma_next_of, lemma_slash_run_end, next_of, same_bytes, skip_slashes,
    slash_run_end, trim, DOT, SLASH,
};
use vstd::prelude::*;
use vstd::string::StringSliceAdditionalSpecFns;
use vstd::utf8::is_char_boundary;

verus! {

/// A literal-text edge of a node, in contracts: the text and the child.
pub struct Edge {
    pub text: Seq<u8>,
    pub child: int,
}

/// A node of the trie, in contracts.
pub struct NodeModel {
    /// The child after a `/`.
    pub slash: Option<int>,
    /// The child after a `.`.
    pub dot: Option<int>,
    /// The children after literal text.
    pub statics: Seq<Edge>,
    /// The child after a parameter; all parameters share it.
    pub params: Option<int>,
    /// Whether the route of this node takes the rest of the path.
    pub wildcard: bool,
    /// The route that ends at this node.
    pub route: Option<int>,
}

/// A route found by the trie: its number, what its parameters captured from
/// left to right, and what its wildcard captured.
pub struct Hit {
    pub route: int,
    pub captures: Seq<Seq<u8>>,
    pub wildcard: Option<Seq<u8>>,
}

/// A node without children or route.
pub open spec fn empty_node() -> NodeModel {
    NodeModel {
        slash: None,
        dot: None,
        statics: Seq::empty(),
        params: None,
        wildcard: false,
        route: None,
    }
}

/// The child of the first edge from `from` on whose text is `text`.
pub open spec fn edge_for(statics: Seq<Edge>, text: Seq<u8>, from: int) -> Option<int>
    decreases statics.len() - from,
{
    if from < 0 || from >= statics.len() {
        None
    } else if statics[from].text == text {
        Some(statics[from].child)
    } else {
        edge_for(statics, text, from + 1)
    }
}

/// The child that a token leads to from a node. A wildcard leads nowhere.
pub open spec fn child_for(node: NodeModel, token: Token) -> Option<int> {
    match token {
        Token::Slash => node.slash,
        Token::Dot => node.dot,
        Token::Exact(text) => edge_for(node.statics, text, 0),
        Token::Param(_) => node.params,
        Token::Wildcard => None,
    }
}

/// The node with one more child, for a token that leads nowhere yet.
pub open spec fn with_child(node: NodeModel, token: Token, child: int) -> NodeModel {
    match token {
        Token::Slash => NodeModel { slash: Some(child), ..node },
        Token::Dot => NodeModel { dot: Some(child), ..node },
        Token::Exact(text) => NodeModel {
            statics: node.statics.push(Edge { text, child }),
            ..node
        },
        Token::Param(_) => NodeModel { params: Some(child), ..node },
        Token::Wildcard => node,
    }
}

/// Whether every child of the node at `at` has a larger index that is in
/// range, and no literal text has two children.
pub open spec fn node_ok(nodes: Seq<NodeModel>, at: int) -> bool {
    let node = nodes[at];
    &&& node.slash is Some ==> at < node.slash->0 < nodes.len()
    &&& node.dot is Some ==> at < node.dot->0 < nodes.len()
    &&& node.params is Some ==> at < node.params->0 < nodes.len()
    &&& forall|j: int|
        0 <= j < node.statics.len() ==> at < (#[trigger] node.statics[j]).child < nodes.len()
    &&& forall|j: int, k: int|
        0 <= j < k < node.statics.len() ==> (#[trigger] node.statics[j]).text != (
        #[trigger] node.statics[k]).text
}

/// Whether the nodes form a trie: there is a root, children come after
/// their parents, and the literal-text children of a node have different
/// texts.
pub open spec fn trie_ok(nodes: Seq<NodeModel>) -> bool {
    &&& nodes.len() > 0
    &&& forall|at: int| 0 <= at < nodes.len() ==> #[trigger] node_ok(nodes, at)
}

/// The trie after a route is inserted below the node `at`, for the tokens
/// from `depth` on. Each token leads to a child, which is made where it is
/// missing; at a wildcard, or when the tokens run out, the node takes the
/// route in place of the one it had. A wildcard also marks the node, and what
/// follows it is ignored.
pub open spec fn grow(
    nodes: Seq<NodeModel>,
    at: int,
    tokens: Seq<Token>,
    depth: int,
    id: int,
) -> Seq<NodeModel>
    decreases tokens.len() - depth,
{
    if depth < 0 || depth >= tokens.len() {
        nodes.update(at, NodeModel { route: Some(id), ..nodes[at] })
    } else if tokens[depth] is Wildcard {
        nodes.update(at, NodeModel { wildcard: true, route: Some(id), ..nodes[at] })
    } else {
        match child_for(nodes[at], tokens[depth]) {
            Some(child) => grow(nodes, child, tokens, depth + 1, id),
            None => {
                let fresh = nodes.len() as int;
                let linked = nodes.update(at, with_child(nodes[at], tokens[depth], fresh)).push(
                    empty_node(),
                );
                grow(linked, fresh, tokens, depth + 1, id)
            },
        }
    }
}

/// The search below a child, if there is that child.
pub open spec fn descend(
    nodes: Seq<NodeModel>,
    at: int,
    child: Option<int>,
    path: Seq<u8>,
    pos: int,
) -> Option<Hit>
    decreases nodes.len() - at, 0int,
{
    match child {
        Some(c) => if at < c < nodes.len() {
            search(nodes, c, path, pos)
        } else {
            None
        },
        None => None,
    }
}

/// The best route for `path` from `pos` on, below the node `at`.
///
/// 1. A node whose route is no wildcard route takes an empty rest.
/// 2. A rest that starts with `/` goes to the slash child, past the whole run
///    of `/`.
/// 3. A rest that starts with `.` goes to the dot child, past the `.`.
/// 4. Any other rest is split at its next `.` or `/`. The part before goes
///    first to the child for that literal text; if that finds nothing and the
///    part is not empty, to the parameter child, which captures the part.
/// 5. If that finds nothing either, a node with a wildcard route takes the
///    whole rest as the wildcard's capture.
/// 6. If not, an empty rest goes to the slash child.
pub open spec fn search(nodes: Seq<NodeModel>, at: int, path: Seq<u8>, pos: int) -> Option<Hit>
    decreases nodes.len() - at, 1int,
{
    if at < 0 || at >= nodes.len() || pos < 0 || pos > path.len() {
        None
    } else {
        let node = nodes[at];
        if node.route is Some && !node.wildcard && pos == path.len() {
            Some(Hit { route: node.route->0, captures: Seq::empty(), wildcard: None })
        } else if pos < path.len() && path[pos] == SLASH {
            descend(nodes, at, node.slash, path, slash_run_end(path, pos))
        } else if pos < path.len() && path[pos] == DOT {
            descend(nodes, at, node.dot, path, pos + 1)
        } else {
            let end = next_of(path, pos, DOT, SLASH);
            let part = path.subrange(pos, end);
            let by_text = descend(nodes, at, edge_for(node.statics, part, 0), path, end);
            let by_param = if part.len() > 0 {
                descend(nodes, at, node.params, path, end)
            } else {
                None
            };
            if by_text is Some {
                by_text
            } else if by_param is Some {
                Some(
                    Hit {
                        route: by_param->0.route,
                        captures: seq![part] + by_param->0.captures,
                        wildcard: by_param->0.wildcard,
                    },
                )
            } else if node.route is Some && node.wildcard {
                Some(
                    Hit {
                        route: node.route->0,
                        captures: Seq::empty(),
                        wildcard: Some(path.subrange(pos, path.len() as int)),
                    },
                )
            } else if pos == path.len() {
                descend(nodes, at, node.slash, path, pos)
            } else {
                None
            }
        }
    }
}

/// The best route for `path`: the search from the root, on the path without
/// its leading and trailing `/`.
pub open spec fn lookup(nodes: Seq<NodeModel>, path: Seq<u8>) -> Option<Hit> {
    search(nodes, 0, trim(path), 0)
}

/// The trie after a route is inserted: see [`grow`].
pub open spec fn inserted(nodes: Seq<NodeModel>, tokens: Seq<Token>, id: int) -> Seq<NodeModel> {
    grow(nodes, 0, tokens, 0, id)
}

/// One node of the trie.
struct TrieNode {
    slash: Option<usize>,
    dot: Option<usize>,
    statics: Vec<(String, usize)>,
    params: Option<usize>,
    wildcard: bool,
    route: Option<usize>,
}

/// An index, or none, as a mathematical integer.
pub open spec fn as_index(at: Option<usize>) -> Option<int> {
    match at {
        Some(i) => Some(i as int),
        None => None,
    }
}

/// The edges that a vector of literal-text children stands for.
pub open spec fn edges_of(statics: Seq<(String, usize)>) -> Seq<Edge> {
    Seq::new(
        statics.len(),
        |j: int| Edge { text: bytes_of(statics[j].0@), child: statics[j].1 as int },
    )
}

impl View for TrieNode {
    type V = NodeModel;

    closed spec fn view(&self) -> NodeModel {
        NodeModel {
            slash: as_index(self.slash),
            dot: as_index(self.dot),
            statics: edges_of(self.statics@),
            params: as_index(self.params),
            wildcard: self.wildcard,
            route: as_index(self.route),
        }
    }
}

impl TrieNode {
    /// A node without children or route.
    fn new() -> (node: TrieNode)
        ensures
            node@ == empty_node(),
    {
        let node = TrieNode {
            slash: None,
            dot: None,
            statics: Vec::new(),
            params: None,
            wildcard: false,
            route: None,
        };
        assert(edges_of(node.statics@) =~= Seq::empty());
        node
    }

    /// The child for the literal text `text`.
    fn edge(&self, text: &[u8]) -> (child: Option<usize>)
        ensures
            as_index(child) == edge_for(self@.statics, text@, 0),
    {
        let mut j: usize = 0;
        while j < self.statics.len()
            invariant
                j <= self.statics@.len(),
                edge_for(self@.statics, text@, 0) == edge_for(self@.statics, text@, j as int),
            decreases self.statics@.len() - j,
        {
            if same_bytes(self.statics[j].0.as_str().as_bytes(), text) {
                return Some(self.statics[j].1);
            }
            j = j + 1;
        }
        None
    }

    /// The child that a segment leads to.
    fn child(&self, segment: &Segment) -> (child: Option<usize>)
        ensures
            as_index(child) == child_for(self@, segment@),
    {
        match segment {
            Segment::Slash => self.slash,
            Segment::Dot => self.dot,
            Segment::Exact(text) => self.edge(text.as_str().as_bytes()),
            Segment::Param(_) => self.params,
            Segment::Wildcard => None,
        }
    }

    /// Makes `child` the child that a segment leads to.
    fn link(&mut self, segment: &Segment, child: usize)
        requires
            !(segment@ is Wildcard),
        ensures
            final(self)@ == with_child(old(self)@, segment@, child as int),
    {
        match segment {
            Segment::Slash => {
                self.slash = Some(child);
            },
            Segment::Dot => {
                self.dot = Some(child);
            },
            Segment::Exact(text) => {
                let ghost before = self.statics@;
                self.statics.push((text.clone(), child));
                assert(edges_of(self.statics@) =~= edges_of(before).push(
                    Edge { text: bytes_of(text@), child: child as int },
                ));
            },
            Segment::Param(_) => {
                self.params = Some(child);
            },
            Segment::Wildcard => {},
        }
    }
}

/// The nodes that a vector of nodes stands for.
spec fn models_of(nodes: Seq<TrieNode>) -> Seq<NodeModel> {
    Seq::new(nodes.len(), |i: int| nodes[i]@)
}

/// What a trie found for a path: the number of the route, what its
/// parameters captured from left to right, and what its wildcard captured.
#[derive(Debug)]
pub struct TrieMatch<'a> {
    pub route: usize,
    pub captures: Vec<&'a str>,
    pub wildcard: Option<&'a str>,
}

impl<'a> TrieMatch<'a> {
    /// Whether this is the hit `hit`.
    pub open spec fn is_hit(&self, hit: Hit) -> bool {
        &&& self.route == hit.route
        &&& texts_of(self.captures@) == hit.captures
        &&& match hit.wildcard {
            Some(rest) => self.wildcard is Some && self.wildcard->0.spec_bytes() == rest,
            None => self.wildcard is None,
        }
    }

    /// Whether this is the hit `hit`, with the captures from right to left.
    pub open spec fn is_hit_reversed(&self, hit: Hit) -> bool {
        &&& self.route == hit.route
        &&& texts_of(self.captures@) == hit.captures.reverse()
        &&& match hit.wildcard {
            Some(rest) => self.wildcard is Some && self.wildcard->0.spec_bytes() == rest,
            None => self.wildcard is None,
        }
    }
}

/// The same strings in the opposite order.
fn reversed<'a>(strs: Vec<&'a str>) -> (turned: Vec<&'a str>)
    ensures
        turned@ == strs@.reverse(),
{
    let ghost before = strs@;
    let mut left = strs;
    let mut turned: Vec<&'a str> = Vec::new();
    while left.len() > 0
        invariant
            left@.len() + turned@.len() == before.len(),
            forall|j: int| 0 <= j < left@.len() ==> left@[j] == before[j],
            forall|j: int| 0 <= j < turned@.len() ==> turned@[j] == before[before.len() - 1 - j],
        decreases left@.len(),
    {
        match left.pop() {
            Some(s) => {
                turned.push(s);
            },
            None => {},
        }
    }
    turned
}

/// A prefix tree over routes.
pub struct Trie {
    nodes: Vec<TrieNode>,
}

impl View for Trie {
    type V = Seq<NodeModel>;

    closed spec fn view(&self) -> Seq<NodeModel> {
        models_of(self.nodes@)
    }
}

impl Trie {
    /// The invariant of a trie: see [`trie_ok`].
    pub open spec fn wf(&self) -> bool {
        trie_ok(self@)
    }

    /// A trie with a root and no route.
    pub fn new() -> (trie: Trie)
        ensures
            trie.wf(),
            trie@ == seq![empty_node()],
    {
        let mut nodes: Vec<TrieNode> = Vec::new();
        nodes.push(TrieNode::new());
        let trie = Trie { nodes };
        assert(node_ok(trie@, 0)) by {}
        trie
    }

    /// Inserts a route under the number `id`.
    pub fn insert(&mut self, route: &RouteSpec, id: usize)
        requires
            old(self).wf(),
        ensures
            final(self).wf(),
            final(self)@ == inserted(old(self)@, route@, id as int),
    {
        let segments = route.segments();
        let ghost tokens = route@;
        let ghost goal = inserted(self@, tokens, id as int);
        let mut at: usize = 0;
        let mut depth: usize = 0;
        while depth < segments.len()
            invariant
                tokens == tokens_of(segments@),
                tokens == route@,
                goal == inserted(old(self)@, route@, id as int),
                trie_ok(self@),
                at < self@.len(),
                depth <= segments@.len(),
                grow(self@, at as int, tokens, depth as int, id as int) == goal,
            decreases segments@.len() - depth,
        {
            let ghost before = self@;
            match &segments[depth] {
                Segment::Wildcard => {
                    self.nodes[at].wildcard = true;
                    self.nodes[at].route = Some(id);
                    proof {
                        let after = before.update(
                            at as int,
                            NodeModel {
                                wildcard: true,
                                route: Some(id as int),
                                ..before[at as int]
                            },
                        );
                        assert(self@ =~= after);
                        lemma_update_ok(before, at as int, after[at as int]);
                    }
                    return ;
                },
                segment => {
                    match self.nodes[at].child(segment) {
                        Some(child) => {
                            proof {
                                lemma_child_in_range(before, at as int, tokens[depth as int]);
                            }
                            at = child;
                        },
                        None => {
                            let fresh: usize = self.nodes.len();
                            self.nodes.push(TrieNode::new());
                            self.nodes[at].link(segment, fresh);
                            proof {
                                let linked = before.update(
                                    at as int,
                                    with_child(
                                        before[at as int],
                                        tokens[depth as int],
                                        fresh as int,
                                    ),
                                ).push(empty_node());
                                assert(self@ =~= linked);
                                lemma_link_ok(before, at as int, tokens[depth as int]);
                            }
                            at = fresh;
                        },
                    }
                },
            }
            depth = depth + 1;
        }
        let ghost before = self@;
        self.nodes[at].route = Some(id);
        proof {
            let after = before.update(
                at as int,
                NodeModel { route: Some(id as int), ..before[at as int] },
            );
            assert(self@ =~= after);
            lemma_update_ok(before, at as int, after[at as int]);
        }
    }

    /// The best route for `path`, if the trie holds one that matches it.
    pub fn matches<'a>(&self, path: &'a str) -> (found: Option<TrieMatch<'a>>)
        requires
            self.wf(),
        ensures
            match lookup(self@, path.spec_bytes()) {
                Some(hit) => found is Some && found->0.is_hit(hit),
                None => found is None,
            },
    {
        let trimmed = trim_str(path);
        proof {
            lemma_bytes_of_valid(trimmed@);
            lemma_boundary_at_ends(trimmed.spec_bytes());
        }
        match self.search_from(0, trimmed, 0) {
            Some(found) => {
                let TrieMatch { route, captures, wildcard } = found;
                let ghost turned = texts_of(captures@);
                let captures = reversed(captures);
                assert(texts_of(captures@) =~= turned.reverse());
                let ghost hit = lookup(self@, path.spec_bytes())->0;
                assert(hit.captures.reverse().reverse() =~= hit.captures);
                Some(TrieMatch { route, captures, wildcard })
            },
            None => None,
        }
    }

    /// The search below a child, if there is one.
    fn descend_from<'a>(
        &self,
        at: usize,
        child: Option<usize>,
        trimmed: &'a str,
        pos: usize,
    ) -> (found: Option<TrieMatch<'a>>)
        requires
            self.wf(),
            at < self@.len(),
            child is Some ==> at < child->0 < self@.len(),
            pos <= trimmed.spec_bytes().len(),
            is_char_boundary(trimmed.spec_bytes(), pos as int),
        ensures
            match descend(self@, at as int, as_index(child), trimmed.spec_bytes(), pos as int) {
                Some(hit) => found is Some && found->0.is_hit_reversed(hit),
                None => found is None,
            },
        decreases self@.len() - at, 0int,
    {
        match child {
            Some(c) => self.search_from(c, trimmed, pos),
            None => None,
        }
    }

    /// The search below the node `at`, on `trimmed` from `pos` on.
    fn search_from<'a>(&self, at: usize, trimmed: &'a str, pos: usize) -> (found: Option<
        TrieMatch<'a>,
    >)
        requires
            self.wf(),
            at < self@.len(),
            pos <= trimmed.spec_bytes().len(),
            is_char_boundary(trimmed.spec_bytes(), pos as int),
        ensures
            match search(self@, at as int, trimmed.spec_bytes(), pos as int) {
                Some(hit) => found is Some && found->0.is_hit_reversed(hit),
                None => found is None,
            },
        decreases self@.len() - at, 1int,
    {
        let bytes = trimmed.as_bytes();
        let node = &self.nodes[at];
        proof {
            assert(node_ok(self@, at as int));
            lemma_bytes_of_valid(trimmed@);
            lemma_boundary_at_ends(bytes@);
            lemma_next_of(bytes@, pos as int, DOT, SLASH);
            lemma_slash_run_end(bytes@, pos as int);
        }
        let at_end: bool = pos == bytes.len();
        match node.route {
            Some(route) => {
                if !node.wildcard && at_end {
                    let found = TrieMatch { route, captures: Vec::new(), wildcard: None };
                    assert(texts_of(found.captures@) =~= Seq::<Seq<u8>>::empty().reverse());
                    return Some(found);
                }
            },
            None => {},
        }
        if !at_end && bytes[pos] == SLASH {
            let end = skip_slashes(bytes, pos);
            proof {
                lemma_boundary_at_ascii(bytes@, pos as int);
                lemma_boundary_after_ascii(bytes@, pos as int, end as int);
            }
            return self.descend_from(at, node.slash, trimmed, end);
        }
        if !at_end && bytes[pos] == DOT {
            proof {
                lemma_boundary_at_ascii(bytes@, pos as int);
            }
            return self.descend_from(at, node.dot, trimmed, pos + 1);
        }
        let end = find_either(bytes, pos, DOT, SLASH);
        proof {
            if end < bytes@.len() {
                lemma_boundary_at_ascii(bytes@, end as int);
            }
        }
        let part = substr(trimmed, pos, end);
        let by_text = node.edge(part.as_bytes());
        proof {
            lemma_edge_in_range(self@, at as int, part.spec_bytes(), 0);
        }
        match self.descend_from(at, by_text, trimmed, end) {
            Some(found) => {
                return Some(found);
            },
            None => {},
        }
        if end > pos {
            match self.descend_from(at, node.params, trimmed, end) {
                Some(found) => {
                    let TrieMatch { route, captures, wildcard } = found;
                    let mut captures = captures;
                    let ghost inner = captures@;
                    captures.push(part);
                    proof {
                        crate::route_spec::lemma_texts_of_push(inner, part);
                        let hit = descend(
                            self@,
                            at as int,
                            as_index(node.params),
                            bytes@,
                            end as int,
                        )->0;
                        assert((seq![part.spec_bytes()] + hit.captures).reverse()
                            =~= hit.captures.reverse().push(part.spec_bytes()));
                    }
                    return Some(TrieMatch { route, captures, wildcard });
                },
                None => {},
            }
        }
        match node.route {
            Some(route) => {
                if node.wildcard {
                    let rest = substr(trimmed, pos, bytes.len());
                    let found = TrieMatch { route, captures: Vec::new(), wildcard: Some(rest) };
                    assert(texts_of(found.captures@) =~= Seq::<Seq<u8>>::empty().reverse());
                    return Some(found);
                }
            },
            None => {},
        }
        if at_end {
            return self.descend_from(at, node.slash, trimmed, pos);
        }
        None
    }
}

/// A node that is replaced by one with the same children leaves a trie a
/// trie.
pub proof fn lemma_update_ok(nodes: Seq<NodeModel>, at: int, node: NodeModel)
    requires
        trie_ok(nodes),
        0 <= at < nodes.len(),
        node.slash == nodes[at].slash,
        node.dot == nodes[at].dot,
        node.params == nodes[at].params,
        node.statics == nodes[at].statics,
    ensures
        trie_ok(nodes.update(at, node)),
{
    let after = nodes.update(at, node);
    assert forall|i: int| 0 <= i < after.len() implies #[trigger] node_ok(after, i) by {
        assert(node_ok(nodes, i));
    }
}

/// A fresh node linked below a node leaves a trie a trie.
pub proof fn lemma_link_ok(nodes: Seq<NodeModel>, at: int, token: Token)
    requires
        trie_ok(nodes),
        0 <= at < nodes.len(),
        !(token is Wildcard),
        child_for(nodes[at], token) is None,
    ensures
        trie_ok(
            nodes.update(at, with_child(nodes[at], token, nodes.len() as int)).push(empty_node()),
        ),
{
    let fresh = nodes.len() as int;
    let after = nodes.update(at, with_child(nodes[at], token, fresh)).push(empty_node());
    assert forall|i: int| 0 <= i < after.len() implies #[trigger] node_ok(after, i) by {
        if i < nodes.len() {
            assert(node_ok(nodes, i));
            if i == at {
                let node = after[i];
                let old = nodes[at].statics;
                assert forall|j: int| 0 <= j < node.statics.len() implies i < (
                #[trigger] node.statics[j]).child < after.len() by {}
                assert forall|j: int, k: int| 0 <= j < k < node.statics.len() implies (
                #[trigger] node.statics[j]).text != (#[trigger] node.statics[k]).text by {
                    // the new edge is the last, and no edge had its text
                    if k >= old.len() {
                        lemma_edge_missing(old, token->Exact_0, 0);
                    }
                }
            }
        }
    }
}

/// Where no edge has a text, each edge has another text.
pub proof fn lemma_edge_missing(statics: Seq<Edge>, text: Seq<u8>, from: int)
    requires
        0 <= from,
        edge_for(statics, text, from) is None,
    ensures
        forall|j: int| from <= j < statics.len() ==> (#[trigger] statics[j]).text != text,
    decreases statics.len() - from,
{
    if from < statics.len() {
        lemma_edge_missing(statics, text, from + 1);
    }
}

/// In a trie, the child for a literal text lies after its parent.
pub proof fn lemma_edge_in_range(nodes: Seq<NodeModel>, at: int, text: Seq<u8>, from: int)
    requires
        0 <= at < nodes.len(),
        node_ok(nodes, at),
        0 <= from,
    ensures
        edge_for(nodes[at].statics, text, from) is Some ==> at < edge_for(
            nodes[at].statics,
            text,
            from,
        )->0 < nodes.len(),
    decreases nodes[at].statics.len() - from,
{
    let statics = nodes[at].statics;
    if from < statics.len() {
        if statics[from].text != text {
            lemma_edge_in_range(nodes, at, text, from + 1);
        }
    }
}

/// In a trie, the child that a token leads to lies after its parent.
pub proof fn lemma_child_in_range(nodes: Seq<NodeModel>, at: int, token: Token)
    requires
        0 <= at < nodes.len(),
        node_ok(nodes, at),
    ensures
        child_for(nodes[at], token) is Some ==> at < child_for(nodes[at], token)->0 < nodes.len(),
{
    match token {
        Token::Exact(text) => {
            lemma_edge_in_range(nodes, at, text, 0);
        },
        _ => {},
    }
}

/// A trie finds for a path with a `/` put after it, or before it, exactly
/// what it finds for the path itself.
pub proof fn lemma_lookup_ignores_outer_slash(nodes: Seq<NodeModel>, path: Seq<u8>)
    ensures
        lookup(nodes, path.push(SLASH)) == lookup(nodes, path),
        lookup(nodes, seq![SLASH] + path) == lookup(nodes, path),
{
    crate::text::lemma_trim_outer_slash(path);
}

} // verus!
