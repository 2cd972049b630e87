//! The specificity order of routes: which of two routes is tried first.

use crate::pattern::tokens_of;
use crate::route_spec::{dots_of, RouteSpec};
use crate::segment::{token_rank, Segment, Token};
use std::cmp::Ordering;
use vstd::prelude::*;
use vstd::std_specs::cmp::PartialEqSpecImpl;
use vstd::std_specs::cmp::PartialOrdSpecImpl;

verus! {

/// The first index from `i` on at which the two sequences hold tokens of
/// different rank, or the length of the shorter one.
pub open spec fn first_gap(a: Seq<Token>, b: Seq<Token>, i: int) -> int
    decreases a.len() - i,
{
    if i < 0 || i >= a.len() || i >= b.len() {
        i
    } else if token_rank(a[i]) != token_rank(b[i]) {
        i
    } else {
        first_gap(a, b, i + 1)
    }
}

/// Whether `a` is more specific than `b`. The first pair of tokens of
/// different rank decides, for the higher rank. Where one sequence runs out
/// first, the one with more dots is more specific; with as many dots, the
/// one with more tokens.
pub open spec fn outranks(a: Seq<Token>, b: Seq<Token>) -> bool {
    let gap = first_gap(a, b, 0);
    if gap < a.len() && gap < b.len() {
        token_rank(a[gap]) > token_rank(b[gap])
    } else if dots_of(a) != dots_of(b) {
        dots_of(a) > dots_of(b)
    } else {
        a.len() > b.len()
    }
}

/// The order of two token sequences, most specific first: `Less` when `a` is
/// more specific than `b`.
pub open spec fn specificity_order(a: Seq<Token>, b: Seq<Token>) -> Ordering {
    if outranks(a, b) {
        Ordering::Less
    } else if outranks(b, a) {
        Ordering::Greater
    } else {
        Ordering::Equal
    }
}

/// The first gap of two sequences does not depend on their order; it lies
/// in both, the ranks before it agree, and the ranks at it differ where both
/// sequences reach it.
pub proof fn lemma_first_gap(a: Seq<Token>, b: Seq<Token>, i: int)
    requires
        0 <= i,
    ensures
        first_gap(a, b, i) == first_gap(b, a, i),
        i <= a.len() && i <= b.len() ==> i <= first_gap(a, b, i) <= a.len() && first_gap(a, b, i)
            <= b.len(),
        forall|j: int| i <= j < first_gap(a, b, i) ==> token_rank(a[j]) == token_rank(b[j]),
        first_gap(a, b, i) < a.len() && first_gap(a, b, i) < b.len() ==> token_rank(
            a[first_gap(a, b, i)],
        ) != token_rank(b[first_gap(a, b, i)]),
    decreases a.len() - i,
{
    if i < a.len() && i < b.len() && token_rank(a[i]) == token_rank(b[i]) {
        lemma_first_gap(a, b, i + 1);
    }
}

/// Of two token sequences at most one is more specific than the other.
pub proof fn lemma_outranks_one_way(a: Seq<Token>, b: Seq<Token>)
    ensures
        !(outranks(a, b) && outranks(b, a)),
{
    lemma_first_gap(a, b, 0);
}

/// Of two routes that begin with tokens of different rank, the one that
/// begins with the higher rank is the more specific: literal text goes before
/// a parameter, and a parameter before a wildcard.
pub proof fn lemma_first_token_decides(a: Seq<Token>, b: Seq<Token>)
    requires
        a.len() > 0,
        b.len() > 0,
        token_rank(a[0]) > token_rank(b[0]),
    ensures
        specificity_order(a, b) == Ordering::Less,
        specificity_order(b, a) == Ordering::Greater,
{
    lemma_outranks_one_way(a, b);
}

/// A route ranks equal to itself.
pub proof fn lemma_order_reflexive(a: Seq<Token>)
    ensures
        specificity_order(a, a) == Ordering::Equal,
{
    lemma_first_gap(a, a, 0);
}

/// The order of two routes turns around when they change places.
pub proof fn lemma_order_turns(a: Seq<Token>, b: Seq<Token>)
    ensures
        specificity_order(a, b) == Ordering::Less <==> specificity_order(b, a)
            == Ordering::Greater,
        specificity_order(a, b) == Ordering::Equal <==> specificity_order(b, a) == Ordering::Equal,
{
    lemma_outranks_one_way(a, b);
}

/// The first index at which two segment slices differ in rank.
fn rank_gap(a: &[Segment], b: &[Segment]) -> (gap: usize)
    ensures
        gap == first_gap(tokens_of(a@), tokens_of(b@), 0),
        gap <= a@.len(),
        gap <= b@.len(),
{
    let mut i: usize = 0;
    while i < a.len() && i < b.len()
        invariant
            i <= a@.len(),
            i <= b@.len(),
            first_gap(tokens_of(a@), tokens_of(b@), 0) == first_gap(
                tokens_of(a@),
                tokens_of(b@),
                i as int,
            ),
        decreases a@.len() - i,
    {
        if a[i].rank() != b[i].rank() {
            return i;
        }
        i = i + 1;
    }
    i
}

/// Whether two segment slices are equal, segment by segment.
fn same_segments(a: &[Segment], b: &[Segment]) -> (same: bool)
    ensures
        same == (tokens_of(a@) == tokens_of(b@)),
{
    if a.len() != b.len() {
        return false;
    }
    let mut i: usize = 0;
    while i < a.len()
        invariant
            a@.len() == b@.len(),
            i <= a@.len(),
            forall|j: int| 0 <= j < i ==> a@[j]@ == b@[j]@,
        decreases a@.len() - i,
    {
        if !(a[i] == b[i]) {
            assert(tokens_of(a@)[i as int] == a@[i as int]@);
            return false;
        }
        i = i + 1;
    }
    assert(tokens_of(a@) =~= tokens_of(b@));
    true
}

impl RouteSpec {
    /// Orders two routes by specificity, most specific first.
    pub fn cmp(&self, other: &RouteSpec) -> (o: Ordering)
        ensures
            o == specificity_order(self@, other@),
    {
        let mine = self.segments();
        let theirs = other.segments();
        let gap: usize = rank_gap(mine, theirs);
        proof {
            lemma_first_gap(self@, other@, 0);
        }
        if gap < mine.len() && gap < theirs.len() {
            let a: u8 = mine[gap].rank();
            let b: u8 = theirs[gap].rank();
            proof {
                lemma_at(mine@, gap);
                lemma_at(theirs@, gap);
            }
            if a > b {
                Ordering::Less
            } else {
                Ordering::Greater
            }
        } else if self.dots() > other.dots() {
            Ordering::Less
        } else if self.dots() < other.dots() {
            Ordering::Greater
        } else if mine.len() > theirs.len() {
            Ordering::Less
        } else if mine.len() < theirs.len() {
            Ordering::Greater
        } else {
            Ordering::Equal
        }
    }
}

impl RouteSpec {
    /// Whether this route is more specific than `other`.
    pub fn outranks(&self, other: &RouteSpec) -> (yes: bool)
        ensures
            yes == outranks(self@, other@),
    {
        proof {
            lemma_outranks_one_way(self@, other@);
        }
        match self.cmp(other) {
            Ordering::Less => true,
            _ => false,
        }
    }

    /// Whether this route has the same segments as `other`.
    pub fn same_as(&self, other: &RouteSpec) -> (yes: bool)
        ensures
            yes == (self@ == other@),
    {
        same_segments(self.segments(), other.segments())
    }
}

/// The token at an index is the view of the segment at that index.
pub proof fn lemma_at(segments: Seq<Segment>, i: usize)
    requires
        i < segments.len(),
    ensures
        tokens_of(segments)[i as int] == segments[i as int]@,
        tokens_of(segments).len() == segments.len(),
{
}

impl PartialEq for RouteSpec {
    /// Two routes are equal when their segments are; the source text does
    /// not count.
    fn eq(&self, other: &RouteSpec) -> (same: bool) {
        same_segments(self.segments(), other.segments())
    }
}

impl PartialEqSpecImpl for RouteSpec {
    open spec fn obeys_eq_spec() -> bool {
        true
    }

    open spec fn eq_spec(&self, other: &RouteSpec) -> bool {
        self@ == other@
    }
}

impl Eq for RouteSpec {

}

impl PartialOrd for RouteSpec {
    /// Orders two routes by specificity: see [`RouteSpec::cmp`].
    fn partial_cmp(&self, other: &RouteSpec) -> (o: Option<Ordering>) {
        Some(self.cmp(other))
    }
}

impl PartialOrdSpecImpl for RouteSpec {
    open spec fn obeys_partial_cmp_spec() -> bool {
        true
    }

    open spec fn partial_cmp_spec(&self, other: &RouteSpec) -> Option<Ordering> {
        Some(specificity_order(self@, other@))
    }
}

} // verus!
