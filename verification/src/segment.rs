//! One token of a parsed route pattern.

use crate::strings::{bytes_of, lemma_bytes_of_injective};
use std::cmp::Ordering;
use vstd::prelude::*;
use vstd::std_specs::cmp::PartialEqSpecImpl;
use vstd::std_specs::cmp::PartialOrdSpecImpl;

verus! {

/// What a [`Segment`] stands for in contracts: the same five variants, with
/// text given as UTF-8 bytes.
pub enum Token {
    Slash,
    Dot,
    Exact(Seq<u8>),
    Param(Seq<u8>),
    Wildcard,
}

/// The internal representation of a parsed component of a route. As an
/// example, `/hello/:planet/*` is the sequence
/// `[Exact("hello"), Slash, Param("planet"), Slash, Wildcard]`.
#[derive(Debug)]
pub enum Segment {
    /// Written `/` in a pattern; stands for one or more `/` of a path.
    Slash,
    /// Written `.` after a parameter; matches one `.` of a path.
    Dot,
    /// Free text of a pattern; matches exactly that text.
    Exact(String),
    /// Written `:name`; captures up to the next separator of the pattern.
    Param(String),
    /// Written `*`; captures the rest of the path, which may be empty.
    Wildcard,
}

impl View for Segment {
    type V = Token;

    open spec fn view(&self) -> Token {
        match self {
            Segment::Slash => Token::Slash,
            Segment::Dot => Token::Dot,
            Segment::Exact(text) => Token::Exact(bytes_of(text@)),
            Segment::Param(name) => Token::Param(bytes_of(name@)),
            Segment::Wildcard => Token::Wildcard,
        }
    }
}

/// How specific a token is: literal text outranks a parameter, a parameter
/// outranks the wildcard, and the two separators share the lowest rank.
pub open spec fn token_rank(t: Token) -> int {
    match t {
        Token::Exact(_) => 3,
        Token::Param(_) => 2,
        Token::Wildcard => 1,
        Token::Slash => 0,
        Token::Dot => 0,
    }
}

/// The order of two integers.
pub open spec fn int_order(a: int, b: int) -> Ordering {
    if a < b {
        Ordering::Less
    } else if a == b {
        Ordering::Equal
    } else {
        Ordering::Greater
    }
}

impl Segment {
    /// The rank of this segment.
    pub fn rank(&self) -> (r: u8)
        ensures
            r == token_rank(self@),
    {
        match self {
            Segment::Exact(_) => 3,
            Segment::Param(_) => 2,
            Segment::Wildcard => 1,
            Segment::Slash => 0,
            Segment::Dot => 0,
        }
    }

    /// Compares two segments by rank alone: `Exact > Param > Wildcard`, and
    /// `Slash` and `Dot` are equal to each other. Text is not compared.
    pub fn cmp(&self, other: &Segment) -> (o: Ordering)
        ensures
            o == int_order(token_rank(self@), token_rank(other@)),
    {
        let mine: u8 = self.rank();
        let theirs: u8 = other.rank();
        if mine < theirs {
            Ordering::Less
        } else if mine == theirs {
            Ordering::Equal
        } else {
            Ordering::Greater
        }
    }
}

impl Clone for Segment {
    /// A segment of the same kind with the same text.
    fn clone(&self) -> (copy: Segment)
        ensures
            copy@ == self@,
    {
        match self {
            Segment::Slash => Segment::Slash,
            Segment::Dot => Segment::Dot,
            Segment::Exact(text) => Segment::Exact(text.clone()),
            Segment::Param(name) => Segment::Param(name.clone()),
            Segment::Wildcard => Segment::Wildcard,
        }
    }
}

impl PartialEq for Segment {
    /// Two segments are equal when they are the same variant with the same
    /// text.
    fn eq(&self, other: &Segment) -> (same: bool) {
        proof {
            match (self, other) {
                (Segment::Exact(a), Segment::Exact(b)) => {
                    if bytes_of(a@) == bytes_of(b@) {
                        lemma_bytes_of_injective(a@, b@);
                    }
                },
                (Segment::Param(a), Segment::Param(b)) => {
                    if bytes_of(a@) == bytes_of(b@) {
                        lemma_bytes_of_injective(a@, b@);
                    }
                },
                _ => {},
            }
        }
        match (self, other) {
            (Segment::Slash, Segment::Slash) => true,
            (Segment::Dot, Segment::Dot) => true,
            (Segment::Wildcard, Segment::Wildcard) => true,
            (Segment::Exact(a), Segment::Exact(b)) => *a == *b,
            (Segment::Param(a), Segment::Param(b)) => *a == *b,
            _ => false,
        }
    }
}

impl PartialEqSpecImpl for Segment {
    open spec fn obeys_eq_spec() -> bool {
        true
    }

    open spec fn eq_spec(&self, other: &Segment) -> bool {
        self@ == other@
    }
}

impl Eq for Segment {

}

impl PartialOrd for Segment {
    /// Compares two segments by rank: see [`Segment::cmp`].
    fn partial_cmp(&self, other: &Segment) -> (o: Option<Ordering>) {
        Some(self.cmp(other))
    }
}

impl PartialOrdSpecImpl for Segment {
    open spec fn obeys_partial_cmp_spec() -> bool {
        true
    }

    open spec fn partial_cmp_spec(&self, other: &Segment) -> Option<Ordering> {
        Some(int_order(token_rank(self@), token_rank(other@)))
    }
}

} // verus!
