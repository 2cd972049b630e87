//! What it means for a sequence of tokens to match a path: a walk over the
//! tokens, left to right, that consumes the path and collects what the
//! parameters and the wildcard capture.

use crate::segment::Token;
use crate::text::{has_at, next_of, slash_run_end, trim, DOT, SLASH};
use vstd::prelude::*;

verus! {

/// Whether the token at index `i` stands where it may: a wildcard only at the
/// end, a parameter only before a separator or at the end.
pub open spec fn well_placed(tokens: Seq<Token>, i: int) -> bool {
    &&& tokens[i] is Wildcard ==> i + 1 == tokens.len()
    &&& tokens[i] is Param && i + 1 < tokens.len() ==> {
        ||| tokens[i + 1] is Slash
        ||| tokens[i + 1] is Dot
    }
}

/// Whether a token sequence can be matched at all: a wildcard stands only at
/// the end, and a parameter is followed by a separator or by nothing.
pub open spec fn well_formed(tokens: Seq<Token>) -> bool {
    forall|i: int| 0 <= i < tokens.len() ==> #[trigger] well_placed(tokens, i)
}

/// The outcome of a successful walk: what was captured, in order, and the
/// index of the path at which the walk stopped.
pub struct Walk {
    pub captures: Seq<Seq<u8>>,
    pub end: int,
}

/// The outcome of one token: what it captured, if it captures, and the index
/// of the path after it.
pub struct Step {
    pub captured: Option<Seq<u8>>,
    pub end: int,
}

/// Puts `first` in front of the captures of a walk.
pub open spec fn capture(first: Seq<u8>, rest: Option<Walk>) -> Option<Walk> {
    match rest {
        Some(w) => Some(Walk { captures: seq![first] + w.captures, end: w.end }),
        None => None,
    }
}

/// What the token at index `i` does with `path` at index `pos`, or `None`
/// when it does not match there.
///
/// - `Exact` needs its text at `pos` and consumes it.
/// - `Param` needs a non-empty rest. Before a `Slash` or at the end of the
///   pattern it captures up to the next `/`; before a `Dot` it captures up to
///   the next `.` or `/`, which must be a `.`.
/// - `Wildcard` captures the whole rest.
/// - `Slash` consumes a run of `/`. The run may be empty only at the end of
///   the pattern or before a wildcard; at the end of the pattern it must be
///   empty.
/// - `Dot` consumes one `.`.
pub open spec fn step(tokens: Seq<Token>, i: int, path: Seq<u8>, pos: int) -> Option<Step> {
    let last = i + 1 == tokens.len();
    match tokens[i] {
        Token::Exact(text) => if has_at(path, pos, text) {
            Some(Step { captured: None, end: pos + text.len() })
        } else {
            None
        },
        Token::Param(_) => if pos >= path.len() {
            None
        } else if last || tokens[i + 1] is Slash {
            let end = next_of(path, pos, SLASH, SLASH);
            Some(Step { captured: Some(path.subrange(pos, end)), end })
        } else {
            let end = next_of(path, pos, DOT, SLASH);
            if end < path.len() && path[end] == DOT {
                Some(Step { captured: Some(path.subrange(pos, end)), end })
            } else {
                None
            }
        },
        Token::Wildcard => Some(
            Step { captured: Some(path.subrange(pos, path.len() as int)), end: path.len() as int },
        ),
        Token::Slash => {
            let end = slash_run_end(path, pos);
            if last {
                if end == pos {
                    Some(Step { captured: None, end: pos })
                } else {
                    None
                }
            } else if end > pos || tokens[i + 1] is Wildcard {
                Some(Step { captured: None, end })
            } else {
                None
            }
        },
        Token::Dot => if 0 <= pos < path.len() && path[pos] == DOT {
            Some(Step { captured: None, end: pos + 1 })
        } else {
            None
        },
    }
}

/// Walks the tokens from index `i` on against `path` from index `pos` on:
/// one [`step`] for each token, each starting where the one before stopped.
pub open spec fn walk(tokens: Seq<Token>, i: int, path: Seq<u8>, pos: int) -> Option<Walk>
    decreases tokens.len() - i,
{
    if i < 0 || i >= tokens.len() {
        Some(Walk { captures: Seq::empty(), end: pos })
    } else {
        match step(tokens, i, path, pos) {
            None => None,
            Some(s) => match s.captured {
                Some(part) => capture(part, walk(tokens, i + 1, path, s.end)),
                None => walk(tokens, i + 1, path, s.end),
            },
        }
    }
}

/// What the tokens capture from an already trimmed path, or `None` when they
/// do not match it: the walk must consume the whole path. (A trimmed path
/// does not end in `/`, so a walk cannot leave a bare `/` behind either.)
pub open spec fn match_trimmed(tokens: Seq<Token>, trimmed: Seq<u8>) -> Option<Seq<Seq<u8>>> {
    match walk(tokens, 0, trimmed, 0) {
        Some(w) => if w.end == trimmed.len() {
            Some(w.captures)
        } else {
            None
        },
        None => None,
    }
}

/// What the tokens capture from `path`, or `None` when they do not match it.
/// Leading and trailing `/` of the path do not count.
pub open spec fn match_tokens(tokens: Seq<Token>, path: Seq<u8>) -> Option<Seq<Seq<u8>>> {
    match_trimmed(tokens, trim(path))
}

/// The captures `done`, followed by those of the walk `rest`.
pub open spec fn resume(done: Seq<Seq<u8>>, rest: Option<Walk>) -> Option<Walk> {
    match rest {
        Some(w) => Some(Walk { captures: done + w.captures, end: w.end }),
        None => None,
    }
}

/// Resuming with a capture in front is resuming after that capture.
pub proof fn lemma_resume_capture(done: Seq<Seq<u8>>, first: Seq<u8>, rest: Option<Walk>)
    ensures
        resume(done, capture(first, rest)) == resume(done.push(first), rest),
{
    if rest is Some {
        let w = rest->0;
        assert(done + (seq![first] + w.captures) =~= done.push(first) + w.captures);
    }
}

/// A step never moves backwards, and stops inside the path.
pub proof fn lemma_step_bounds(tokens: Seq<Token>, i: int, path: Seq<u8>, pos: int)
    requires
        0 <= i < tokens.len(),
        0 <= pos <= path.len(),
    ensures
        step(tokens, i, path, pos) is Some ==> pos <= step(tokens, i, path, pos)->0.end
            <= path.len(),
{
    crate::text::lemma_next_of(path, pos, SLASH, SLASH);
    crate::text::lemma_next_of(path, pos, DOT, SLASH);
    crate::text::lemma_slash_run_end(path, pos);
}

/// The number of tokens from index `i` on that capture: parameters and
/// wildcards.
pub open spec fn slots_from(tokens: Seq<Token>, i: int) -> nat
    decreases tokens.len() - i,
{
    if i < 0 || i >= tokens.len() {
        0
    } else if tokens[i] is Param || tokens[i] is Wildcard {
        slots_from(tokens, i + 1) + 1
    } else {
        slots_from(tokens, i + 1)
    }
}

/// Counting the capturing tokens from the back or from the front gives the
/// same number.
pub proof fn lemma_slots(tokens: Seq<Token>, i: int)
    requires
        0 <= i <= tokens.len(),
    ensures
        crate::route_match::slots(tokens, i) + slots_from(tokens, i) == crate::route_match::slots(
            tokens,
            tokens.len() as int,
        ),
    decreases tokens.len() - i,
{
    if i < tokens.len() {
        lemma_slots(tokens, i + 1);
    }
}

/// A walk has one capture for each capturing token that it passes.
pub proof fn lemma_walk_capture_count(tokens: Seq<Token>, i: int, path: Seq<u8>, pos: int)
    requires
        0 <= i <= tokens.len(),
    ensures
        walk(tokens, i, path, pos) is Some ==> walk(tokens, i, path, pos)->0.captures.len()
            == slots_from(tokens, i),
        i == 0 ==> slots_from(tokens, i) == crate::route_match::slots(tokens, tokens.len() as int),
    decreases tokens.len() - i,
{
    lemma_slots(tokens, i);
    if i < tokens.len() {
        match step(tokens, i, path, pos) {
            Some(s) => {
                lemma_walk_capture_count(tokens, i + 1, path, s.end);
            },
            None => {},
        }
    }
}

} // verus!
