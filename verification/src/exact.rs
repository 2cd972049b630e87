//! Routes without parameters and wildcard: they match only the paths that
//! spell them, give or take repeated and outer `/`.

use crate::matching::{step, walk};
use crate::route_spec::{match_route, pattern_text, pattern_text_upto, token_text};
use crate::segment::Token;
use crate::text::{lemma_slash_run_end, lemma_trim, lemma_trim_unique, trim, DOT, SLASH};
use vstd::prelude::*;

verus! {

/// `s` with each run of `/` shortened to a single `/`.
pub open spec fn squeeze(s: Seq<u8>) -> Seq<u8>
    decreases s.len(),
{
    if s.len() == 0 {
        Seq::empty()
    } else if s.len() >= 2 && s[0] == SLASH && s[1] == SLASH {
        squeeze(s.skip(1))
    } else {
        seq![s[0]] + squeeze(s.skip(1))
    }
}

/// Whether no token is a parameter or a wildcard.
pub open spec fn is_literal(tokens: Seq<Token>) -> bool {
    forall|i: int|
        0 <= i < tokens.len() ==> !((#[trigger] tokens[i]) is Param) && !(tokens[i] is Wildcard)
}

/// What the tokens from index `i` on ask a path to spell: each token as it
/// is written, but for a `Slash` at the very end, which asks for nothing.
pub open spec fn spelled_from(tokens: Seq<Token>, i: int) -> Seq<u8>
    decreases tokens.len() - i,
{
    if i < 0 || i >= tokens.len() {
        Seq::empty()
    } else if tokens[i] is Slash && i + 1 == tokens.len() {
        Seq::empty()
    } else {
        token_text(tokens[i]) + spelled_from(tokens, i + 1)
    }
}

/// Squeezing keeps the ends of a sequence, and empties nothing.
pub proof fn lemma_squeeze_ends(s: Seq<u8>)
    ensures
        squeeze(s).len() == 0 <==> s.len() == 0,
        squeeze(s).len() <= s.len(),
        s.len() > 0 ==> squeeze(s)[0] == s[0] && squeeze(s).last() == s.last(),
    decreases s.len(),
{
    if s.len() > 0 {
        lemma_squeeze_ends(s.skip(1));
    }
}

/// Squeezing twice is squeezing once.
pub proof fn lemma_squeeze_idempotent(s: Seq<u8>)
    ensures
        squeeze(squeeze(s)) == squeeze(s),
    decreases s.len(),
{
    if s.len() > 0 {
        let rest = s.skip(1);
        lemma_squeeze_idempotent(rest);
        lemma_squeeze_ends(rest);
        if !(s.len() >= 2 && s[0] == SLASH && s[1] == SLASH) {
            let kept = seq![s[0]] + squeeze(rest);
            assert(kept.skip(1) =~= squeeze(rest));
        }
    }
}

/// What follows may be squeezed first.
pub proof fn lemma_squeeze_tail(x: Seq<u8>, y: Seq<u8>)
    ensures
        squeeze(x + y) == squeeze(x + squeeze(y)),
    decreases x.len(),
{
    lemma_squeeze_ends(y);
    if x.len() == 0 {
        lemma_squeeze_idempotent(y);
    } else {
        let a = x + y;
        let b = x + squeeze(y);
        let rest = x.skip(1);
        assert(a.skip(1) =~= rest + y);
        assert(b.skip(1) =~= rest + squeeze(y));
        lemma_squeeze_tail(rest, y);
    }
}

/// A run of `/` at the front counts as a single `/`.
pub proof fn lemma_squeeze_run(s: Seq<u8>, run: int)
    requires
        1 <= run <= s.len(),
        forall|j: int| 0 <= j < run ==> s[j] == SLASH,
    ensures
        squeeze(s) == squeeze(seq![SLASH] + s.skip(run)),
    decreases run,
{
    if run == 1 {
        assert(s =~= seq![SLASH] + s.skip(1));
    } else {
        let rest = s.skip(1);
        lemma_squeeze_run(rest, run - 1);
        assert(rest.skip(run - 1) =~= s.skip(run));
    }
}

/// Two sequences that squeeze alike still do with the same text before
/// them.
pub proof fn lemma_squeeze_after(text: Seq<u8>, a: Seq<u8>, b: Seq<u8>)
    requires
        squeeze(a) == squeeze(b),
    ensures
        squeeze(text + a) == squeeze(text + b),
{
    lemma_squeeze_tail(text, a);
    lemma_squeeze_tail(text, b);
}

/// A walk over literal tokens that consumes the rest of a path spells, give
/// or take repeated `/`, what the tokens ask for.
pub proof fn lemma_walk_spells(tokens: Seq<Token>, i: int, path: Seq<u8>, pos: int)
    requires
        is_literal(tokens),
        0 <= i <= tokens.len(),
        0 <= pos <= path.len(),
        walk(tokens, i, path, pos) is Some,
        walk(tokens, i, path, pos)->0.end == path.len(),
    ensures
        squeeze(path.skip(pos)) == squeeze(spelled_from(tokens, i)),
    decreases tokens.len() - i,
{
    let rest = path.skip(pos);
    if i < tokens.len() {
        let taken = step(tokens, i, path, pos)->0;
        let end = taken.end;
        crate::matching::lemma_step_bounds(tokens, i, path, pos);
        lemma_walk_spells(tokens, i + 1, path, end);
        let later = path.skip(end);
        let asked = spelled_from(tokens, i + 1);
        match tokens[i] {
            Token::Exact(text) => {
                assert(rest =~= text + later);
                lemma_squeeze_after(text, later, asked);
            },
            Token::Dot => {
                assert(rest =~= seq![DOT] + later);
                lemma_squeeze_after(seq![DOT], later, asked);
            },
            Token::Slash => {
                lemma_slash_run_end(path, pos);
                if i + 1 < tokens.len() {
                    assert(rest.skip(end - pos) =~= later);
                    lemma_squeeze_run(rest, end - pos);
                    lemma_squeeze_after(seq![SLASH], later, asked);
                }
            },
            _ => {},
        }
    }
}

/// How the tokens from index `i` on are written.
pub open spec fn written_from(tokens: Seq<Token>, i: int) -> Seq<u8>
    decreases tokens.len() - i,
{
    if i < 0 || i >= tokens.len() {
        Seq::empty()
    } else {
        token_text(tokens[i]) + written_from(tokens, i + 1)
    }
}

/// A pattern is its first tokens as written, then the rest as written.
pub proof fn lemma_written(tokens: Seq<Token>, i: int)
    requires
        0 <= i <= tokens.len(),
    ensures
        pattern_text(tokens) == pattern_text_upto(tokens, i) + written_from(tokens, i),
    decreases tokens.len() - i,
{
    if i < tokens.len() {
        lemma_written(tokens, i + 1);
        assert(pattern_text_upto(tokens, i + 1) + written_from(tokens, i + 1) =~= pattern_text_upto(
            tokens,
            i,
        ) + written_from(tokens, i));
    }
}

/// What is written is what is asked for, and a `/` more where the last token
/// is a `Slash`.
pub proof fn lemma_written_spelled(tokens: Seq<Token>, i: int)
    requires
        0 <= i <= tokens.len(),
    ensures
        written_from(tokens, i) == spelled_from(tokens, i) + (if i < tokens.len()
            && tokens.last() is Slash {
            seq![SLASH]
        } else {
            Seq::empty()
        }),
    decreases tokens.len() - i,
{
    if i < tokens.len() {
        lemma_written_spelled(tokens, i + 1);
    }
}

/// A route without parameters and wildcard matches only the paths that are
/// equal to the route as it is written, give or take leading, trailing and
/// repeated `/`.
pub proof fn lemma_literal_route_is_exact(tokens: Seq<Token>, path: Seq<u8>)
    requires
        is_literal(tokens),
        match_route(tokens, path) is Some,
    ensures
        squeeze(trim(path)) == squeeze(trim(pattern_text(tokens))),
        match_route(tokens, path)->0.len() == 0,
{
    let trimmed = trim(path);
    let asked = spelled_from(tokens, 0);
    let written = pattern_text(tokens);
    lemma_walk_spells(tokens, 0, trimmed, 0);
    assert(trimmed.skip(0) =~= trimmed);
    lemma_trim(path);
    lemma_squeeze_ends(trimmed);
    lemma_squeeze_ends(asked);
    lemma_written(tokens, 0);
    lemma_written_spelled(tokens, 0);
    if asked.len() == 0 {
        lemma_trim_unique(written, written.len() as int, written.len() as int);
    } else {
        lemma_trim_unique(written, 1, (1 + asked.len()) as int);
        assert(trim(written) =~= asked);
    }
    crate::matching::lemma_walk_capture_count(tokens, 0, trimmed, 0);
    lemma_no_slots(tokens, 0);
}

/// Literal tokens capture nothing.
pub proof fn lemma_no_slots(tokens: Seq<Token>, i: int)
    requires
        is_literal(tokens),
        0 <= i <= tokens.len(),
    ensures
        crate::matching::slots_from(tokens, i) == 0,
    decreases tokens.len() - i,
{
    if i < tokens.len() {
        lemma_no_slots(tokens, i + 1);
    }
}

} // verus!
