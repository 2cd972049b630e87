//! From a path to its captures and back: a route renders, from what it
//! captured, the path that it captured it from.

use crate::captures::{value_of, Named, Pair};
use crate::matching::{
    lemma_slots, lemma_step_bounds, lemma_walk_capture_count, step, walk, well_formed, well_placed,
};
use crate::reverse_match::{agree, lemma_match_can_be_reversed, render, render_token, render_upto};
use crate::route_match::{named, named_upto, slots};
use crate::route_spec::match_route;
use crate::segment::Token;
use crate::text::{
    lemma_next_of, lemma_slash_run_end, lemma_trim_idempotent, lemma_trim_outer_slash, trim, SLASH,
};
use vstd::prelude::*;

verus! {

/// Whether no two parameters have the same name.
pub open spec fn distinct_names(tokens: Seq<Token>) -> bool {
    forall|i: int, j: int|
        0 <= i < j < tokens.len() && (#[trigger] tokens[i]) is Param && (
        #[trigger] tokens[j]) is Param ==> tokens[i]->Param_0 != tokens[j]->Param_0
}

/// Whether, on the walk from index `i` and position `pos` on, each `Slash`
/// consumes exactly one `/`.
pub open spec fn single_slashes(tokens: Seq<Token>, i: int, path: Seq<u8>, pos: int) -> bool
    decreases tokens.len() - i,
{
    if i < 0 || i >= tokens.len() {
        true
    } else {
        match step(tokens, i, path, pos) {
            Some(s) => (tokens[i] is Slash ==> s.end == pos + 1) && single_slashes(
                tokens,
                i + 1,
                path,
                s.end,
            ),
            None => true,
        }
    }
}

/// What the tokens from index `i` on render from the values.
pub open spec fn render_from(tokens: Seq<Token>, values: Named, i: int) -> Seq<u8>
    decreases tokens.len() - i,
{
    if i < 0 || i >= tokens.len() {
        Seq::empty()
    } else {
        render_token(tokens[i], values) + render_from(tokens, values, i + 1)
    }
}

/// A rendered path is its first tokens rendered, then the rest rendered.
pub proof fn lemma_render_from(tokens: Seq<Token>, values: Named, i: int)
    requires
        0 <= i <= tokens.len(),
    ensures
        render(tokens, values) == render_upto(tokens, values, i) + render_from(tokens, values, i),
    decreases tokens.len() - i,
{
    if i < tokens.len() {
        lemma_render_from(tokens, values, i + 1);
        assert(render_upto(tokens, values, i + 1) + render_from(tokens, values, i + 1)
            =~= render_upto(tokens, values, i) + render_from(tokens, values, i));
    } else {
        assert(render_upto(tokens, values, i) + render_from(tokens, values, i) =~= render(
            tokens,
            values,
        ));
    }
}

/// The first value of a name among pairs with one more pair at the end.
pub proof fn lemma_value_of_push(params: Seq<Pair>, last: Pair, key: Seq<u8>, from: int)
    requires
        0 <= from <= params.len(),
    ensures
        value_of(params.push(last), key, from) == (if value_of(params, key, from) is Some {
            value_of(params, key, from)
        } else if last.name == key {
            Some(last.value)
        } else {
            None
        }),
    decreases params.len() - from,
{
    let longer = params.push(last);
    if from < params.len() {
        lemma_value_of_push(params, last, key, from + 1);
    } else {
        assert(value_of(longer, key, from + 1) is None);
    }
}

/// Among parameters with different names, the value of each parameter's
/// name is what that parameter captured; a name that no parameter among the
/// first `n` tokens has, has no value.
pub proof fn lemma_values_by_name(tokens: Seq<Token>, raw: Seq<Seq<u8>>, n: int, key: Seq<u8>)
    requires
        distinct_names(tokens),
        0 <= n <= tokens.len(),
        raw.len() >= slots(tokens, n),
    ensures
        forall|i: int|
            0 <= i < n && (#[trigger] tokens[i]) is Param && tokens[i]->Param_0 == key ==> value_of(
                named_upto(tokens, raw, n).params,
                key,
                0,
            ) == Some(raw[slots(tokens, i) as int]),
        (forall|i: int| 0 <= i < n && (#[trigger] tokens[i]) is Param ==> tokens[i]->Param_0 != key)
            ==> value_of(named_upto(tokens, raw, n).params, key, 0) is None,
    decreases n,
{
    if n > 0 {
        lemma_values_by_name(tokens, raw, n - 1, key);
        let before = named_upto(tokens, raw, n - 1);
        match tokens[n - 1] {
            Token::Param(name) => {
                let last = Pair { name, value: raw[slots(tokens, n - 1) as int] };
                lemma_value_of_push(before.params, last, key, 0);
                if name == key {
                    assert forall|i: int|
                        0 <= i < n - 1 && (#[trigger] tokens[i]) is Param implies tokens[i]->Param_0
                        != key by {}
                }
            },
            _ => {},
        }
    }
}

/// The wildcard value of named captures is what the last token captured,
/// where that is a wildcard.
pub proof fn lemma_wildcard_value(tokens: Seq<Token>, raw: Seq<Seq<u8>>)
    requires
        tokens.len() > 0,
        tokens.last() is Wildcard,
        raw.len() >= slots(tokens, tokens.len() as int),
    ensures
        named(tokens, raw).wildcard == Some(raw[slots(tokens, tokens.len() - 1) as int]),
{
}

/// A walk over single slashes consumes exactly what its tokens render from
/// values that hold, under each parameter's name and as the wildcard value,
/// what the walk captures.
pub proof fn lemma_walk_renders(
    tokens: Seq<Token>,
    values: Named,
    raw: Seq<Seq<u8>>,
    i: int,
    path: Seq<u8>,
    pos: int,
)
    requires
        0 <= i <= tokens.len(),
        0 <= pos <= path.len(),
        walk(tokens, i, path, pos) is Some,
        walk(tokens, i, path, pos)->0.end == path.len(),
        single_slashes(tokens, i, path, pos),
        raw.len() == slots(tokens, tokens.len() as int),
        walk(tokens, i, path, pos)->0.captures == raw.skip(slots(tokens, i) as int),
        forall|j: int|
            0 <= j < tokens.len() && (#[trigger] tokens[j]) is Param ==> value_of(
                values.params,
                tokens[j]->Param_0,
                0,
            ) == Some(raw[slots(tokens, j) as int]),
        forall|j: int|
            0 <= j < tokens.len() && (#[trigger] tokens[j]) is Wildcard ==> values.wildcard == Some(
                raw[slots(tokens, j) as int],
            ),
    ensures
        path.skip(pos) == render_from(tokens, values, i),
    decreases tokens.len() - i,
{
    if i < tokens.len() {
        let whole = walk(tokens, i, path, pos)->0;
        let taken = step(tokens, i, path, pos)->0;
        let end = taken.end;
        let later = walk(tokens, i + 1, path, end)->0;
        let k = slots(tokens, i) as int;
        lemma_step_bounds(tokens, i, path, pos);
        lemma_slots(tokens, i);
        lemma_slots(tokens, i + 1);
        lemma_walk_capture_count(tokens, i + 1, path, end);
        lemma_next_of(path, pos, SLASH, SLASH);
        lemma_next_of(path, pos, crate::text::DOT, SLASH);
        lemma_slash_run_end(path, pos);
        if taken.captured is Some {
            // the first capture of the walk is what this token captured, and
            // the walk after it has the captures that follow
            assert(whole.captures[0] == taken.captured->0);
            assert(later.captures =~= raw.skip(k + 1)) by {
                assert(whole.captures.skip(1) =~= later.captures);
            }
        }
        lemma_walk_renders(tokens, values, raw, i + 1, path, end);
    }
}

/// A route renders, from what it captured from a path, that path: without
/// its outer `/`, and after a single `/`. This holds where the route is well
/// formed, its parameters have different names, and each `Slash` of the route
/// stands for exactly one `/` of the path. The rendered path is then matched
/// by the route as the path is.
pub proof fn lemma_round_trip(tokens: Seq<Token>, path: Seq<u8>)
    requires
        well_formed(tokens),
        distinct_names(tokens),
        match_route(tokens, path) is Some,
        single_slashes(tokens, 0, trim(path), 0),
    ensures
        agree(tokens, named(tokens, match_route(tokens, path)->0)),
        render(tokens, named(tokens, match_route(tokens, path)->0)) == seq![SLASH] + trim(path),
        match_route(tokens, render(tokens, named(tokens, match_route(tokens, path)->0)))
            == match_route(tokens, path),
{
    let trimmed = trim(path);
    let raw = match_route(tokens, path)->0;
    let values = named(tokens, raw);
    let n = tokens.len() as int;
    lemma_match_can_be_reversed(tokens, path);
    lemma_walk_capture_count(tokens, 0, trimmed, 0);
    assert(raw.skip(0) =~= raw);
    assert forall|j: int| 0 <= j < n && (#[trigger] tokens[j]) is Param implies value_of(
        values.params,
        tokens[j]->Param_0,
        0,
    ) == Some(raw[slots(tokens, j) as int]) by {
        lemma_values_by_name(tokens, raw, n, tokens[j]->Param_0);
    }
    assert forall|j: int| 0 <= j < n && (#[trigger] tokens[j]) is Wildcard implies values.wildcard
        == Some(raw[slots(tokens, j) as int]) by {
        assert(well_placed(tokens, j));
        lemma_wildcard_value(tokens, raw);
    }
    lemma_walk_renders(tokens, values, raw, 0, trimmed, 0);
    assert(trimmed.skip(0) =~= trimmed);
    lemma_render_from(tokens, values, 0);
    assert(render(tokens, values) =~= seq![SLASH] + trimmed);
    lemma_trim_outer_slash(trimmed);
    lemma_trim_idempotent(path);
}

} // verus!
