//! The reverse direction: from named values to the route that would have
//! captured them, and to the path that the route renders from them.

use crate::captures::{value_of, Captures, Named, Pair};
use crate::pattern::tokens_of;
use crate::route_spec::RouteSpec;
use crate::segment::{Segment, Token};
use crate::strings::{
    bytes_of, lemma_bytes_of_concat, lemma_dot_text, lemma_empty_text, lemma_slash_text,
};
use crate::text::{same_bytes, DOT, SLASH};
use vstd::prelude::*;
use vstd::string::StringExecFns;
use vstd::string::StringSliceAdditionalSpecFns;

verus! {

/// The names of the parameters among the first `n` tokens, in order.
pub open spec fn param_names(tokens: Seq<Token>, n: int) -> Seq<Seq<u8>>
    decreases n,
{
    if n <= 0 || n > tokens.len() {
        Seq::empty()
    } else {
        match tokens[n - 1] {
            Token::Param(name) => param_names(tokens, n - 1).push(name),
            _ => param_names(tokens, n - 1),
        }
    }
}

/// The names of a sequence of pairs, in order.
pub open spec fn names_of(params: Seq<Pair>) -> Seq<Seq<u8>> {
    Seq::new(params.len(), |i: int| params[i].name)
}

/// Whether the tokens end in a wildcard.
pub open spec fn ends_in_wildcard(tokens: Seq<Token>) -> bool {
    tokens.len() > 0 && tokens.last() is Wildcard
}

/// Whether a route can be rendered from the named values: the names of its
/// parameters are exactly the names of the values, in order, and there is a
/// wildcard value if and only if the route ends in a wildcard.
pub open spec fn agree(tokens: Seq<Token>, values: Named) -> bool {
    &&& param_names(tokens, tokens.len() as int) == names_of(values.params)
    &&& values.wildcard is Some <==> ends_in_wildcard(tokens)
}

/// What one token renders as: a separator as its byte, literal text as
/// itself, a parameter as the first value of its name, the wildcard as the
/// wildcard value. A value that is missing renders as nothing.
pub open spec fn render_token(token: Token, values: Named) -> Seq<u8> {
    match token {
        Token::Slash => seq![SLASH],
        Token::Dot => seq![DOT],
        Token::Exact(text) => text,
        Token::Param(name) => match value_of(values.params, name, 0) {
            Some(value) => value,
            None => Seq::empty(),
        },
        Token::Wildcard => match values.wildcard {
            Some(value) => value,
            None => Seq::empty(),
        },
    }
}

/// The path that the first `n` tokens render from the values: a `/`, then
/// each token in turn.
pub open spec fn render_upto(tokens: Seq<Token>, values: Named, n: int) -> Seq<u8>
    decreases n,
{
    if n <= 0 || n > tokens.len() {
        seq![SLASH]
    } else {
        render_upto(tokens, values, n - 1) + render_token(tokens[n - 1], values)
    }
}

/// The path that the tokens render from the values.
pub open spec fn render(tokens: Seq<Token>, values: Named) -> Seq<u8> {
    render_upto(tokens, values, tokens.len() as int)
}

/// The result of a reverse lookup from [`Captures`] to a [`RouteSpec`].
#[derive(Debug, Clone, Copy)]
pub struct ReverseMatch<'keys, 'values, 'captures, 'route> {
    route: &'route RouteSpec,
    captures: &'captures Captures<'keys, 'values>,
}

impl<'keys, 'values, 'captures, 'route> ReverseMatch<'keys, 'values, 'captures, 'route> {
    /// The route and the values of this reverse match.
    pub closed spec fn parts(&self) -> (Seq<Token>, Named) {
        (self.route@, self.captures@)
    }

    /// Builds the reverse match of a route and named values, where they
    /// agree: see [`agree`].
    pub fn new(captures: &'captures Captures<'keys, 'values>, route: &'route RouteSpec) -> (found:
        Option<ReverseMatch<'keys, 'values, 'captures, 'route>>)
        ensures
            found is Some <==> agree(route@, captures@),
            found is Some ==> found->0.parts() == (route@, captures@),
    {
        let segments = route.segments();
        let params = captures.params();
        let ghost tokens = route@;
        let ghost names = names_of(captures@.params);
        let mut k: usize = 0;
        let mut i: usize = 0;
        while i < segments.len()
            invariant
                tokens == tokens_of(segments@),
                tokens == route@,
                names == names_of(captures@.params),
                crate::captures::pairs_of(params@) == captures@.params,
                i <= segments@.len(),
                k <= params@.len(),
                param_names(tokens, i as int) == names.take(k as int),
            decreases segments@.len() - i,
        {
            match &segments[i] {
                Segment::Param(name) => {
                    let ghost all = param_names(tokens, tokens.len() as int);
                    proof {
                        // the names up to this parameter are the first of all
                        // the names, and this parameter's name is the last of
                        // them
                        lemma_param_names_grow(tokens, i + 1, tokens.len() as int);
                        assert(all.take(k + 1)[k as int] == all[k as int]);
                    }
                    if k >= params.len() {
                        return None;
                    }
                    if !same_bytes(name.as_str().as_bytes(), params[k].name().as_bytes()) {
                        return None;
                    }
                    k = k + 1;
                },
                _ => {},
            }
            i = i + 1;
        }
        if k != params.len() {
            return None;
        }
        assert(names.take(k as int) =~= names);
        let ends: bool = if segments.len() == 0 {
            false
        } else {
            match &segments[segments.len() - 1] {
                Segment::Wildcard => true,
                _ => false,
            }
        };
        let has: bool = match captures.wildcard() {
            Some(_) => true,
            None => false,
        };
        if has != ends {
            return None;
        }
        Some(ReverseMatch { route, captures })
    }

    /// The route of this reverse match.
    pub fn route(&self) -> (route: &RouteSpec)
        ensures
            route@ == self.parts().0,
    {
        self.route
    }

    /// The values of this reverse match.
    pub fn captures(&self) -> (captures: &Captures<'keys, 'values>)
        ensures
            captures@ == self.parts().1,
    {
        self.captures
    }

    /// The path that the route renders from the values.
    pub fn to_string(&self) -> (path: String)
        ensures
            bytes_of(path@) == render(self.parts().0, self.parts().1),
    {
        let segments = self.route.segments();
        let ghost tokens = self.route@;
        let ghost values = self.captures@;
        let mut path = String::from_str("/");
        proof {
            lemma_slash_text();
        }
        let mut i: usize = 0;
        while i < segments.len()
            invariant
                tokens == tokens_of(segments@),
                values == self.captures@,
                i <= segments@.len(),
                bytes_of(path@) == render_upto(tokens, values, i as int),
            decreases segments@.len() - i,
        {
            let ghost before = path@;
            let piece: &str = match &segments[i] {
                Segment::Slash => {
                    proof {
                        lemma_slash_text();
                    }
                    "/"
                },
                Segment::Dot => {
                    proof {
                        lemma_dot_text();
                    }
                    "."
                },
                Segment::Exact(text) => text.as_str(),
                Segment::Param(name) => match self.captures.get(name.as_str()) {
                    Some(value) => value,
                    None => {
                        proof {
                            lemma_empty_text();
                        }
                        ""
                    },
                },
                Segment::Wildcard => match self.captures.wildcard() {
                    Some(value) => value,
                    None => {
                        proof {
                            lemma_empty_text();
                        }
                        ""
                    },
                },
            };
            path.append(piece);
            proof {
                lemma_bytes_of_concat(before, piece@);
            }
            i = i + 1;
        }
        path
    }
}

impl RouteSpec {
    /// Populates this route with the params and wildcard of `captures`,
    /// where they agree with it.
    pub fn template<'route, 'keys, 'captures, 'values>(
        &'route self,
        captures: &'captures Captures<'keys, 'values>,
    ) -> (found: Option<ReverseMatch<'keys, 'values, 'captures, 'route>>)
        ensures
            found is Some <==> agree(self@, captures@),
            found is Some ==> found->0.parts() == (self@, captures@),
    {
        ReverseMatch::new(captures, self)
    }
}

/// The names among the first `n` tokens are the first of the names among the
/// first `m`, for `n <= m`.
pub proof fn lemma_param_names_grow(tokens: Seq<Token>, n: int, m: int)
    requires
        0 <= n <= m <= tokens.len(),
    ensures
        param_names(tokens, n).len() <= param_names(tokens, m).len(),
        param_names(tokens, m).take(param_names(tokens, n).len() as int) == param_names(
            tokens,
            n,
        ),
    decreases m - n,
{
    if n < m {
        lemma_param_names_grow(tokens, n, m - 1);
        let shorter = param_names(tokens, m - 1);
        let longer = param_names(tokens, m);
        let k = param_names(tokens, n).len() as int;
        assert(longer.take(k) =~= shorter.take(k));
    } else {
        assert(param_names(tokens, n).take(param_names(tokens, n).len() as int) =~= param_names(
            tokens,
            n,
        ));
    }
}

/// Whether a wildcard stands among the first `n` tokens.
pub open spec fn wildcard_among(tokens: Seq<Token>, n: int) -> bool
    decreases n,
{
    if n <= 0 || n > tokens.len() {
        false
    } else {
        tokens[n - 1] is Wildcard || wildcard_among(tokens, n - 1)
    }
}

/// Raw captures that fill every slot of the first `n` tokens, once named,
/// carry the names of the parameters among those tokens, and a wildcard
/// value if and only if a wildcard stands among them.
pub proof fn lemma_named_upto_agrees(tokens: Seq<Token>, raw: Seq<Seq<u8>>, n: int)
    requires
        0 <= n <= tokens.len(),
        raw.len() >= crate::route_match::slots(tokens, n),
    ensures
        names_of(crate::route_match::named_upto(tokens, raw, n).params) == param_names(tokens, n),
        crate::route_match::named_upto(tokens, raw, n).wildcard is Some <==> wildcard_among(
            tokens,
            n,
        ),
    decreases n,
{
    if n > 0 {
        lemma_named_upto_agrees(tokens, raw, n - 1);
    }
}

/// In well-formed tokens a wildcard stands among them only as the last.
pub proof fn lemma_wildcard_is_last(tokens: Seq<Token>, n: int)
    requires
        crate::matching::well_formed(tokens),
        0 <= n <= tokens.len(),
    ensures
        wildcard_among(tokens, n) <==> n == tokens.len() && ends_in_wildcard(tokens),
    decreases n,
{
    if n > 0 {
        lemma_wildcard_is_last(tokens, n - 1);
        assert(crate::matching::well_placed(tokens, n - 1));
    }
}

/// What a route captures from a path that it matches, once named, agrees
/// with the route: the route can be rendered from it.
pub proof fn lemma_match_can_be_reversed(tokens: Seq<Token>, path: Seq<u8>)
    requires
        crate::matching::well_formed(tokens),
        crate::route_spec::match_route(tokens, path) is Some,
    ensures
        agree(
            tokens,
            crate::route_match::named(tokens, crate::route_spec::match_route(tokens, path)->0),
        ),
{
    let raw = crate::route_spec::match_route(tokens, path)->0;
    crate::route_spec::lemma_match_capture_count(tokens, path);
    lemma_named_upto_agrees(tokens, raw, tokens.len() as int);
    lemma_wildcard_is_last(tokens, tokens.len() as int);
}

} // verus!
