//! The compiled form of a route pattern.

use crate::matching::{
    lemma_resume_capture, match_tokens, resume, step, walk, well_formed, well_placed,
};
use crate::pattern::{parse_segments, parse_tokens, tokens_of, ParseError};
use crate::segment::{Segment, Token};
use crate::strings::{
    bytes_of, lemma_boundary_after_ascii, lemma_boundary_after_text, lemma_boundary_at_ascii,
    lemma_boundary_at_ends, lemma_bytes_of_concat, lemma_bytes_of_valid, lemma_colon_text,
    lemma_dot_text, lemma_slash_text, lemma_star_text, substr, trim_str,
};
use crate::text::{
    find_byte, find_either, lemma_slash_run_end, skip_slashes, starts_with_at, trim, COLON, DOT,
    SLASH, STAR,
};
use smartstring::{LazyCompact, SmartString};
use vstd::prelude::*;
use vstd::string::StringExecFns;
use vstd::string::StringSliceAdditionalSpecFns;
use vstd::utf8::is_char_boundary;

verus! {

/// The text a route was parsed from, kept in a `smartstring::SmartString`.
/// The string type itself is generic over a trait of its crate and cannot
/// be declared to the verifier, so it is held here, out of its sight; what
/// it holds is named by [`source_chars`].
#[verifier::external_body]
#[derive(Debug)]
pub struct SourceText {
    text: SmartString<LazyCompact>,
}

/// The characters that a [`SourceText`] holds.
pub uninterp spec fn source_chars(text: SourceText) -> Seq<char>;

/// `SmartString::from(&str)`: a string with the characters of `text`.
#[verifier::external_body]
fn source_text_from(text: &str) -> (kept: SourceText)
    ensures
        source_chars(kept) == text@,
{
    SourceText { text: SmartString::from(text) }
}

/// `SmartString::as_str`: the characters held, as a `&str`.
#[verifier::external_body]
fn source_text_as_str(kept: &SourceText) -> (text: &str)
    ensures
        text@ == source_chars(*kept),
{
    kept.text.as_str()
}

/// `SmartString::clone`: a string with the same characters.
#[verifier::external_body]
fn source_text_copy(kept: &SourceText) -> (copy: SourceText)
    ensures
        source_chars(copy) == source_chars(*kept),
{
    SourceText { text: kept.text.clone() }
}

/// `n`, kept within the range of `usize`.
pub open spec fn clamped(n: int) -> nat {
    if n < 0 {
        0
    } else if n > usize::MAX {
        usize::MAX as nat
    } else {
        n as nat
    }
}

/// The running length after the first `n` tokens: the length of literal
/// text, one for each parameter and dot, and one for each slash that does
/// not stand at the front. Sums stop at `usize::MAX`.
pub open spec fn raw_length(tokens: Seq<Token>, n: int) -> nat
    decreases n,
{
    if n <= 0 || n > tokens.len() {
        0
    } else {
        let before = raw_length(tokens, n - 1);
        match tokens[n - 1] {
            Token::Slash => if before != 0 {
                clamped((before + 1) as int)
            } else {
                0
            },
            Token::Dot => clamped((before + 1) as int),
            Token::Exact(text) => clamped((before + text.len()) as int),
            Token::Param(_) => clamped((before + 1) as int),
            Token::Wildcard => before,
        }
    }
}

/// The least length of a trimmed path that the tokens are tried on: the raw
/// length, less one for a leading slash, less one for a trailing slash or
/// wildcard.
pub open spec fn min_length_of(tokens: Seq<Token>) -> nat {
    let raw = raw_length(tokens, tokens.len() as int);
    let inner = if tokens.len() > 0 && tokens[0] is Slash {
        clamped(raw - 1)
    } else {
        raw
    };
    if tokens.len() > 0 && (tokens.last() is Slash || tokens.last() is Wildcard) {
        clamped(inner - 1)
    } else {
        inner
    }
}

/// The number of `Dot` tokens among the first `n`.
pub open spec fn dot_count_of(tokens: Seq<Token>, n: int) -> nat
    decreases n,
{
    if n <= 0 || n > tokens.len() {
        0
    } else if tokens[n - 1] is Dot {
        dot_count_of(tokens, n - 1) + 1
    } else {
        dot_count_of(tokens, n - 1)
    }
}

/// The number of `Dot` tokens.
pub open spec fn dots_of(tokens: Seq<Token>) -> nat {
    dot_count_of(tokens, tokens.len() as int)
}

/// What the tokens capture from `path`, or `None`: a path shorter, once
/// trimmed, than the tokens' least length is refused outright; any other is
/// walked.
pub open spec fn match_route(tokens: Seq<Token>, path: Seq<u8>) -> Option<Seq<Seq<u8>>> {
    if trim(path).len() < min_length_of(tokens) {
        None
    } else {
        match_tokens(tokens, path)
    }
}

/// How one token is written in a pattern.
pub open spec fn token_text(token: Token) -> Seq<u8> {
    match token {
        Token::Slash => seq![SLASH],
        Token::Dot => seq![DOT],
        Token::Exact(text) => text,
        Token::Param(name) => seq![COLON] + name,
        Token::Wildcard => seq![STAR],
    }
}

/// How the first `n` tokens are written: a `/`, then each token in turn.
pub open spec fn pattern_text_upto(tokens: Seq<Token>, n: int) -> Seq<u8>
    decreases n,
{
    if n <= 0 || n > tokens.len() {
        seq![SLASH]
    } else {
        pattern_text_upto(tokens, n - 1) + token_text(tokens[n - 1])
    }
}

/// How the tokens are written as a pattern.
pub open spec fn pattern_text(tokens: Seq<Token>) -> Seq<u8> {
    pattern_text_upto(tokens, tokens.len() as int)
}

/// The UTF-8 bytes of each string of a sequence.
pub open spec fn texts_of(strs: Seq<&str>) -> Seq<Seq<u8>> {
    Seq::new(strs.len(), |i: int| strs[i].spec_bytes())
}

/// The bytes of strings with one more string at the end.
pub proof fn lemma_texts_of_push(strs: Seq<&str>, s: &str)
    ensures
        texts_of(strs.push(s)) == texts_of(strs).push(s.spec_bytes()),
{
}

/// Computes the two hints of a segment sequence: its least length and its
/// number of dots.
pub fn measure(segments: &Vec<Segment>) -> (hints: (usize, usize))
    ensures
        hints.0 == min_length_of(tokens_of(segments@)),
        hints.1 == dots_of(tokens_of(segments@)),
{
    let ghost tokens = tokens_of(segments@);
    let n: usize = segments.len();
    let mut length: usize = 0;
    let mut dots: usize = 0;
    let mut i: usize = 0;
    while i < n
        invariant
            n == segments@.len(),
            tokens == tokens_of(segments@),
            i <= n,
            dots <= i,
            length == raw_length(tokens, i as int),
            dots == dot_count_of(tokens, i as int),
        decreases n - i,
    {
        match &segments[i] {
            Segment::Slash => {
                if length != 0 {
                    length = length.saturating_add(1);
                }
            },
            Segment::Dot => {
                length = length.saturating_add(1);
                dots = dots + 1;
            },
            Segment::Exact(text) => {
                length = length.saturating_add(text.as_str().as_bytes().len());
            },
            Segment::Param(_) => {
                length = length.saturating_add(1);
            },
            Segment::Wildcard => {},
        }
        i = i + 1;
    }
    if n > 0 {
        match &segments[0] {
            Segment::Slash => {
                length = length.saturating_sub(1);
            },
            _ => {},
        }
        match &segments[n - 1] {
            Segment::Slash => {
                length = length.saturating_sub(1);
            },
            Segment::Wildcard => {
                length = length.saturating_sub(1);
            },
            _ => {},
        }
    }
    (length, dots)
}

/// The route made of the given segments: it has no source text, and its
/// hints are those of the segments.
pub closed spec fn route_of(segments: Vec<Segment>) -> RouteSpec {
    RouteSpec {
        source: None,
        segments,
        min_length: min_length_of(tokens_of(segments@)) as usize,
        dot_count: dots_of(tokens_of(segments@)) as usize,
    }
}

/// A parsed route: an ordered sequence of [`Segment`]s, and the text it was
/// parsed from where there is one.
#[derive(Debug)]
pub struct RouteSpec {
    source: Option<SourceText>,
    segments: Vec<Segment>,
    min_length: usize,
    dot_count: usize,
}

impl View for RouteSpec {
    type V = Seq<Token>;

    closed spec fn view(&self) -> Seq<Token> {
        tokens_of(self.segments@)
    }
}

impl RouteSpec {
    /// The invariant of a route: its two hints are those of its segments.
    #[verifier::type_invariant]
    closed spec fn wf(&self) -> bool {
        &&& self.min_length == min_length_of(self@)
        &&& self.dot_count == dots_of(self@)
    }

    /// The characters of the text this route was parsed from.
    pub closed spec fn source_text(&self) -> Option<Seq<char>> {
        match self.source {
            Some(kept) => Some(source_chars(kept)),
            None => None,
        }
    }

    /// A route made of the given segments, with no source text.
    pub fn from_segments(segments: Vec<Segment>) -> (route: RouteSpec)
        ensures
            route == route_of(segments),
            route@ == tokens_of(segments@),
            route.source_text() is None,
    {
        let (min_length, dot_count) = measure(&segments);
        RouteSpec { source: None, segments, min_length, dot_count }
    }

    /// Parses a pattern such as `/users/:id/posts/*`.
    pub fn parse(source: &str) -> (parsed: Result<RouteSpec, ParseError>)
        ensures
            match parse_tokens(source.spec_bytes()) {
                Ok(tokens) => parsed is Ok && parsed->Ok_0@ == tokens
                    && parsed->Ok_0.source_text() == Some(source@),
                Err(fault) => parsed is Err && parsed->Err_0@ == fault,
            },
    {
        match parse_segments(source) {
            Ok(segments) => {
                let (min_length, dot_count) = measure(&segments);
                Ok(
                    RouteSpec {
                        source: Some(source_text_from(source)),
                        segments,
                        min_length,
                        dot_count,
                    },
                )
            },
            Err(e) => Err(e),
        }
    }

    /// The text this route was parsed from, if it was parsed.
    pub fn source(&self) -> (text: Option<&str>)
        ensures
            match self.source_text() {
                Some(chars) => text is Some && text->0@ == chars,
                None => text is None,
            },
    {
        match &self.source {
            Some(kept) => Some(source_text_as_str(kept)),
            None => None,
        }
    }

    /// The segments of this route.
    pub fn segments(&self) -> (segments: &[Segment])
        ensures
            tokens_of(segments@) == self@,
    {
        self.segments.as_slice()
    }

    /// This route written as a pattern, with a leading `/`.
    pub fn to_string(&self) -> (pattern: String)
        ensures
            bytes_of(pattern@) == pattern_text(self@),
    {
        let ghost tokens = tokens_of(self.segments@);
        let mut pattern = String::from_str("/");
        proof {
            lemma_slash_text();
        }
        let mut i: usize = 0;
        while i < self.segments.len()
            invariant
                tokens == tokens_of(self.segments@),
                i <= self.segments@.len(),
                bytes_of(pattern@) == pattern_text_upto(tokens, i as int),
            decreases self.segments@.len() - i,
        {
            let ghost before = pattern@;
            match &self.segments[i] {
                Segment::Slash => {
                    pattern.append("/");
                    proof {
                        lemma_slash_text();
                        lemma_bytes_of_concat(before, "/"@);
                    }
                },
                Segment::Dot => {
                    pattern.append(".");
                    proof {
                        lemma_dot_text();
                        lemma_bytes_of_concat(before, "."@);
                    }
                },
                Segment::Exact(text) => {
                    pattern.append(text.as_str());
                    proof {
                        lemma_bytes_of_concat(before, text@);
                    }
                },
                Segment::Param(name) => {
                    pattern.append(":");
                    pattern.append(name.as_str());
                    proof {
                        lemma_colon_text();
                        lemma_bytes_of_concat(before, ":"@);
                        lemma_bytes_of_concat(before + ":"@, name@);
                        assert((bytes_of(before) + seq![COLON]) + bytes_of(name@) =~= bytes_of(
                            before,
                        ) + (seq![COLON] + bytes_of(name@)));
                    }
                },
                Segment::Wildcard => {
                    pattern.append("*");
                    proof {
                        lemma_star_text();
                        lemma_bytes_of_concat(before, "*"@);
                    }
                },
            }
            i = i + 1;
        }
        pattern
    }

    /// The number of `Dot` segments of this route.
    pub fn dots(&self) -> (count: usize)
        ensures
            count == dots_of(self@),
    {
        proof {
            use_type_invariant(self);
        }
        self.dot_count
    }

    /// Whether this route can be matched: see [`well_formed`].
    pub fn is_well_formed(&self) -> (yes: bool)
        ensures
            yes == well_formed(self@),
    {
        let ghost tokens = tokens_of(self.segments@);
        let n: usize = self.segments.len();
        let mut i: usize = 0;
        while i < n
            invariant
                n == self.segments@.len(),
                tokens == tokens_of(self.segments@),
                i <= n,
                forall|j: int| 0 <= j < i ==> #[trigger] well_placed(tokens, j),
            decreases n - i,
        {
            let last: bool = i + 1 == n;
            match &self.segments[i] {
                Segment::Wildcard => {
                    if !last {
                        assert(!well_placed(tokens, i as int));
                        return false;
                    }
                },
                Segment::Param(_) => {
                    if !last {
                        match &self.segments[i + 1] {
                            Segment::Slash => {},
                            Segment::Dot => {},
                            _ => {
                                assert(!well_placed(tokens, i as int));
                                return false;
                            },
                        }
                    }
                },
                _ => {},
            }
            i = i + 1;
        }
        true
    }

    /// The captures of this route on `path`, in the order of its parameters
    /// and wildcard, or `None` when the route does not match the path.
    pub fn matches<'p>(&self, path: &'p str) -> (found: Option<Vec<&'p str>>)
        requires
            well_formed(self@),
        ensures
            match match_route(self@, path.spec_bytes()) {
                Some(captures) => found is Some && texts_of(found->0@) == captures,
                None => found is None,
            },
    {
        proof {
            use_type_invariant(self);
        }
        let trimmed = trim_str(path);
        let bytes = trimmed.as_bytes();
        if bytes.len() < self.min_length {
            return None;
        }
        let ghost tokens = tokens_of(self.segments@);
        let n: usize = self.segments.len();
        let mut captures: Vec<&'p str> = Vec::new();
        let mut pos: usize = 0;
        let mut i: usize = 0;
        proof {
            lemma_bytes_of_valid(trimmed@);
            lemma_boundary_at_ends(bytes@);
            let start = walk(tokens, 0, bytes@, 0);
            if start is Some {
                assert(Seq::<Seq<u8>>::empty() + start->0.captures =~= start->0.captures);
            }
        }
        while i < n
            invariant
                n == self.segments@.len(),
                tokens == tokens_of(self.segments@),
                well_formed(tokens),
                bytes@ == trimmed.spec_bytes(),
                bytes@ == trim(path.spec_bytes()),
                i <= n,
                pos <= bytes@.len(),
                is_char_boundary(bytes@, pos as int),
                walk(tokens, 0, bytes@, 0) == resume(
                    texts_of(captures@),
                    walk(tokens, i as int, bytes@, pos as int),
                ),
            decreases n - i,
        {
            let ghost before = texts_of(captures@);
            let ghost taken = step(tokens, i as int, bytes@, pos as int);
            match advance(&self.segments, i, trimmed, pos, &mut captures) {
                None => {
                    return None;
                },
                Some(end) => {
                    proof {
                        let s = taken->0;
                        if s.captured is Some {
                            lemma_resume_capture(
                                before,
                                s.captured->0,
                                walk(tokens, i + 1, bytes@, s.end),
                            );
                        }
                    }
                    pos = end;
                },
            }
            i = i + 1;
        }
        if pos == bytes.len() {
            Some(captures)
        } else {
            None
        }
    }
}

impl Clone for RouteSpec {
    /// A route with the same segments and the same source text.
    fn clone(&self) -> (copy: RouteSpec)
        ensures
            copy@ == self@,
            copy.source_text() == self.source_text(),
    {
        proof {
            use_type_invariant(self);
        }
        let n: usize = self.segments.len();
        let mut segments: Vec<Segment> = Vec::new();
        let mut i: usize = 0;
        while i < n
            invariant
                n == self.segments@.len(),
                i <= n,
                segments@.len() == i,
                forall|j: int| 0 <= j < i ==> segments@[j]@ == self.segments@[j]@,
            decreases n - i,
        {
            segments.push(self.segments[i].clone());
            i = i + 1;
        }
        assert(tokens_of(segments@) =~= tokens_of(self.segments@));
        let source = match &self.source {
            Some(kept) => Some(source_text_copy(kept)),
            None => None,
        };
        RouteSpec { source, segments, min_length: self.min_length, dot_count: self.dot_count }
    }
}

impl From<Vec<Segment>> for RouteSpec {
    /// A route made of the given segments: see [`RouteSpec::from_segments`].
    fn from(segments: Vec<Segment>) -> (route: RouteSpec) {
        RouteSpec::from_segments(segments)
    }
}

impl vstd::std_specs::convert::FromSpecImpl<Vec<Segment>> for RouteSpec {
    open spec fn obeys_from_spec() -> bool {
        true
    }

    open spec fn from_spec(segments: Vec<Segment>) -> RouteSpec {
        route_of(segments)
    }
}

impl std::str::FromStr for RouteSpec {
    type Err = ParseError;

    /// Parses a pattern: see [`RouteSpec::parse`].
    fn from_str(source: &str) -> (parsed: Result<RouteSpec, ParseError>)
        ensures
            match parse_tokens(source.spec_bytes()) {
                Ok(tokens) => parsed is Ok && parsed->Ok_0@ == tokens
                    && parsed->Ok_0.source_text() == Some(source@),
                Err(fault) => parsed is Err && parsed->Err_0@ == fault,
            },
    {
        RouteSpec::parse(source)
    }
}

/// Matches the segment at index `i` against `trimmed` at index `pos`: the
/// index after it, with what it captured pushed onto `captures`, or `None`
/// when it does not match there.
fn advance<'p>(
    segments: &Vec<Segment>,
    i: usize,
    trimmed: &'p str,
    pos: usize,
    captures: &mut Vec<&'p str>,
) -> (next: Option<usize>)
    requires
        i < segments@.len(),
        well_formed(tokens_of(segments@)),
        pos <= trimmed.spec_bytes().len(),
        is_char_boundary(trimmed.spec_bytes(), pos as int),
    ensures
        match step(tokens_of(segments@), i as int, trimmed.spec_bytes(), pos as int) {
            None => next is None,
            Some(s) => {
                &&& next is Some
                &&& next->0 == s.end
                &&& pos <= s.end <= trimmed.spec_bytes().len()
                &&& is_char_boundary(trimmed.spec_bytes(), s.end)
                &&& texts_of(final(captures)@) == match s.captured {
                    Some(part) => texts_of(old(captures)@).push(part),
                    None => texts_of(old(captures)@),
                }
            },
        },
{
    let bytes = trimmed.as_bytes();
    let ghost tokens = tokens_of(segments@);
    let n: usize = segments.len();
    let last: bool = i + 1 == n;
    proof {
        lemma_bytes_of_valid(trimmed@);
        assert(well_placed(tokens, i as int));
        crate::text::lemma_next_of(bytes@, pos as int, DOT, SLASH);
        crate::text::lemma_next_of(bytes@, pos as int, SLASH, SLASH);
        lemma_slash_run_end(bytes@, pos as int);
        lemma_boundary_at_ends(bytes@);
    }
    match &segments[i] {
        Segment::Exact(text) => {
            let needle = text.as_str().as_bytes();
            if !starts_with_at(bytes, pos, needle) {
                return None;
            }
            proof {
                lemma_bytes_of_valid(text@);
                lemma_boundary_after_text(bytes@, pos as int, needle@);
            }
            assert(pos + needle@.len() <= bytes.len());
            Some(pos + needle.len())
        },
        Segment::Param(_) => {
            if pos >= bytes.len() {
                return None;
            }
            let before_dot: bool = if last {
                false
            } else {
                match &segments[i + 1] {
                    Segment::Dot => true,
                    _ => false,
                }
            };
            let end: usize = if before_dot {
                find_either(bytes, pos, DOT, SLASH)
            } else {
                find_byte(bytes, pos, SLASH)
            };
            if before_dot && !(end < bytes.len() && bytes[end] == DOT) {
                return None;
            }
            proof {
                if end < bytes@.len() {
                    lemma_boundary_at_ascii(bytes@, end as int);
                }
            }
            let part = substr(trimmed, pos, end);
            proof {
                lemma_texts_of_push(captures@, part);
            }
            captures.push(part);
            Some(end)
        },
        Segment::Wildcard => {
            let part = substr(trimmed, pos, bytes.len());
            proof {
                lemma_texts_of_push(captures@, part);
            }
            captures.push(part);
            Some(bytes.len())
        },
        Segment::Slash => {
            let end = skip_slashes(bytes, pos);
            let before_wildcard: bool = if last {
                false
            } else {
                match &segments[i + 1] {
                    Segment::Wildcard => true,
                    _ => false,
                }
            };
            proof {
                lemma_boundary_after_ascii(bytes@, pos as int, end as int);
            }
            if last {
                if end != pos {
                    return None;
                }
                Some(pos)
            } else if end > pos || before_wildcard {
                Some(end)
            } else {
                None
            }
        },
        Segment::Dot => {
            if !(pos < bytes.len() && bytes[pos] == DOT) {
                return None;
            }
            proof {
                lemma_boundary_at_ascii(bytes@, pos as int);
            }
            Some(pos + 1)
        },
    }
}

/// A route matches a path with a `/` put after it, or before it, exactly as
/// it matches the path itself.
pub proof fn lemma_match_ignores_outer_slash(tokens: Seq<Token>, path: Seq<u8>)
    ensures
        match_route(tokens, path.push(SLASH)) == match_route(tokens, path),
        match_route(tokens, seq![SLASH] + path) == match_route(tokens, path),
{
    crate::text::lemma_trim_outer_slash(path);
}

/// A match has one capture for each parameter and wildcard of the route, in
/// the order of the route: the k-th capture of every match belongs to the
/// k-th capturing segment.
pub proof fn lemma_match_capture_count(tokens: Seq<Token>, path: Seq<u8>)
    ensures
        match_route(tokens, path) is Some ==> match_route(tokens, path)->0.len()
            == crate::route_match::slots(tokens, tokens.len() as int),
{
    crate::matching::lemma_walk_capture_count(tokens, 0, trim(path), 0);
}

/// The route `*` matches every path, and its wildcard captures the whole
/// path without its outer `/`.
pub proof fn lemma_wildcard_takes_all(path: Seq<u8>)
    ensures
        match_route(seq![Token::Wildcard], path) == Some(seq![trim(path)]),
{
    let tokens = seq![Token::Wildcard];
    let trimmed = trim(path);
    crate::text::lemma_trim(path);
    assert(raw_length(tokens, 0) == 0);
    let w = walk(tokens, 0, trimmed, 0);
    assert(walk(tokens, 1, trimmed, trimmed.len() as int) is Some);
    assert(trimmed.subrange(0, trimmed.len() as int) =~= trimmed);
    assert(w->0.captures =~= seq![trimmed]);
}

} // verus!
