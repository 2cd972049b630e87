//! The grammar of route patterns: how a pattern string is cut into sections
//! and which tokens each section gives.

use crate::segment::{Segment, Token};
use crate::strings::{
    bytes_of, lemma_boundary_at_ascii, lemma_boundary_at_ends, lemma_bytes_of_ascii,
    lemma_bytes_of_concat, lemma_bytes_of_valid, substr, trim_str,
};
use crate::text::{
    lemma_next_of_unique, next_of, positions_of_either, trim, COLON, DOT, SLASH, STAR,
};
use vstd::prelude::*;
use vstd::string::StringExecFns;
use vstd::string::StringSliceAdditionalSpecFns;
use vstd::utf8::*;

verus! {

/// Why a pattern was refused, in contracts.
pub enum ParseFault {
    /// A section that starts with `*` and goes on: the section's bytes.
    NamedWildcard(Seq<u8>),
    /// A section that is `:` alone.
    UnnamedParam,
}

/// Why a pattern was refused.
#[derive(Debug)]
pub enum ParseError {
    /// A wildcard followed by more text, such as `*rest`. Holds that text,
    /// the `*` included.
    NamedWildcard(String),
    /// A parameter without a name: `:` alone.
    UnnamedParam,
}

impl View for ParseError {
    type V = ParseFault;

    open spec fn view(&self) -> ParseFault {
        match self {
            ParseError::NamedWildcard(section) => ParseFault::NamedWildcard(bytes_of(section@)),
            ParseError::UnnamedParam => ParseFault::UnnamedParam,
        }
    }
}

impl Clone for ParseError {
    /// An error of the same kind about the same text.
    fn clone(&self) -> (copy: ParseError)
        ensures
            copy@ == self@,
    {
        match self {
            ParseError::NamedWildcard(section) => ParseError::NamedWildcard(section.clone()),
            ParseError::UnnamedParam => ParseError::UnnamedParam,
        }
    }
}

impl ParseError {
    /// The message for this error. For a named wildcard it suggests the bare
    /// `*`.
    pub fn to_string(&self) -> (message: String)
        ensures
            message@ == match self {
                ParseError::NamedWildcard(section) =>
                    "since there can only be one wildcard, it doesn't need a name. replace `"@
                        + section@ + "` with `*`"@,
                ParseError::UnnamedParam => "params must be named"@,
            },
    {
        match self {
            ParseError::NamedWildcard(section) => {
                let mut message = String::from_str(
                    "since there can only be one wildcard, it doesn't need a name. replace `",
                );
                message.append(section.as_str());
                message.append("` with `*`");
                message
            },
            ParseError::UnnamedParam => String::from_str("params must be named"),
        }
    }
}

/// What one section of a pattern stands for.
pub enum Section {
    /// An empty section: nothing is emitted for it.
    Empty,
    /// A section that gives one token.
    One(Token),
    /// A section that the grammar refuses.
    Refused(ParseFault),
}

/// Classifies a section by its first byte and its length.
pub open spec fn classify(section: Seq<u8>) -> Section {
    if section.len() == 0 {
        Section::Empty
    } else if section[0] == STAR {
        if section.len() == 1 {
            Section::One(Token::Wildcard)
        } else {
            Section::Refused(ParseFault::NamedWildcard(section))
        }
    } else if section[0] == COLON {
        if section.len() == 1 {
            Section::Refused(ParseFault::UnnamedParam)
        } else {
            Section::One(Token::Param(section.skip(1)))
        }
    } else {
        Section::One(Token::Exact(section))
    }
}

/// The tokens after a section that follows a `.`: a dot after literal text
/// is more literal text, and so is literal text after that dot; after
/// anything else the dot is a token of its own.
pub open spec fn emit_after_dot(acc: Seq<Token>, section: Seq<u8>) -> Seq<Token> {
    if acc.len() > 0 && acc.last() is Exact {
        let text = acc.last()->Exact_0.push(DOT);
        match classify(section) {
            Section::One(Token::Exact(more)) => acc.drop_last().push(Token::Exact(text + more)),
            Section::One(t) => acc.drop_last().push(Token::Exact(text)).push(t),
            _ => acc.drop_last().push(Token::Exact(text)),
        }
    } else {
        match classify(section) {
            Section::One(t) => acc.push(Token::Dot).push(t),
            _ => acc.push(Token::Dot),
        }
    }
}

/// The tokens after one more section, given the delimiter that stands before
/// it (`None` for the first section). The section is not a refused one.
pub open spec fn emit(acc: Seq<Token>, before: Option<u8>, section: Seq<u8>) -> Seq<Token> {
    if before == Some(DOT) {
        emit_after_dot(acc, section)
    } else {
        match classify(section) {
            Section::One(t) => if before == Some(SLASH) {
                acc.push(Token::Slash).push(t)
            } else {
                acc.push(t)
            },
            _ => acc,
        }
    }
}

/// The delimiter that stands before the section starting at `from`.
pub open spec fn delimiter_before(s: Seq<u8>, from: int) -> Option<u8> {
    if 0 < from <= s.len() {
        Some(s[from - 1])
    } else {
        None
    }
}

/// Parses the sections of `s` from `from` on, onto the tokens `acc`. A
/// section runs to the next `.` or `/`, or to the end of `s`.
pub open spec fn parse_from(s: Seq<u8>, from: int, acc: Seq<Token>) -> Result<
    Seq<Token>,
    ParseFault,
>
    decreases s.len() - from,
{
    let end = next_of(s, from, DOT, SLASH);
    let section = s.subrange(from, end);
    match classify(section) {
        Section::Refused(fault) => Err(fault),
        _ => {
            let next = emit(acc, delimiter_before(s, from), section);
            if 0 <= from <= end < s.len() {
                parse_from(s, end + 1, next)
            } else {
                Ok(next)
            }
        },
    }
}

/// The tokens of a pattern, or why it is refused: the pattern is trimmed of
/// its outer `/` and parsed section by section.
pub open spec fn parse_tokens(source: Seq<u8>) -> Result<Seq<Token>, ParseFault> {
    parse_from(trim(source), 0, Seq::empty())
}

/// The tokens that a sequence of segments stands for.
pub open spec fn tokens_of(segments: Seq<Segment>) -> Seq<Token> {
    Seq::new(segments.len(), |i: int| segments[i]@)
}

/// The tokens of segments with one more segment at the end.
pub proof fn lemma_tokens_of_push(segments: Seq<Segment>, segment: Segment)
    ensures
        tokens_of(segments.push(segment)) == tokens_of(segments).push(segment@),
{
}

/// The tokens of segments without the last segment.
pub proof fn lemma_tokens_of_drop_last(segments: Seq<Segment>)
    requires
        segments.len() > 0,
    ensures
        tokens_of(segments.drop_last()) == tokens_of(segments).drop_last(),
        tokens_of(segments).last() == segments.last()@,
{
}

/// Appends a `.` to the last segment when it is literal text, else appends a
/// `Dot` segment.
fn push_dot(segments: &mut Vec<Segment>)
    ensures
        tokens_of(final(segments)@) == (if tokens_of(old(segments)@).len() > 0 && tokens_of(
            old(segments)@,
        ).last() is Exact {
            tokens_of(old(segments)@).drop_last().push(
                Token::Exact(tokens_of(old(segments)@).last()->Exact_0.push(DOT)),
            )
        } else {
            tokens_of(old(segments)@).push(Token::Dot)
        }),
{
    let ghost before = segments@;
    match segments.pop() {
        Some(Segment::Exact(text)) => {
            let mut text = text;
            let ghost head = text@;
            text.append(".");
            proof {
                reveal_strlit(".");
                assert("."@ =~= seq!['.']);
                lemma_bytes_of_ascii('.');
                lemma_bytes_of_concat(head, "."@);
                lemma_tokens_of_drop_last(before);
                lemma_tokens_of_push(before.drop_last(), Segment::Exact(text));
                assert(bytes_of(head) + seq![DOT] =~= bytes_of(head).push(DOT));
            }
            segments.push(Segment::Exact(text));
        },
        Some(other) => {
            proof {
                lemma_tokens_of_drop_last(before);
                lemma_tokens_of_push(before.drop_last(), other);
                lemma_tokens_of_push(before, Segment::Dot);
            }
            segments.push(other);
            segments.push(Segment::Dot);
        },
        None => {
            proof {
                lemma_tokens_of_push(before, Segment::Dot);
            }
            segments.push(Segment::Dot);
        },
    }
}

/// Appends literal text to the last segment when that is literal text, else
/// appends it as a segment of its own.
fn push_text(segments: &mut Vec<Segment>, more: &str)
    ensures
        tokens_of(final(segments)@) == (if tokens_of(old(segments)@).len() > 0 && tokens_of(
            old(segments)@,
        ).last() is Exact {
            tokens_of(old(segments)@).drop_last().push(
                Token::Exact(tokens_of(old(segments)@).last()->Exact_0 + more.spec_bytes()),
            )
        } else {
            tokens_of(old(segments)@).push(Token::Exact(more.spec_bytes()))
        }),
{
    let ghost before = segments@;
    match segments.pop() {
        Some(Segment::Exact(text)) => {
            let mut text = text;
            let ghost head = text@;
            text.append(more);
            proof {
                lemma_bytes_of_concat(head, more@);
                lemma_tokens_of_drop_last(before);
                lemma_tokens_of_push(before.drop_last(), Segment::Exact(text));
            }
            segments.push(Segment::Exact(text));
        },
        Some(other) => {
            let added = Segment::Exact(String::from_str(more));
            proof {
                lemma_tokens_of_drop_last(before);
                lemma_tokens_of_push(before, added);
            }
            segments.push(other);
            segments.push(added);
        },
        None => {
            let added = Segment::Exact(String::from_str(more));
            proof {
                lemma_tokens_of_push(before, added);
            }
            segments.push(added);
        },
    }
}

/// Classifies one section and appends what it gives, with the separator that
/// the delimiter before it calls for.
fn push_section(segments: &mut Vec<Segment>, before: Option<u8>, section: &str) -> (done: Result<
    (),
    ParseError,
>)
    ensures
        match classify(section.spec_bytes()) {
            Section::Refused(fault) => done is Err && done->Err_0@ == fault,
            _ => done is Ok && tokens_of(final(segments)@) == emit(
                tokens_of(old(segments)@),
                before,
                section.spec_bytes(),
            ),
        },
{
    let bytes = section.as_bytes();
    let n: usize = bytes.len();
    let after_dot: bool = match before {
        Some(b) => b == DOT,
        None => false,
    };
    let after_slash: bool = match before {
        Some(b) => b == SLASH,
        None => false,
    };
    if n == 0 {
        if after_dot {
            push_dot(segments);
        }
        return Ok(());
    }
    let first: u8 = bytes[0];
    if first == STAR && n > 1 {
        return Err(ParseError::NamedWildcard(String::from_str(section)));
    }
    if first == COLON && n == 1 {
        return Err(ParseError::UnnamedParam);
    }
    if after_dot {
        push_dot(segments);
    }
    if first == STAR {
        if after_slash {
            proof {
                lemma_tokens_of_push(segments@, Segment::Slash);
            }
            segments.push(Segment::Slash);
        }
        proof {
            lemma_tokens_of_push(segments@, Segment::Wildcard);
        }
        segments.push(Segment::Wildcard);
    } else if first == COLON {
        proof {
            lemma_bytes_of_valid(section@);
            lemma_boundary_at_ascii(section.spec_bytes(), 0);
            lemma_boundary_at_ends(section.spec_bytes());
        }
        let name = substr(section, 1, n);
        let added = Segment::Param(String::from_str(name));
        if after_slash {
            proof {
                lemma_tokens_of_push(segments@, Segment::Slash);
            }
            segments.push(Segment::Slash);
        }
        proof {
            lemma_tokens_of_push(segments@, added);
        }
        segments.push(added);
    } else if after_dot {
        push_text(segments, section);
    } else {
        let added = Segment::Exact(String::from_str(section));
        if after_slash {
            proof {
                lemma_tokens_of_push(segments@, Segment::Slash);
            }
            segments.push(Segment::Slash);
        }
        proof {
            lemma_tokens_of_push(segments@, added);
        }
        segments.push(added);
    }
    Ok(())
}

/// The segments of a pattern, or why the pattern is refused.
pub fn parse_segments(source: &str) -> (parsed: Result<Vec<Segment>, ParseError>)
    ensures
        match parse_tokens(source.spec_bytes()) {
            Ok(tokens) => parsed is Ok && tokens_of(parsed->Ok_0@) == tokens,
            Err(fault) => parsed is Err && parsed->Err_0@ == fault,
        },
{
    let trimmed = trim_str(source);
    let bytes = trimmed.as_bytes();
    let cuts = positions_of_either(DOT, SLASH, bytes);
    let mut segments: Vec<Segment> = Vec::new();
    let mut from: usize = 0;
    let mut k: usize = 0;
    proof {
        lemma_bytes_of_valid(trimmed@);
        lemma_boundary_at_ends(bytes@);
        assert(tokens_of(segments@) =~= Seq::empty());
    }
    loop
        invariant
            bytes@ == trimmed.spec_bytes(),
            valid_utf8(bytes@),
            k <= cuts@.len(),
            from <= bytes@.len(),
            k == 0 ==> from == 0,
            k > 0 ==> from == cuts@[k - 1] + 1,
            is_char_boundary(bytes@, from as int),
            forall|i: int|
                0 <= i < cuts@.len() ==> cuts@[i] < bytes@.len() && (bytes@[cuts@[i] as int] == DOT
                    || bytes@[cuts@[i] as int] == SLASH),
            forall|i: int, j: int| 0 <= i < j < cuts@.len() ==> cuts@[i] < cuts@[j],
            forall|j: int|
                0 <= j < bytes@.len() && (bytes@[j] == DOT || bytes@[j] == SLASH) ==> exists|i: int|
                    0 <= i < cuts@.len() && cuts@[i] == j,
            parse_from(bytes@, from as int, tokens_of(segments@)) == parse_tokens(
                source.spec_bytes(),
            ),
        decreases cuts@.len() - k,
    {
        let end: usize = if k < cuts.len() {
            cuts[k]
        } else {
            bytes.len()
        };
        proof {
            assert forall|j: int| from <= j < end implies bytes@[j] != DOT && bytes@[j]
                != SLASH by {
                if bytes@[j] == DOT || bytes@[j] == SLASH {
                    // a delimiter is one of the cuts, but no cut lies between
                    // the cut before this section and the cut that ends it
                    let i = choose|i: int| 0 <= i < cuts@.len() && cuts@[i] == j;
                    assert(k > 0 ==> cuts@[k - 1] < cuts@[i]);
                    assert(k < cuts@.len() ==> cuts@[i] < cuts@[k as int]);
                }
            }
            lemma_next_of_unique(bytes@, from as int, DOT, SLASH, end as int);
            if end < bytes@.len() {
                lemma_boundary_at_ascii(bytes@, end as int);
            } else {
                lemma_boundary_at_ends(bytes@);
            }
        }
        let before: Option<u8> = if from == 0 {
            None
        } else {
            Some(bytes[from - 1])
        };
        let section = substr(trimmed, from, end);
        match push_section(&mut segments, before, section) {
            Err(e) => {
                return Err(e);
            },
            Ok(_) => {},
        }
        if k == cuts.len() {
            return Ok(segments);
        }
        assert(end < bytes.len());
        from = end + 1;
        k += 1;
    }
}

/// Whether each parameter among the tokens is followed by a separator or by
/// nothing.
pub open spec fn params_placed(tokens: Seq<Token>) -> bool {
    forall|i: int|
        0 <= i < tokens.len() - 1 && (#[trigger] tokens[i]) is Param ==> tokens[i + 1] is Slash
            || tokens[i + 1] is Dot
}

/// One more section keeps each parameter before a separator.
pub proof fn lemma_emit_places_params(acc: Seq<Token>, before: Option<u8>, section: Seq<u8>)
    requires
        params_placed(acc),
        acc.len() > 0 ==> before == Some(DOT) || before == Some(SLASH),
    ensures
        params_placed(emit(acc, before, section)),
{
    let next = emit(acc, before, section);
    assert forall|i: int| 0 <= i < next.len() - 1 && (#[trigger] next[i]) is Param implies next[i
        + 1] is Slash || next[i + 1] is Dot by {
        // a section adds tokens at the end, and a separator first where the
        // tokens so far end in a parameter
        if i < acc.len() - 1 {
            assert(acc[i] is Param);
        }
    }
}

/// Parsing from `from` on keeps each parameter before a separator.
pub proof fn lemma_parse_places_params(s: Seq<u8>, from: int, acc: Seq<Token>)
    requires
        params_placed(acc),
        0 <= from <= s.len(),
        from == 0 ==> acc.len() == 0,
        from > 0 ==> s[from - 1] == DOT || s[from - 1] == SLASH,
    ensures
        parse_from(s, from, acc) is Ok ==> params_placed(parse_from(s, from, acc)->Ok_0),
    decreases s.len() - from,
{
    let end = next_of(s, from, DOT, SLASH);
    let section = s.subrange(from, end);
    crate::text::lemma_next_of(s, from, DOT, SLASH);
    if !(classify(section) is Refused) {
        let next = emit(acc, delimiter_before(s, from), section);
        lemma_emit_places_params(acc, delimiter_before(s, from), section);
        if end < s.len() {
            lemma_parse_places_params(s, end + 1, next);
        }
    }
}

/// In the tokens of a pattern each parameter is followed by a separator or by
/// nothing: the only thing that can keep a parsed pattern from being matched
/// is a wildcard before its end.
pub proof fn lemma_parsed_params_placed(source: Seq<u8>)
    ensures
        parse_tokens(source) is Ok ==> params_placed(parse_tokens(source)->Ok_0),
{
    lemma_parse_places_params(trim(source), 0, Seq::empty());
}

/// A pattern with a `/` put after it, or before it, parses exactly as the
/// pattern itself.
pub proof fn lemma_parse_ignores_outer_slash(source: Seq<u8>)
    ensures
        parse_tokens(source.push(SLASH)) == parse_tokens(source),
        parse_tokens(seq![SLASH] + source) == parse_tokens(source),
{
    crate::text::lemma_trim_outer_slash(source);
}

} // verus!
