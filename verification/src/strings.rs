//! Strings as UTF-8: the bytes of a string, and slicing a `&str` at positions
//! that are proved to be character boundaries.

use crate::text::{lemma_trim, trim, trim_bounds, COLON, DOT, SLASH, STAR};
use vstd::prelude::*;
use vstd::string::StringSliceAdditionalSpecFns;
use vstd::utf8::*;

verus! {

/// The UTF-8 bytes of a string.
pub open spec fn bytes_of(chars: Seq<char>) -> Seq<u8> {
    encode_utf8(chars)
}

/// The encoding of any string is valid UTF-8.
pub proof fn lemma_bytes_of_valid(chars: Seq<char>)
    ensures
        valid_utf8(bytes_of(chars)),
{
    encode_utf8_valid_utf8(chars);
}

/// Two strings with the same UTF-8 bytes are the same string.
pub proof fn lemma_bytes_of_injective(a: Seq<char>, b: Seq<char>)
    requires
        bytes_of(a) == bytes_of(b),
    ensures
        a == b,
{
    encode_utf8_decode_utf8(a);
    encode_utf8_decode_utf8(b);
}

/// Encoding distributes over concatenation.
pub proof fn lemma_bytes_of_concat(a: Seq<char>, b: Seq<char>)
    ensures
        bytes_of(a + b) == bytes_of(a) + bytes_of(b),
    decreases a.len(),
{
    if a.len() > 0 {
        assert((a + b).drop_first() =~= a.drop_first() + b);
        lemma_bytes_of_concat(a.drop_first(), b);
    }
}

/// A string of one ASCII character encodes as that one byte.
pub proof fn lemma_bytes_of_ascii(c: char)
    requires
        (c as u32) < 128,
    ensures
        bytes_of(seq![c]) == seq![c as u8],
{
    let chars = seq![c];
    is_ascii_chars_encode_utf8(chars);
}

/// The string `/` is the byte `/`.
pub proof fn lemma_slash_text()
    ensures
        bytes_of("/"@) == seq![SLASH],
{
    reveal_strlit("/");
    assert("/"@ =~= seq!['/']);
    lemma_bytes_of_ascii('/');
}

/// The string `.` is the byte `.`.
pub proof fn lemma_dot_text()
    ensures
        bytes_of("."@) == seq![DOT],
{
    reveal_strlit(".");
    assert("."@ =~= seq!['.']);
    lemma_bytes_of_ascii('.');
}

/// The string `:` is the byte `:`.
pub proof fn lemma_colon_text()
    ensures
        bytes_of(":"@) == seq![COLON],
{
    reveal_strlit(":");
    assert(":"@ =~= seq![':']);
    lemma_bytes_of_ascii(':');
}

/// The string `*` is the byte `*`.
pub proof fn lemma_star_text()
    ensures
        bytes_of("*"@) == seq![STAR],
{
    reveal_strlit("*");
    assert("*"@ =~= seq!['*']);
    lemma_bytes_of_ascii('*');
}

/// The empty string has no bytes.
pub proof fn lemma_empty_text()
    ensures
        bytes_of(""@) == Seq::<u8>::empty(),
{
    reveal_strlit("");
}

/// In valid UTF-8, the end of a prefix that is itself valid UTF-8 is a
/// character boundary.
pub proof fn lemma_valid_prefix_is_boundary(s: Seq<u8>, k: int)
    requires
        valid_utf8(s),
        0 <= k <= s.len(),
        valid_utf8(s.subrange(0, k)),
    ensures
        is_char_boundary(s, k),
    decreases s.len(),
{
    if k > 0 {
        let p = s.subrange(0, k);
        let n = length_of_first_scalar(p);
        assert(pop_first_scalar(p) =~= pop_first_scalar(s).subrange(0, k - n));
        lemma_valid_prefix_is_boundary(pop_first_scalar(s), k - n);
    }
}

/// The ends of a valid UTF-8 sequence are character boundaries.
pub proof fn lemma_boundary_at_ends(s: Seq<u8>)
    requires
        valid_utf8(s),
    ensures
        is_char_boundary(s, 0),
        is_char_boundary(s, s.len() as int),
{
    is_char_boundary_start_end_of_seq(s);
}

/// In valid UTF-8, an index that holds an ASCII byte is a character boundary,
/// and so is the index after it.
pub proof fn lemma_boundary_at_ascii(s: Seq<u8>, at: int)
    requires
        valid_utf8(s),
        0 <= at < s.len(),
        s[at] < 128,
    ensures
        is_char_boundary(s, at),
        is_char_boundary(s, at + 1),
{
    utf8_byte_ranges_bitwise(s[at]);
    is_char_boundary_iff_not_is_continuation_byte(s, at);
    lemma_boundary_after_ascii(s, at, at + 1);
}

/// A position of valid UTF-8 that follows a character boundary by a run of
/// ASCII bytes is a character boundary.
pub proof fn lemma_boundary_after_ascii(s: Seq<u8>, from: int, to: int)
    requires
        valid_utf8(s),
        0 <= from <= to <= s.len(),
        is_char_boundary(s, from),
        forall|j: int| from <= j < to ==> s[j] < 128,
    ensures
        is_char_boundary(s, to),
{
    valid_utf8_split(s, from);
    assert forall|i: int| 0 <= from <= i < to <= s.len() implies #[trigger] is_leading_byte_width_1(
        s[i],
    ) by {
        utf8_byte_ranges_bitwise(s[i]);
    }
    partial_valid_utf8_extend_ascii_block(s, from, to);
    lemma_valid_prefix_is_boundary(s, to);
}

/// A position of valid UTF-8 that follows a character boundary by a whole
/// valid string is a character boundary.
pub proof fn lemma_boundary_after_text(s: Seq<u8>, from: int, text: Seq<u8>)
    requires
        valid_utf8(s),
        valid_utf8(text),
        0 <= from,
        from + text.len() <= s.len(),
        is_char_boundary(s, from),
        s.subrange(from, from + text.len()) == text,
    ensures
        is_char_boundary(s, from + text.len()),
{
    valid_utf8_split(s, from);
    valid_utf8_concat(s.subrange(0, from), text);
    assert(s.subrange(0, from) + text =~= s.subrange(0, from + text.len()));
    lemma_valid_prefix_is_boundary(s, from + text.len());
}

/// The part of `s` between two character boundaries, as a `&str`.
pub fn substr<'a>(s: &'a str, from: usize, to: usize) -> (part: &'a str)
    requires
        from <= to <= s.spec_bytes().len(),
        is_char_boundary(s.spec_bytes(), from as int),
        is_char_boundary(s.spec_bytes(), to as int),
    ensures
        part.spec_bytes() == s.spec_bytes().subrange(from as int, to as int),
{
    broadcast use encode_utf8_valid_utf8;

    let (head, _) = s.split_at(to);
    proof {
        let whole = s.spec_bytes();
        valid_utf8_split(whole, to as int);
        valid_utf8_split(whole, from as int);
        assert(head.spec_bytes().subrange(0, from as int) =~= whole.subrange(0, from as int));
        lemma_valid_prefix_is_boundary(head.spec_bytes(), from as int);
    }
    let (_, part) = head.split_at(from);
    part
}

/// The part of `s` without its leading and trailing `/`.
pub fn trim_str<'a>(s: &'a str) -> (part: &'a str)
    ensures
        part.spec_bytes() == trim(s.spec_bytes()),
{
    let bytes = s.as_bytes();
    let (start, end) = trim_bounds(bytes);
    proof {
        let b = s.spec_bytes();
        lemma_bytes_of_valid(s@);
        lemma_trim(b);
        lemma_boundary_at_ends(b);
        lemma_boundary_after_ascii(b, 0, start as int);
        if end < b.len() {
            lemma_boundary_at_ascii(b, end as int);
        }
    }
    substr(s, start, end)
}

} // verus!
