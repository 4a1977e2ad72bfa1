//! Cutting a frame into its argument tokens.
//!
//! The tokens of a frame are the stretches of text between the occurrences of
//! the delimiter `" { "`, found from the left, one after the end of the other.

use crate::encoding::{
    lemma_boundary_after_ascii, lemma_cut_bytes, lemma_encode_concat, lemma_encode_injective,
    lemma_prefix_offsets_grow,
};
use vstd::prelude::*;
use vstd::utf8::*;

verus! {

/// The three characters that separate two tokens: space, open brace, space.
pub open spec fn delimiter() -> Seq<char> {
    seq![' ', '{', ' ']
}

/// True when the delimiter stands in `text` at index `at`.
pub open spec fn delimiter_at(text: Seq<char>, at: int) -> bool {
    &&& 0 <= at
    &&& at + delimiter().len() <= text.len()
    &&& text.subrange(at, at + delimiter().len()) =~= delimiter()
}

/// True when the delimiter stands in `text` at index `at` and nowhere before.
pub open spec fn first_delimiter_at(text: Seq<char>, at: int) -> bool {
    &&& delimiter_at(text, at)
    &&& forall|before: int| 0 <= before < at ==> !delimiter_at(text, before)
}

/// The tokens of `text`, in the order in which they stand in it.
///
/// A text without a delimiter is its own single token. Otherwise the first
/// token is what stands before the first delimiter, and the others are the
/// tokens of what stands after it. Every token is kept as it is: nothing is
/// trimmed, and a token may be empty.
pub open spec fn tokens(text: Seq<char>) -> Seq<Seq<char>>
    decreases text.len(),
{
    if exists|at: int| first_delimiter_at(text, at) {
        let at = choose|at: int| first_delimiter_at(text, at);
        seq![text.take(at)] + tokens(text.skip(at + delimiter().len()))
    } else {
        seq![text]
    }
}

/// The tokens written one after the other, with a delimiter between each two.
pub open spec fn joined(parts: Seq<Seq<char>>) -> Seq<char>
    decreases parts.len(),
{
    if parts.len() == 0 {
        Seq::empty()
    } else if parts.len() == 1 {
        parts[0]
    } else {
        parts[0] + delimiter() + joined(parts.drop_first())
    }
}

/// Where a delimiter stands at all, one stands first.
pub proof fn lemma_first_delimiter_exists(text: Seq<char>, at: int)
    requires
        delimiter_at(text, at),
    ensures
        exists|first: int| 0 <= first <= at && first_delimiter_at(text, first),
    decreases at,
{
    if exists|before: int| 0 <= before < at && delimiter_at(text, before) {
        let before = choose|before: int| 0 <= before < at && delimiter_at(text, before);
        lemma_first_delimiter_exists(text, before);
    } else {
        assert(first_delimiter_at(text, at));
    }
}

/// The tokens of a text whose first delimiter stands at `at`.
pub proof fn lemma_tokens_cut(text: Seq<char>, at: int)
    requires
        first_delimiter_at(text, at),
    ensures
        tokens(text) == seq![text.take(at)] + tokens(text.skip(at + delimiter().len())),
{
}

/// A text in which no delimiter stands is a single token.
pub proof fn lemma_tokens_whole(text: Seq<char>)
    requires
        forall|at: int| !delimiter_at(text, at),
    ensures
        tokens(text) == seq![text],
{
}

/// A text has at least one token.
pub proof fn lemma_tokens_not_empty(text: Seq<char>)
    ensures
        tokens(text).len() >= 1,
{
}

/// The tokens hold the whole text, in order and unchanged: written one after
/// the other with a delimiter between each two, they give the text back.
pub proof fn lemma_tokens_join(text: Seq<char>)
    ensures
        joined(tokens(text)) == text,
    decreases text.len(),
{
    if exists|at: int| first_delimiter_at(text, at) {
        let at = choose|at: int| first_delimiter_at(text, at);
        let tail = text.skip(at + delimiter().len());
        lemma_tokens_join(tail);
        assert(tokens(text).drop_first() =~= tokens(tail));
    }
}

/// No token holds a delimiter.
pub proof fn lemma_tokens_hold_no_delimiter(text: Seq<char>, index: int, at: int)
    requires
        0 <= index < tokens(text).len(),
    ensures
        !delimiter_at(tokens(text)[index], at),
    decreases text.len(),
{
    if exists|cut: int| first_delimiter_at(text, cut) {
        let cut = choose|cut: int| first_delimiter_at(text, cut);
        if index == 0 {
            if delimiter_at(text.take(cut), at) {
                assert(delimiter_at(text, at));
            }
        } else {
            lemma_tokens_hold_no_delimiter(text.skip(cut + delimiter().len()), index - 1, at);
        }
    } else {
        if delimiter_at(text, at) {
            lemma_first_delimiter_exists(text, at);
        }
    }
}

/// A text that does not begin with a space begins its own first token: the
/// first token of a frame keeps the kind code.
pub proof fn lemma_first_token_keeps_start(text: Seq<char>)
    requires
        text.len() > 0,
        text[0] != ' ',
    ensures
        tokens(text)[0].len() > 0,
        tokens(text)[0][0] == text[0],
{
}

/// The byte that encodes a space.
const SPACE: u8 = 0x20;

/// The byte that encodes an open brace.
const OPEN_BRACE: u8 = 0x7b;

/// The number of bytes that encode the delimiter.
const DELIMITER_LEN: usize = 3;

/// True when the bytes of the delimiter stand in `bytes` at index `at`.
spec fn delimiter_bytes_at(bytes: Seq<u8>, at: int) -> bool {
    &&& 0 <= at
    &&& at + DELIMITER_LEN <= bytes.len()
    &&& bytes[at] == SPACE
    &&& bytes[at + 1] == OPEN_BRACE
    &&& bytes[at + 2] == SPACE
}

/// The delimiter is encoded by its three ASCII codes.
proof fn lemma_encode_delimiter()
    ensures
        encode_utf8(delimiter()) == seq![SPACE, OPEN_BRACE, SPACE],
{
    is_ascii_chars_encode_utf8(delimiter());
}

/// A delimiter among the characters of a text stands among its bytes too,
/// where the bytes of the characters before it end.
proof fn lemma_delimiter_in_bytes(text: Seq<char>, at: int)
    requires
        delimiter_at(text, at),
    ensures
        delimiter_bytes_at(encode_utf8(text), encode_utf8(text.take(at)).len() as int),
{
    let before = text.take(at);
    let after = text.skip(at + delimiter().len());
    assert(text =~= before + delimiter() + after);
    lemma_encode_concat(before + delimiter(), after);
    lemma_encode_concat(before, delimiter());
    lemma_encode_delimiter();
}

/// Where no delimiter stands among the bytes before the end of the first
/// `count` characters, none stands among the characters before index `count`.
proof fn lemma_no_delimiter_before(text: Seq<char>, count: int)
    requires
        0 <= count <= text.len(),
        forall|p: int|
            0 <= p < encode_utf8(text.take(count)).len() ==> !delimiter_bytes_at(
                encode_utf8(text),
                p,
            ),
    ensures
        forall|at: int| 0 <= at < count ==> !delimiter_at(text, at),
{
    assert forall|at: int| 0 <= at < count implies !delimiter_at(text, at) by {
        if delimiter_at(text, at) {
            lemma_delimiter_in_bytes(text, at);
            lemma_prefix_offsets_grow(text, at, count);
        }
    }
}

/// The texts of a list of string slices, each seen by its characters.
pub open spec fn texts(slices: Seq<&str>) -> Seq<Seq<char>> {
    Seq::new(slices.len(), |i: int| slices[i]@)
}

/// Cuts `s` into its tokens. Each token borrows from `s`; nothing is copied.
pub fn split_args<'a>(s: &'a str) -> (args: Vec<&'a str>)
    ensures
        texts(args@) == tokens(s@),
{
    let mut args: Vec<&'a str> = Vec::new();
    let mut rest: &'a str = s;
    let mut bytes: &[u8] = rest.as_bytes();
    let mut at: usize = 0;
    while bytes.len() - at >= DELIMITER_LEN
        invariant
            bytes@ == encode_utf8(rest@),
            at <= bytes@.len(),
            texts(args@) + tokens(rest@) == tokens(s@),
            forall|p: int| 0 <= p < at ==> !delimiter_bytes_at(bytes@, p),
        decreases bytes@.len() - at,
    {
        if bytes[at] == SPACE && bytes[at + 1] == OPEN_BRACE && bytes[at + 2] == SPACE {
            proof {
                encode_utf8_valid_utf8(rest@);
                is_char_boundary_iff_not_is_continuation_byte(bytes@, at as int);
            }
            let (head, tail) = rest.split_at(at);
            proof {
                encode_utf8_valid_utf8(tail@);
                lemma_boundary_after_ascii(encode_utf8(tail@), DELIMITER_LEN as int);
            }
            let (mark, after) = tail.split_at(DELIMITER_LEN);
            proof {
                let count = head@.len() as int;
                lemma_cut_bytes(rest@, head@, tail@, at as int);
                lemma_cut_bytes(tail@, mark@, after@, DELIMITER_LEN as int);
                lemma_encode_delimiter();
                assert(encode_utf8(mark@) =~= encode_utf8(delimiter()));
                lemma_encode_injective(mark@, delimiter());
                assert(rest@.take(count) =~= head@);
                assert(rest@.skip(count + delimiter().len()) =~= after@);
                lemma_no_delimiter_before(rest@, count);
                lemma_tokens_cut(rest@, count);
            }
            args.push(head);
            rest = after;
            bytes = rest.as_bytes();
            at = 0;
        } else {
            at = at + 1;
        }
    }
    proof {
        assert forall|j: int| !delimiter_at(rest@, j) by {
            if delimiter_at(rest@, j) {
                lemma_delimiter_in_bytes(rest@, j);
            }
        }
    }
    args.push(rest);
    args
}

} // verus!
