//! Decoding an input as text.

use vstd::prelude::*;
use vstd::string::StringSliceAdditionalSpecFns;
use vstd::utf8::{encode_scalar, encode_utf8, valid_utf8};
use crate::lines::{
    ends_unterminated, lemma_line_count_by_newlines, lemma_newline_count_unfolds, line_count,
    newline_count, NEWLINE,
};

verus! {

/// The error of `core::str::from_utf8`; nothing in it is read here.
#[verifier::external_type_specification]
#[verifier::external_body]
pub struct ExUtf8Error(core::str::Utf8Error);

/// `core::str::from_utf8` accepts exactly the byte sequences that are
/// well-formed UTF-8, and the string slice it then returns is made of the
/// very bytes it was given.
pub assume_specification[ core::str::from_utf8 ](v: &[u8]) -> (r: Result<
    &str,
    core::str::Utf8Error,
>)
    ensures
        r is Ok <==> valid_utf8(v@),
        r matches Ok(text) ==> text.spec_bytes() == v@,
;

/// A text has no more characters than its encoding has bytes.
pub proof fn lemma_chars_within_bytes(t: Seq<char>)
    ensures
        t.len() <= encode_utf8(t).len(),
    decreases t.len(),
{
    if t.len() > 0 {
        lemma_chars_within_bytes(t.drop_first());
        assert(encode_scalar(t[0] as u32).len() >= 1);
    }
}

/// The line feed character, which the newline byte encodes.
pub const LINE_FEED: char = '\n';

/// The encoding of a text in two parts is the encodings of the parts, one
/// after the other.
pub proof fn lemma_encoding_of_parts(a: Seq<char>, b: Seq<char>)
    ensures
        encode_utf8(a + b) == encode_utf8(a) + encode_utf8(b),
    decreases a.len(),
{
    if a.len() == 0 {
        assert(a + b =~= b);
        assert(encode_utf8(a) + encode_utf8(b) =~= encode_utf8(b));
    } else {
        lemma_encoding_of_parts(a.drop_first(), b);
        assert((a + b).drop_first() =~= a.drop_first() + b);
        assert(encode_utf8(a + b) =~= encode_utf8(a) + encode_utf8(b));
    }
}

/// The newline byte stands for the line feed and occurs in the encoding of
/// no other character.
pub proof fn lemma_newline_encodes_line_feed(c: char)
    ensures
        encode_scalar(c as u32).len() > 0,
        encode_scalar(c as u32).last() == NEWLINE <==> c == LINE_FEED,
        newline_count(encode_scalar(c as u32)) == if c == LINE_FEED {
            1nat
        } else {
            0nat
        },
{
    let v = c as u32;
    let e = encode_scalar(v);
    assert(v <= 0x7F ==> ((v & 0x7F) as u8 == 0x0Au8 <==> v == 0x0Au32)) by (bit_vector);
    assert((0xC0u8 | ((v >> 6) & 0x1F) as u8) != 0x0Au8) by (bit_vector);
    assert((0xE0u8 | ((v >> 12) & 0x0F) as u8) != 0x0Au8) by (bit_vector);
    assert((0xF0u8 | ((v >> 18) & 0x7) as u8) != 0x0Au8) by (bit_vector);
    assert((0x80u8 | (v & 0x3F) as u8) != 0x0Au8) by (bit_vector);
    assert((0x80u8 | ((v >> 6) & 0x3F) as u8) != 0x0Au8) by (bit_vector);
    assert((0x80u8 | ((v >> 12) & 0x3F) as u8) != 0x0Au8) by (bit_vector);
    if v <= 0x7F {
        lemma_newline_count_unfolds(e);
        assert(e.drop_first() =~= Seq::<u8>::empty());
        vstd::seq_lib::to_multiset_len(e.drop_first());
    } else {
        assert(!e.contains(NEWLINE));
        vstd::seq_lib::to_multiset_contains(e, NEWLINE);
    }
}

/// The encoding of a text holds as many newline bytes as the text holds
/// line feeds, and ends in one exactly where the text ends in a line feed.
pub proof fn lemma_newlines_of_text(t: Seq<char>)
    ensures
        newline_count(encode_utf8(t)) == t.to_multiset().count(LINE_FEED),
        encode_utf8(t).len() > 0 <==> t.len() > 0,
        ends_unterminated(encode_utf8(t)) <==> t.len() > 0 && t.last() != LINE_FEED,
    decreases t.len(),
{
    broadcast use vstd::multiset::group_multiset_axioms;

    if t.len() == 0 {
        vstd::seq_lib::to_multiset_len(t);
        vstd::seq_lib::to_multiset_len(encode_utf8(t));
    } else {
        let front = t.drop_last();
        let last = encode_scalar(t.last() as u32);
        lemma_newlines_of_text(front);
        lemma_newline_encodes_line_feed(t.last());
        let end = seq![t.last()];
        assert(t =~= front + end);
        lemma_encoding_of_parts(front, end);
        assert(encode_utf8(end) =~= last) by {
            assert(end.drop_first() =~= Seq::<char>::empty());
            assert(encode_utf8(end.drop_first()) =~= Seq::<u8>::empty());
            assert(encode_utf8(end) == encode_scalar(end[0] as u32) + encode_utf8(
                end.drop_first(),
            ));
        }
        assert(encode_utf8(t) == encode_utf8(front) + last);
        vstd::seq_lib::lemma_multiset_commutative(encode_utf8(front), last);
        assert(t =~= front.push(t.last()));
        vstd::seq_lib::to_multiset_build(front, t.last());
    }
}

/// Counting lines by bytes counts the lines of a text: its encoding has as
/// many lines as the text holds line feeds, and one more where characters
/// follow the last line feed.
pub proof fn lemma_line_count_of_text(t: Seq<char>)
    ensures
        line_count(encode_utf8(t)) == t.to_multiset().count(LINE_FEED) + if t.len() > 0
            && t.last() != LINE_FEED {
            1nat
        } else {
            0nat
        },
{
    lemma_newlines_of_text(t);
    lemma_line_count_by_newlines(encode_utf8(t));
}

} // verus!
