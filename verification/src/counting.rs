//! The three counting operations.

use vstd::prelude::*;
use crate::lines::{is_line_start, line_count, lines_from, NEWLINE};
use crate::text::lemma_chars_within_bytes;
use crate::whitespace::{is_whitespace, white_space};
use crate::words::{is_word_start, word_count, words_from};

verus! {

/// Number of bytes in `source`. Nothing is decoded: any content counts.
pub fn count_bytes(source: &[u8]) -> (n: usize)
    ensures
        n == source@.len(),
{
    source.len()
}

/// Number of lines in `source`: one for each newline, and one more where
/// bytes follow the last newline.
pub fn count_lines(source: &[u8]) -> (n: usize)
    ensures
        n == line_count(source@),
{
    let mut n: usize = 0;
    let mut after_newline = true;
    for i in 0..source.len()
        invariant
            n <= i,
            after_newline == (i == 0 || source@[i - 1] == NEWLINE),
            n + lines_from(source@, i as int).len() == line_count(source@),
    {
        if after_newline {
            assert(is_line_start(source@, i as int));
            n = n + 1;
        }
        after_newline = source[i] == NEWLINE;
    }
    n
}

/// Number of words in `text`: its maximal runs of characters that are not
/// whitespace.
pub fn count_words(text: &str) -> (n: usize)
    ensures
        n == word_count(text@),
{
    proof {
        lemma_chars_within_bytes(text@);
    }
    // A text has no more characters than bytes, and the number of its bytes
    // fits in a `usize`: so does the number of its words.
    if text.as_bytes().len() == 0 {
        return 0;
    }
    let mut n: usize = 0;
    let mut after_space = true;
    for c in it: text.chars()
        invariant
            it.seq() == text@,
            text@.len() <= usize::MAX,
            n <= it.index(),
            after_space == (it.index() == 0 || white_space(text@[it.index() - 1])),
            n + words_from(text@, it.index()).len() == word_count(text@),
    {
        let space = is_whitespace(c);
        if after_space && !space {
            assert(is_word_start(text@, it.index()));
            n = n + 1;
        }
        after_space = space;
    }
    n
}

} // verus!
