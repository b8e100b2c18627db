//! The lines of an input: the records that its newline bytes delimit.

use vstd::prelude::*;

verus! {

/// The byte that ends a line.
pub const NEWLINE: u8 = 0x0A;

/// Whether a line begins at index `i` of `s`: there is a byte there, and it
/// is the first of `s` or follows a newline.
pub open spec fn is_line_start(s: Seq<u8>, i: int) -> bool {
    &&& 0 <= i < s.len()
    &&& (i == 0 || s[i - 1] == NEWLINE)
}

/// The first index at or after `i` that holds a newline, or the end of `s`
/// where none follows.
pub open spec fn line_end(s: Seq<u8>, i: int) -> int
    decreases s.len() - i,
{
    if 0 <= i < s.len() && s[i] != NEWLINE {
        line_end(s, i + 1)
    } else {
        i
    }
}

/// The lines of `s` that begin at or after index `i`, in order, each
/// without the newline that ends it.
pub open spec fn lines_from(s: Seq<u8>, i: int) -> Seq<Seq<u8>>
    decreases s.len() - i,
{
    if i < 0 || i >= s.len() {
        Seq::empty()
    } else if is_line_start(s, i) {
        seq![s.subrange(i, line_end(s, i))] + lines_from(s, i + 1)
    } else {
        lines_from(s, i + 1)
    }
}

/// The lines of `s`, in order. An empty input has none; bytes after the
/// last newline form a line of their own.
pub open spec fn lines(s: Seq<u8>) -> Seq<Seq<u8>> {
    lines_from(s, 0)
}

/// The number of lines of `s`.
pub open spec fn line_count(s: Seq<u8>) -> nat {
    lines(s).len()
}

/// How many times the newline byte occurs in `s`.
pub open spec fn newline_count(s: Seq<u8>) -> nat {
    s.to_multiset().count(NEWLINE)
}

/// Whether bytes follow the last newline of `s`: `s` is not empty and does
/// not end in a newline.
pub open spec fn ends_unterminated(s: Seq<u8>) -> bool {
    s.len() > 0 && s.last() != NEWLINE
}

/// A line ends where it begins or later, within the input, at a newline or
/// at the end, and holds no newline before that.
pub proof fn lemma_line_end(s: Seq<u8>, i: int)
    requires
        0 <= i <= s.len(),
    ensures
        i <= line_end(s, i) <= s.len(),
        line_end(s, i) < s.len() ==> s[line_end(s, i)] == NEWLINE,
        forall|j: int| i <= j < line_end(s, i) ==> s[j] != NEWLINE,
    decreases s.len() - i,
{
    if i < s.len() && s[i] != NEWLINE {
        lemma_line_end(s, i + 1);
    }
}

/// The newlines of a sequence that is not empty are those after its first
/// byte, and that byte where it is one.
pub proof fn lemma_newline_count_unfolds(s: Seq<u8>)
    requires
        s.len() > 0,
    ensures
        newline_count(s) == newline_count(s.drop_first()) + if s.first() == NEWLINE {
            1nat
        } else {
            0nat
        },
{
    broadcast use vstd::multiset::group_multiset_axioms;

    assert(s.remove(0) =~= s.drop_first());
    vstd::seq_lib::to_multiset_remove(s, 0);
    vstd::seq_lib::to_multiset_contains(s, s.first());
    assert(s.contains(s.first()));
}

/// From index `i` on, the lines found and a newline that ends the input
/// are together as many as the newlines from the byte before `i` on.
proof fn lemma_lines_after_newlines(s: Seq<u8>, i: int)
    requires
        1 <= i <= s.len(),
    ensures
        lines_from(s, i).len() + (if s.last() == NEWLINE {
            1nat
        } else {
            0nat
        }) == newline_count(s.skip(i - 1)),
    decreases s.len() - i,
{
    let tail = s.skip(i - 1);
    lemma_newline_count_unfolds(tail);
    assert(tail.drop_first() =~= s.skip(i));
    if i < s.len() {
        lemma_lines_after_newlines(s, i + 1);
    } else {
        vstd::seq_lib::to_multiset_len(s.skip(i));
    }
}

/// The number of lines is the number of newlines, and one more where bytes
/// follow the last newline.
pub proof fn lemma_line_count_by_newlines(s: Seq<u8>)
    ensures
        line_count(s) == newline_count(s) + if ends_unterminated(s) {
            1nat
        } else {
            0nat
        },
{
    if s.len() > 0 {
        lemma_lines_after_newlines(s, 1);
        assert(s.skip(0) =~= s);
    } else {
        vstd::seq_lib::to_multiset_len(s);
    }
}

/// No line holds a newline.
pub proof fn lemma_lines_hold_no_newline(s: Seq<u8>, k: int)
    requires
        0 <= k < lines(s).len(),
    ensures
        !lines(s)[k].contains(NEWLINE),
{
    lemma_lines_from_hold_no_newline(s, 0, k);
}

proof fn lemma_lines_from_hold_no_newline(s: Seq<u8>, i: int, k: int)
    requires
        0 <= i,
        0 <= k < lines_from(s, i).len(),
    ensures
        !lines_from(s, i)[k].contains(NEWLINE),
    decreases s.len() - i,
{
    if is_line_start(s, i) && k == 0 {
        lemma_line_end(s, i);
    } else if is_line_start(s, i) {
        lemma_lines_from_hold_no_newline(s, i + 1, k - 1);
    } else {
        lemma_lines_from_hold_no_newline(s, i + 1, k);
    }
}

/// The bytes of the lines `ls`, each line followed by a newline.
pub open spec fn terminated(ls: Seq<Seq<u8>>) -> Seq<u8>
    decreases ls.len(),
{
    if ls.len() == 0 {
        Seq::empty()
    } else {
        ls.first().push(NEWLINE) + terminated(ls.drop_first())
    }
}

/// Where no line begins from index `i` up to index `j`, the lines found
/// from `i` on are those found from `j` on.
proof fn lemma_lines_from_skips(s: Seq<u8>, i: int, j: int)
    requires
        0 <= i <= j,
        forall|k: int| i <= k < j ==> !is_line_start(s, k),
    ensures
        lines_from(s, i) == lines_from(s, j),
    decreases j - i,
{
    if i < j {
        lemma_lines_from_skips(s, i + 1, j);
    }
}

/// From the start of a line on, the lines with their newlines are the rest
/// of the input, completed by a newline where it lacks the last.
proof fn lemma_lines_from_rebuild(s: Seq<u8>, i: int)
    requires
        0 <= i <= s.len(),
        i == 0 || s[i - 1] == NEWLINE,
    ensures
        terminated(lines_from(s, i)) == if ends_unterminated(s) {
            s.push(NEWLINE).skip(i)
        } else {
            s.skip(i)
        },
    decreases s.len() - i,
{
    let whole = if ends_unterminated(s) {
        s.push(NEWLINE)
    } else {
        s
    };
    if i < s.len() {
        let end = line_end(s, i);
        let next = if end < s.len() {
            end + 1
        } else {
            end
        };
        lemma_line_end(s, i);
        lemma_lines_from_skips(s, i + 1, next);
        let found = lines_from(s, i);
        assert(found.first() == s.subrange(i, end));
        assert(found.drop_first() =~= lines_from(s, next));
        if end < s.len() {
            lemma_lines_from_rebuild(s, next);
            assert(found.first().push(NEWLINE) + whole.skip(next) =~= whole.skip(i));
        } else {
            assert(s[s.len() - 1] != NEWLINE);
            assert(terminated(found.drop_first()) =~= Seq::<u8>::empty());
            assert(found.first().push(NEWLINE) + Seq::<u8>::empty() =~= whole.skip(i));
        }
    } else {
        assert(whole.skip(i) =~= Seq::<u8>::empty());
    }
}

/// The lines are the input cut at its newlines: written out one after the
/// other, each with a newline behind it, they give the input again, with
/// one newline more where the input lacks the last.
pub proof fn lemma_lines_rebuild_input(s: Seq<u8>)
    ensures
        terminated(lines(s)) == if ends_unterminated(s) {
            s.push(NEWLINE)
        } else {
            s
        },
{
    lemma_lines_from_rebuild(s, 0);
    assert(s.skip(0) =~= s);
    assert(s.push(NEWLINE).skip(0) =~= s.push(NEWLINE));
}

/// An input has no more lines than bytes.
pub proof fn lemma_line_count_within_len(s: Seq<u8>)
    ensures
        line_count(s) <= s.len(),
{
    lemma_lines_from_within_len(s, 0);
}

proof fn lemma_lines_from_within_len(s: Seq<u8>, i: int)
    requires
        0 <= i,
    ensures
        lines_from(s, i).len() <= if i <= s.len() {
            s.len() - i
        } else {
            0
        },
    decreases s.len() - i,
{
    if i < s.len() {
        lemma_lines_from_within_len(s, i + 1);
    }
}

} // verus!
