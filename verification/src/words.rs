//! The words of a text: its maximal runs of characters that are not
//! whitespace.

use vstd::prelude::*;
use vstd::relations::injective_on;
use vstd::set_lib::lemma_map_size;
use crate::whitespace::white_space;

verus! {

/// Whether a word begins at index `i` of `t`: the character there is not
/// whitespace, and it is the first of `t` or follows whitespace.
pub open spec fn is_word_start(t: Seq<char>, i: int) -> bool {
    &&& 0 <= i < t.len()
    &&& !white_space(t[i])
    &&& (i == 0 || white_space(t[i - 1]))
}

/// The first index at or after `i` that does not hold a character of a
/// word: a whitespace character, or the end of `t`.
pub open spec fn word_end(t: Seq<char>, i: int) -> int
    decreases t.len() - i,
{
    if 0 <= i < t.len() && !white_space(t[i]) {
        word_end(t, i + 1)
    } else {
        i
    }
}

/// The words of `t` that begin at or after index `i`, in order.
pub open spec fn words_from(t: Seq<char>, i: int) -> Seq<Seq<char>>
    decreases t.len() - i,
{
    if i < 0 || i >= t.len() {
        Seq::empty()
    } else if is_word_start(t, i) {
        seq![t.subrange(i, word_end(t, i))] + words_from(t, i + 1)
    } else {
        words_from(t, i + 1)
    }
}

/// The words of `t`, in order.
pub open spec fn words(t: Seq<char>) -> Seq<Seq<char>> {
    words_from(t, 0)
}

/// The number of words of `t`.
pub open spec fn word_count(t: Seq<char>) -> nat {
    words(t).len()
}

/// Whether the characters of `t` from index `i` up to index `j` form a
/// maximal run of characters that are not whitespace: there is at least
/// one, none of them is whitespace, and on either side the run meets
/// whitespace or an end of `t`.
pub open spec fn is_maximal_run(t: Seq<char>, i: int, j: int) -> bool {
    &&& 0 <= i < j <= t.len()
    &&& forall|k: int| i <= k < j ==> !white_space(#[trigger] t[k])
    &&& (i == 0 || white_space(t[i - 1]))
    &&& (j == t.len() || white_space(t[j]))
}

/// The maximal runs of `t`, each as the pair of its bounds.
pub open spec fn maximal_runs(t: Seq<char>) -> Set<(int, int)> {
    Set::new(|r: (int, int)| is_maximal_run(t, r.0, r.1))
}

/// The indices of `t` at which a word begins.
pub open spec fn word_starts(t: Seq<char>) -> Set<int> {
    Set::new(|i: int| is_word_start(t, i))
}

/// A word ends where it begins or later, within the text, at whitespace or
/// at the end, and holds no whitespace before that.
pub proof fn lemma_word_end(t: Seq<char>, i: int)
    requires
        0 <= i <= t.len(),
    ensures
        i <= word_end(t, i) <= t.len(),
        word_end(t, i) < t.len() ==> white_space(t[word_end(t, i)]),
        forall|k: int| i <= k < word_end(t, i) ==> !white_space(#[trigger] t[k]),
        i < t.len() && !white_space(t[i]) ==> i < word_end(t, i),
    decreases t.len() - i,
{
    if i < t.len() && !white_space(t[i]) {
        lemma_word_end(t, i + 1);
    }
}

/// A run without whitespace that meets whitespace or the end of the text
/// at `j` ends there.
proof fn lemma_word_end_is_unique(t: Seq<char>, i: int, j: int)
    requires
        0 <= i <= j <= t.len(),
        forall|k: int| i <= k < j ==> !white_space(#[trigger] t[k]),
        j == t.len() || white_space(t[j]),
    ensures
        word_end(t, i) == j,
    decreases j - i,
{
    if i < j {
        lemma_word_end_is_unique(t, i + 1, j);
    }
}

/// Every word has at least one character, and none of its characters is
/// whitespace.
pub proof fn lemma_words_are_runs(t: Seq<char>, k: int)
    requires
        0 <= k < words(t).len(),
    ensures
        words(t)[k].len() > 0,
        forall|j: int| 0 <= j < words(t)[k].len() ==> !white_space(#[trigger] words(t)[k][j]),
{
    lemma_words_from_are_runs(t, 0, k);
}

proof fn lemma_words_from_are_runs(t: Seq<char>, i: int, k: int)
    requires
        0 <= i,
        0 <= k < words_from(t, i).len(),
    ensures
        words_from(t, i)[k].len() > 0,
        forall|j: int|
            0 <= j < words_from(t, i)[k].len() ==> !white_space(#[trigger] words_from(t, i)[k][j]),
    decreases t.len() - i,
{
    if is_word_start(t, i) && k == 0 {
        lemma_word_end(t, i);
        let word = t.subrange(i, word_end(t, i));
        assert(words_from(t, i)[k] == word);
        assert forall|j: int| 0 <= j < word.len() implies !white_space(#[trigger] word[j]) by {
            assert(word[j] == t[i + j]);
        }
    } else if is_word_start(t, i) {
        lemma_words_from_are_runs(t, i + 1, k - 1);
    } else {
        lemma_words_from_are_runs(t, i + 1, k);
    }
}

/// The words found from index `i` on are as many as the indices from `i`
/// on at which a word begins.
proof fn lemma_words_from_by_starts(t: Seq<char>, i: int)
    requires
        0 <= i,
    ensures
        word_starts(t).filter(|j: int| i <= j).finite(),
        words_from(t, i).len() == word_starts(t).filter(|j: int| i <= j).len(),
    decreases t.len() - i,
{
    let here = word_starts(t).filter(|j: int| i <= j);
    if i >= t.len() {
        assert(here =~= Set::<int>::empty());
    } else {
        lemma_words_from_by_starts(t, i + 1);
        let later = word_starts(t).filter(|j: int| i + 1 <= j);
        if is_word_start(t, i) {
            assert(here =~= later.insert(i));
        } else {
            assert(here =~= later);
        }
    }
}

/// The number of words is the number of indices at which a word begins.
pub proof fn lemma_word_count_by_starts(t: Seq<char>)
    ensures
        word_starts(t).finite(),
        word_count(t) == word_starts(t).len(),
{
    lemma_words_from_by_starts(t, 0);
    assert(word_starts(t).filter(|j: int| 0 <= j) =~= word_starts(t));
}

/// The number of words is the number of maximal runs of characters that
/// are not whitespace.
pub proof fn lemma_word_count_by_maximal_runs(t: Seq<char>)
    ensures
        maximal_runs(t).finite(),
        word_count(t) == maximal_runs(t).len(),
{
    lemma_word_count_by_starts(t);
    let run_at = |i: int| (i, word_end(t, i));
    assert(injective_on(run_at, word_starts(t)));
    assert forall|r: (int, int)| maximal_runs(t).contains(r) implies word_starts(t).map(
        run_at,
    ).contains(r) by {
        lemma_word_end_is_unique(t, r.0, r.1);
        assert(word_starts(t).contains(r.0));
        assert(run_at(r.0) == r);
    }
    assert forall|r: (int, int)| word_starts(t).map(run_at).contains(r) implies maximal_runs(
        t,
    ).contains(r) by {
        let i = choose|i: int| word_starts(t).contains(i) && run_at(i) == r;
        lemma_word_end(t, i);
    }
    assert(word_starts(t).map(run_at) =~= maximal_runs(t));
    lemma_map_size(word_starts(t), maximal_runs(t), run_at);
}

/// A text has no more words than characters.
pub proof fn lemma_word_count_within_len(t: Seq<char>)
    ensures
        word_count(t) <= t.len(),
{
    lemma_words_from_within_len(t, 0);
}

proof fn lemma_words_from_within_len(t: Seq<char>, i: int)
    requires
        0 <= i,
    ensures
        words_from(t, i).len() <= if i <= t.len() {
            t.len() - i
        } else {
            0
        },
    decreases t.len() - i,
{
    if i < t.len() {
        lemma_words_from_within_len(t, i + 1);
    }
}

/// A text that holds nothing but whitespace has no words.
pub proof fn lemma_whitespace_has_no_words(t: Seq<char>)
    requires
        forall|i: int| 0 <= i < t.len() ==> white_space(#[trigger] t[i]),
    ensures
        word_count(t) == 0,
{
    lemma_word_count_by_starts(t);
    assert(word_starts(t) =~= Set::<int>::empty());
}

} // verus!
