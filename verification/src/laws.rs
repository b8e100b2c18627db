//! What holds of the engine as a whole.

use vstd::prelude::*;
use vstd::utf8::{
    decode_utf8, decode_utf8_encode_utf8, encode_utf8, encode_utf8_decode_utf8,
    encode_utf8_valid_utf8, valid_utf8,
};
use crate::engine::{
    completes, is_count_of, is_report_of, readable, reports, tally, CountEntry, CountError,
};
use crate::lines::{lemma_line_count_within_len, line_count};
use crate::selection::{default_order, CountKind, CountSelection};
use crate::text::{lemma_chars_within_bytes, lemma_line_count_of_text, LINE_FEED};
use crate::words::{lemma_word_count_within_len, word_count};

verus! {

/// Bytes and lines are counted in any content, text or not: such a pass
/// never fails, and the bytes it counts are the length of the content.
pub proof fn lemma_bytes_and_lines_never_fail(s: Seq<u8>, r: Result<usize, CountError>)
    ensures
        is_count_of(r, CountKind::Bytes, s) <==> (r matches Ok(n) && n == s.len()),
        is_count_of(r, CountKind::Lines, s) <==> (r matches Ok(n) && n == line_count(s)),
{
}

/// Text is counted whole: over the encoding of a text every pass can be
/// made, the words counted are the words of the text, and the lines
/// counted are its line feeds, and one more where characters follow the
/// last.
pub proof fn lemma_text_is_always_counted(t: Seq<char>, kind: CountKind)
    ensures
        readable(kind, encode_utf8(t)),
        tally(CountKind::Words, encode_utf8(t)) == word_count(t),
        tally(CountKind::Lines, encode_utf8(t)) == t.to_multiset().count(LINE_FEED) + if t.len()
            > 0 && t.last() != LINE_FEED {
            1nat
        } else {
            0nat
        },
{
    encode_utf8_valid_utf8(t);
    encode_utf8_decode_utf8(t);
    lemma_line_count_of_text(t);
}

/// A pass is repeatable: two passes of the same kind over the same content
/// end alike, with the same count or with the same error.
pub proof fn lemma_pass_is_repeatable(
    kind: CountKind,
    s: Seq<u8>,
    first: Result<usize, CountError>,
    second: Result<usize, CountError>,
)
    requires
        is_count_of(first, kind, s),
        is_count_of(second, kind, s),
    ensures
        first == second,
{
}

/// The counts of an order in a content are determined: two sequences of
/// entries that both report them are equal.
pub proof fn lemma_reports_are_unique(
    a: Seq<CountEntry>,
    b: Seq<CountEntry>,
    order: Seq<CountKind>,
    s: Seq<u8>,
)
    requires
        reports(a, order, s),
        reports(b, order, s),
    ensures
        a == b,
{
    assert forall|i: int| 0 <= i < a.len() implies a[i] == b[i] by {
        assert(a[i].kind == order[i] && b[i].kind == order[i]);
        assert(a[i].value == tally(order[i], s) && b[i].value == tally(order[i], s));
    }
    assert(a =~= b);
}

/// A run is repeatable: two runs of the same selection over the same
/// content end alike, with the same entries or with the same error.
pub proof fn lemma_run_is_repeatable(
    selection: CountSelection,
    s: Seq<u8>,
    first: Result<Vec<CountEntry>, CountError>,
    second: Result<Vec<CountEntry>, CountError>,
)
    requires
        is_report_of(first, selection, s),
        is_report_of(second, selection, s),
    ensures
        match (first, second) {
            (Ok(a), Ok(b)) => a@ == b@,
            (Err(a), Err(b)) => a == b,
            _ => false,
        },
{
    if let (Ok(a), Ok(b)) = (first, second) {
        lemma_reports_are_unique(a@, b@, selection.order(), s);
    }
}

/// With no count asked for, a run reports exactly three counts, as lines,
/// words, bytes. It succeeds on the contents on which a run with all three
/// asked for succeeds, and its counts are the ones which that run reports
/// as bytes, lines, words.
pub proof fn lemma_default_selection(
    s: Seq<u8>,
    unset: Result<Vec<CountEntry>, CountError>,
    all: Result<Vec<CountEntry>, CountError>,
)
    requires
        is_report_of(unset, CountSelection { bytes: false, lines: false, words: false }, s),
        is_report_of(all, CountSelection { bytes: true, lines: true, words: true }, s),
    ensures
        unset is Ok <==> all is Ok,
        unset is Ok <==> valid_utf8(s),
        unset matches Err(e) ==> all == Err::<Vec<CountEntry>, CountError>(e),
        unset matches Ok(d) ==> {
            &&& d@.len() == 3
            &&& d@[0] == CountEntry { kind: CountKind::Lines, value: d@[0].value }
            &&& d@[1] == CountEntry { kind: CountKind::Words, value: d@[1].value }
            &&& d@[2] == CountEntry { kind: CountKind::Bytes, value: d@[2].value }
            &&& d@[0].value == tally(CountKind::Lines, s)
            &&& d@[1].value == tally(CountKind::Words, s)
            &&& d@[2].value == tally(CountKind::Bytes, s)
            &&& all matches Ok(a) && a@ == seq![d@[2], d@[0], d@[1]]
        },
{
    let none = CountSelection { bytes: false, lines: false, words: false };
    let every = CountSelection { bytes: true, lines: true, words: true };
    lemma_failure_needs_words(none, s);
    lemma_failure_needs_words(every, s);
    assert(none.order() == default_order());
    assert(every.order() =~= seq![CountKind::Bytes, CountKind::Lines, CountKind::Words]);
    if let (Ok(d), Ok(a)) = (unset, all) {
        assert(d@[0].kind == none.order()[0]);
        assert(d@[1].kind == none.order()[1]);
        assert(d@[2].kind == none.order()[2]);
        assert(a@[0].kind == every.order()[0]);
        assert(a@[1].kind == every.order()[1]);
        assert(a@[2].kind == every.order()[2]);
        assert(a@ =~= seq![d@[2], d@[0], d@[1]]);
    }
}

/// No count exceeds the number of bytes of the content.
pub proof fn lemma_tally_within_len(kind: CountKind, s: Seq<u8>)
    requires
        readable(kind, s),
    ensures
        tally(kind, s) <= s.len(),
{
    match kind {
        CountKind::Bytes => {},
        CountKind::Lines => {
            lemma_line_count_within_len(s);
        },
        CountKind::Words => {
            let t = decode_utf8(s);
            lemma_word_count_within_len(t);
            lemma_chars_within_bytes(t);
            decode_utf8_encode_utf8(s);
        },
    }
}

/// A run succeeds on any content unless it counts words, which it does
/// where words were asked for and where nothing was; then it succeeds on
/// well-formed UTF-8 alone.
pub proof fn lemma_failure_needs_words(selection: CountSelection, s: Seq<u8>)
    ensures
        completes(selection, s) <==> (selection.words || selection.is_unset() ==> valid_utf8(s)),
{
    if completes(selection, s) && (selection.words || selection.is_unset()) {
        assert(selection.covers(CountKind::Words));
    }
}

} // verus!
