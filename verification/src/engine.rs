//! The counting engine: one pass per count over a complete input, in the
//! order of the selection, with all or nothing as the result.

use vstd::prelude::*;
use vstd::utf8::{decode_utf8, encode_utf8_decode_utf8, valid_utf8};
use crate::counting::{count_bytes, count_lines, count_words};
use crate::lines::line_count;
use crate::selection::{lemma_order_holds_what_is_covered, CountKind, CountSelection};
use crate::words::word_count;

verus! {

/// Why an invocation gave no result.
#[derive(Clone, Copy, Debug, PartialEq, Eq, Structural)]
pub enum CountError {
    /// The input could not be opened or acquired.
    SourceUnavailable,
    /// Reading the input failed during a pass, or what was read is not text
    /// where a pass needs text.
    ReadFailure,
}

/// One computed count.
#[derive(Clone, Copy, Debug, PartialEq, Eq, Structural)]
pub struct CountEntry {
    pub kind: CountKind,
    pub value: usize,
}

/// What acquiring the input gave.
#[derive(Debug, PartialEq, Eq)]
pub enum Source {
    /// The input could not be opened.
    Unavailable,
    /// A read failed; the bytes that had arrived before are held.
    Interrupted(Vec<u8>),
    /// The whole content.
    Complete(Vec<u8>),
}

/// Whether a pass of `kind` over `s` can be made: words are counted in
/// text, so the bytes must be well-formed UTF-8; bytes and lines are
/// counted in any content.
pub open spec fn readable(kind: CountKind, s: Seq<u8>) -> bool {
    kind == CountKind::Words ==> valid_utf8(s)
}

/// The count of `kind` in `s`.
pub open spec fn tally(kind: CountKind, s: Seq<u8>) -> nat {
    match kind {
        CountKind::Bytes => s.len(),
        CountKind::Lines => line_count(s),
        CountKind::Words => word_count(decode_utf8(s)),
    }
}

/// Whether every pass that `selection` asks for can be made over `s`.
pub open spec fn completes(selection: CountSelection, s: Seq<u8>) -> bool {
    forall|kind: CountKind| selection.covers(kind) ==> readable(kind, s)
}

/// Whether `entries` are the counts of the kinds of `order` in `s`, one
/// entry for each kind and in the same order.
pub open spec fn reports(entries: Seq<CountEntry>, order: Seq<CountKind>, s: Seq<u8>) -> bool {
    &&& entries.len() == order.len()
    &&& forall|i: int|
        0 <= i < order.len() ==> (#[trigger] entries[i]).kind == order[i] && entries[i].value
            == tally(order[i], s)
}

/// Whether `r` is the result of one pass of `kind` over `s`: the count
/// where the pass can be made, and `ReadFailure` where it cannot.
pub open spec fn is_count_of(r: Result<usize, CountError>, kind: CountKind, s: Seq<u8>) -> bool {
    match r {
        Ok(n) => readable(kind, s) && n == tally(kind, s),
        Err(e) => !readable(kind, s) && e == CountError::ReadFailure,
    }
}

/// Whether `r` is the result of the passes of `selection` over `s`: all
/// the counts, in the order of the selection, where every pass can be
/// made, and `ReadFailure` with no count at all where one cannot.
pub open spec fn is_report_of(
    r: Result<Vec<CountEntry>, CountError>,
    selection: CountSelection,
    s: Seq<u8>,
) -> bool {
    match r {
        Ok(entries) => completes(selection, s) && reports(entries@, selection.order(), s),
        Err(e) => !completes(selection, s) && e == CountError::ReadFailure,
    }
}

/// Whether `r` is the result of an invocation of `selection` on what
/// acquiring the input gave: `SourceUnavailable` for an input that could
/// not be opened, `ReadFailure` for an interrupted read, whatever had
/// arrived, and for a complete input the result of the passes over it.
pub open spec fn is_result_of(
    r: Result<Vec<CountEntry>, CountError>,
    selection: CountSelection,
    source: Source,
) -> bool {
    match source {
        Source::Unavailable => r == Err::<Vec<CountEntry>, CountError>(
            CountError::SourceUnavailable,
        ),
        Source::Interrupted(_) => r == Err::<Vec<CountEntry>, CountError>(CountError::ReadFailure),
        Source::Complete(content) => is_report_of(r, selection, content@),
    }
}

/// One pass over `source`: the count of `kind` in it.
///
/// Fails with `ReadFailure` exactly when `kind` is `Words` and `source` is
/// not well-formed UTF-8.
pub fn count(kind: CountKind, source: &[u8]) -> (r: Result<usize, CountError>)
    ensures
        is_count_of(r, kind, source@),
{
    match kind {
        CountKind::Bytes => Ok(count_bytes(source)),
        CountKind::Lines => Ok(count_lines(source)),
        CountKind::Words => match core::str::from_utf8(source) {
            Ok(text) => {
                proof {
                    encode_utf8_decode_utf8(text@);
                }
                Ok(count_words(text))
            },
            Err(_) => Err(CountError::ReadFailure),
        },
    }
}

/// Runs the passes that `selection` asks for over `source`, each over the
/// same content, and reports their counts in the order of the selection.
///
/// Fails with `ReadFailure`, and reports nothing, exactly when words are
/// among the counts and `source` is not well-formed UTF-8.
pub fn run(selection: &CountSelection, source: &[u8]) -> (r: Result<Vec<CountEntry>, CountError>)
    ensures
        is_report_of(r, *selection, source@),
{
    let kinds = selection.kinds();
    let mut entries: Vec<CountEntry> = Vec::new();
    for i in 0..kinds.len()
        invariant
            kinds@ == selection.order(),
            forall|j: int| 0 <= j < i ==> readable(#[trigger] kinds@[j], source@),
            reports(entries@, kinds@.take(i as int), source@),
    {
        let kind = kinds[i];
        match count(kind, source) {
            Ok(value) => {
                entries.push(CountEntry { kind, value });
            },
            Err(e) => {
                proof {
                    assert(selection.order().contains(kind));
                    lemma_order_holds_what_is_covered(*selection, kind);
                }
                return Err(e);
            },
        }
    }
    proof {
        assert(kinds@.take(kinds@.len() as int) =~= kinds@);
        assert forall|kind: CountKind| selection.covers(kind) implies readable(kind, source@) by {
            lemma_order_holds_what_is_covered(*selection, kind);
            let j = choose|j: int| 0 <= j < kinds@.len() && kinds@[j] == kind;
            assert(readable(kinds@[j], source@));
        }
    }
    Ok(entries)
}

/// Concludes an invocation from what acquiring the input gave.
///
/// An input that could not be opened gives `SourceUnavailable`, before any
/// counting. An interrupted read gives `ReadFailure`: nothing is counted in
/// the part that arrived. A complete input is counted by [`run`].
pub fn invoke(selection: &CountSelection, source: &Source) -> (r: Result<
    Vec<CountEntry>,
    CountError,
>)
    ensures
        is_result_of(r, *selection, *source),
{
    match source {
        Source::Unavailable => Err(CountError::SourceUnavailable),
        Source::Interrupted(_) => Err(CountError::ReadFailure),
        Source::Complete(content) => run(selection, content.as_slice()),
    }
}

/// The counts of `entries` without their kinds, in the same order.
pub fn values(entries: &[CountEntry]) -> (r: Vec<usize>)
    ensures
        r@ == entries@.map_values(|e: CountEntry| e.value),
{
    let mut r: Vec<usize> = Vec::new();
    for i in 0..entries.len()
        invariant
            r@ == entries@.take(i as int).map_values(|e: CountEntry| e.value),
    {
        r.push(entries[i].value);
        assert(entries@.take(i + 1).map_values(|e: CountEntry| e.value) =~= entries@.take(
            i as int,
        ).map_values(|e: CountEntry| e.value).push(entries@[i as int].value));
    }
    assert(entries@.take(entries@.len() as int) =~= entries@);
    r
}

} // verus!
