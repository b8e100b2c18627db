//! Which counts an invocation computes, and in which order it reports them.

use vstd::prelude::*;

verus! {

/// One of the three things that can be counted.
#[derive(Clone, Copy, Debug, PartialEq, Eq, Structural)]
pub enum CountKind {
    Bytes,
    Lines,
    Words,
}

/// The counts that were asked for, each on or off.
#[derive(Clone, Copy, Debug, PartialEq, Eq, Structural)]
pub struct CountSelection {
    pub bytes: bool,
    pub lines: bool,
    pub words: bool,
}

/// The order of the counts when none was asked for: lines, words, bytes.
pub open spec fn default_order() -> Seq<CountKind> {
    seq![CountKind::Lines, CountKind::Words, CountKind::Bytes]
}

/// `kind` alone where `wanted` holds, and nothing otherwise.
pub open spec fn only_if(wanted: bool, kind: CountKind) -> Seq<CountKind> {
    if wanted {
        seq![kind]
    } else {
        Seq::empty()
    }
}

impl CountSelection {
    /// No count was asked for.
    pub open spec fn is_unset(self) -> bool {
        !self.bytes && !self.lines && !self.words
    }

    /// The counts to compute, in the order in which they are reported:
    /// those asked for, as bytes, lines, words; all three, as lines, words,
    /// bytes, when none was asked for.
    pub open spec fn order(self) -> Seq<CountKind> {
        if self.is_unset() {
            default_order()
        } else {
            only_if(self.bytes, CountKind::Bytes) + only_if(self.lines, CountKind::Lines)
                + only_if(self.words, CountKind::Words)
        }
    }

    /// Whether `kind` is among the counts to compute.
    pub open spec fn covers(self, kind: CountKind) -> bool {
        self.is_unset() || match kind {
            CountKind::Bytes => self.bytes,
            CountKind::Lines => self.lines,
            CountKind::Words => self.words,
        }
    }

    /// A selection with the given flags.
    pub fn new(bytes: bool, lines: bool, words: bool) -> (selection: Self)
        ensures
            selection == (CountSelection { bytes, lines, words }),
    {
        CountSelection { bytes, lines, words }
    }

    /// Whether `kind` is among the counts to compute.
    pub fn includes(&self, kind: CountKind) -> (r: bool)
        ensures
            r == self.covers(kind),
            r == self.order().contains(kind),
    {
        proof {
            lemma_order_holds_what_is_covered(*self, kind);
        }
        if !self.bytes && !self.lines && !self.words {
            true
        } else {
            match kind {
                CountKind::Bytes => self.bytes,
                CountKind::Lines => self.lines,
                CountKind::Words => self.words,
            }
        }
    }

    /// The counts to compute, in the order in which they are reported.
    pub fn kinds(&self) -> (r: Vec<CountKind>)
        ensures
            r@ == self.order(),
    {
        let mut r: Vec<CountKind> = Vec::new();
        if !self.bytes && !self.lines && !self.words {
            r.push(CountKind::Lines);
            r.push(CountKind::Words);
            r.push(CountKind::Bytes);
        } else {
            if self.bytes {
                r.push(CountKind::Bytes);
            }
            if self.lines {
                r.push(CountKind::Lines);
            }
            if self.words {
                r.push(CountKind::Words);
            }
        }
        assert(r@ =~= self.order());
        r
    }
}

/// The order of a selection holds exactly the kinds that it covers, each
/// once.
pub proof fn lemma_order_holds_what_is_covered(selection: CountSelection, kind: CountKind)
    ensures
        selection.order().contains(kind) <==> selection.covers(kind),
        selection.order().no_duplicates(),
{
    let order = selection.order();
    let b = only_if(selection.bytes, CountKind::Bytes);
    let l = only_if(selection.lines, CountKind::Lines);
    let w = only_if(selection.words, CountKind::Words);
    if selection.is_unset() {
        assert(order[0] == CountKind::Lines);
        assert(order[1] == CountKind::Words);
        assert(order[2] == CountKind::Bytes);
    } else {
        assert(order == b + l + w);
        if selection.bytes {
            assert(order[0] == CountKind::Bytes);
        }
        if selection.lines {
            assert(order[b.len() as int] == CountKind::Lines);
        }
        if selection.words {
            assert(order[(b.len() + l.len()) as int] == CountKind::Words);
        }
    }
}

} // verus!
