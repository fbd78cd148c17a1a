//! Ranked listings: the first entries of a frequency table, numbered from one.

use vstd::prelude::*;
use crate::frequency::Entry;
use crate::frequency::WordData;

verus! {

/// Which table a listing is taken from.
#[derive(Clone, Copy, Debug, PartialEq, Eq, Structural)]
pub enum NgramOrder {
    Words,
    Bigrams,
    Trigrams,
}

/// One line of a listing.
#[derive(Clone, Debug, PartialEq, Eq)]
pub struct RankedEntry {
    /// The place in the table, counted from one.
    pub rank: usize,
    pub text: String,
    pub count: usize,
}

/// What a `RankedEntry` stands for.
pub struct Ranked {
    pub rank: int,
    pub text: Seq<char>,
    pub count: nat,
}

impl View for RankedEntry {
    type V = Ranked;

    open spec fn view(&self) -> Ranked {
        Ranked { rank: self.rank as int, text: self.text@, count: self.count as nat }
    }
}

impl DeepView for RankedEntry {
    type V = Ranked;

    open spec fn deep_view(&self) -> Ranked {
        self@
    }
}

/// The number of entries that a request for `wanted` gets from a table of `len`.
pub open spec fn listed_count(len: nat, wanted: nat) -> nat {
    if wanted < len {
        wanted
    } else {
        len
    }
}

/// The first `wanted` entries of a table, or all of them if there are fewer,
/// each with its rank.
pub open spec fn listed(table: Seq<Entry>, wanted: nat) -> Seq<Ranked> {
    Seq::new(
        listed_count(table.len(), wanted),
        |i: int| Ranked { rank: i + 1, text: table[i].text, count: table[i].count },
    )
}

/// A ranked listing.
#[derive(Clone, Debug, PartialEq, Eq)]
pub struct TopListing {
    /// The table that was listed.
    pub order: NgramOrder,
    /// The number of entries asked for.
    pub requested: u64,
    /// Whether more entries were asked for than the table has.
    pub exceeds: bool,
    /// The number of distinct words of the text. Percentages are taken of this
    /// number, also where pairs or triples are listed.
    pub unique_words: usize,
    /// The entries, most frequent first.
    pub entries: Vec<RankedEntry>,
}

/// The number of entries that a request stands for: a request below one asks
/// for nothing.
pub open spec fn requested_count(wanted: i64) -> nat {
    if wanted > 0 {
        wanted as nat
    } else {
        0
    }
}

/// The number of entries that a request stands for.
pub fn requested(wanted: i64) -> (count: u64)
    ensures
        count == requested_count(wanted),
{
    if wanted > 0 {
        wanted as u64
    } else {
        0
    }
}

/// The first `wanted` entries of `table`, or all of them if there are fewer.
pub fn top_entries(table: &Vec<WordData>, wanted: u64) -> (entries: Vec<RankedEntry>)
    ensures
        entries.deep_view() == listed(table.deep_view(), wanted as nat),
{
    let count: usize = if wanted < table.len() as u64 {
        wanted as usize
    } else {
        table.len()
    };
    let mut entries: Vec<RankedEntry> = Vec::new();
    for i in 0..count
        invariant
            count <= table.len(),
            entries.len() == i,
            forall|k: int|
                0 <= k < i ==> (#[trigger] entries[k])@ == (Ranked {
                    rank: k + 1,
                    text: table[k].text@,
                    count: table[k].count as nat,
                }),
    {
        entries.push(RankedEntry { rank: i + 1, text: table[i].text.clone(), count: table[i].count });
    }
    proof {
        assert(entries.deep_view() =~= listed(table.deep_view(), wanted as nat));
    }
    entries
}

} // verus!
