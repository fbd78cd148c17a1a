//! The diversity summary of an analysis: how many words, how many distinct,
//! how varied, the longest word and the words that occur once.

use vstd::prelude::*;
use crate::analysis::Variation;
use crate::analysis::WordProcessor;
use crate::frequency::Entry;
use crate::frequency::WordData;

verus! {

/// The entry at `index` has the longest text, and is the first of that length.
pub open spec fn is_longest(entries: Seq<Entry>, index: int) -> bool {
    &&& 0 <= index < entries.len()
    &&& forall|j: int|
        0 <= j < entries.len() ==> (#[trigger] entries[j]).text.len() <= entries[index].text.len()
    &&& forall|j: int| 0 <= j < index ==> (#[trigger] entries[j]).text.len() < entries[index].text.len()
}

/// The figures of the diversity summary.
#[derive(Clone, Debug, PartialEq, Eq)]
pub struct DiversitySummary {
    /// The number of word tokens in the text.
    pub total_words: usize,
    /// The number of distinct words. The type-token ratio is this number over
    /// `total_words`.
    pub unique_words: usize,
    /// The bucket of the type-token ratio.
    pub variation: Variation,
    /// The sum of the lengths of the distinct words. The average word length
    /// is this number over `unique_words`.
    pub total_length: u128,
    /// The longest distinct word; of several, the one listed first.
    pub longest_word: String,
    /// The length of the longest word, in characters.
    pub longest_length: usize,
    /// The number of distinct words that occur once.
    pub rare_words: usize,
}

impl DiversitySummary {
    /// `self` sums up `report`.
    pub open spec fn sums_up(&self, report: &WordProcessor) -> bool {
        &&& self.total_words == report.total_words
        &&& self.unique_words == report.words.len()
        &&& self.variation == report.variation_spec()
        &&& self.total_length == report.total_length
        &&& self.rare_words == report.rare_words
        &&& self.longest_length == self.longest_word@.len()
        &&& exists|index: int|
            is_longest(report.words.deep_view(), index) && (
            #[trigger] report.words.deep_view()[index]).text == self.longest_word@
    }
}

/// The place of the longest text in `table`; of several, the first.
pub fn longest_entry(table: &Vec<WordData>) -> (found: (usize, usize))
    requires
        table.len() > 0,
    ensures
        is_longest(table.deep_view(), found.0 as int),
        found.1 == table[found.0 as int].text@.len(),
{
    let mut best: usize = 0;
    let mut length: usize = table[0].text.as_str().unicode_len();
    for i in 1..table.len()
        invariant
            best < i,
            length == table[best as int].text@.len(),
            forall|j: int| 0 <= j < i ==> (#[trigger] table[j]).text@.len() <= length,
            forall|j: int| 0 <= j < best ==> (#[trigger] table[j]).text@.len() < length,
    {
        let here = table[i].text.as_str().unicode_len();
        if here > length {
            best = i;
            length = here;
        }
    }
    proof {
        let entries = table.deep_view();
        assert forall|j: int| 0 <= j < entries.len() implies (#[trigger] entries[j]).text.len()
            <= entries[best as int].text.len() by {
            assert(entries[j] == table[j]@);
        }
        assert forall|j: int| 0 <= j < best implies (#[trigger] entries[j]).text.len()
            < entries[best as int].text.len() by {
            assert(entries[j] == table[j]@);
        }
    }
    (best, length)
}

/// The diversity summary of an analysis with at least one word.
pub fn summarize(report: &WordProcessor) -> (summary: DiversitySummary)
    requires
        report.words.len() > 0,
    ensures
        summary.sums_up(report),
{
    let (index, length) = longest_entry(&report.words);
    let summary = DiversitySummary {
        total_words: report.total_words,
        unique_words: report.words.len(),
        variation: report.variation(),
        total_length: report.total_length,
        longest_word: report.words[index].text.clone(),
        longest_length: length,
        rare_words: report.rare_words,
    };
    proof {
        assert(report.words.deep_view()[index as int].text == summary.longest_word@);
    }
    summary
}

} // verus!
