//! The analysis of one text: its frequency tables and the figures drawn from
//! them.
//!
//! Ratios are kept as pairs of whole numbers. The type-token ratio is
//! `unique_words / total_words`, the average word length is
//! `total_length / unique_words`; whoever prints them divides.

use vstd::prelude::*;
use crate::error::AnalysisError;
use crate::filter::WordFilter;
use crate::filter::stop_set;
use crate::frequency::Entry;
use crate::frequency::WordData;
use crate::frequency::frequency_table;
use crate::frequency::is_ranked;
use crate::frequency::is_tally;
use crate::frequency::lemma_tally_total;
use crate::frequency::ties_by_first_place;
use crate::frequency::total_count;
use crate::ngram::clear_test;
use crate::ngram::joined;
use crate::ngram::ngrams;
use crate::ngram::ngrams_of;
use crate::ngram::ngrams_upto;
use crate::ngram::lemma_ngrams_upto_next;
use crate::ngram::window_at;
use crate::ngram::window_count;
use crate::tokenizer::tokenize;
use crate::tokenizer::tokens_of;

verus! {

/// How varied the vocabulary of a text is, by its type-token ratio.
#[derive(Clone, Copy, Debug, PartialEq, Eq, Structural)]
pub enum Variation {
    /// A ratio under 0.05.
    Low,
    /// A ratio from 0.05 and under 0.15.
    Medium,
    /// A ratio from 0.15 and under 0.3.
    MediumHigh,
    /// A ratio of 0.3 or more, or no ratio at all.
    High,
}

/// The bucket of the ratio `unique / total`, decided in whole numbers.
pub open spec fn variation_of(unique: nat, total: nat) -> Variation {
    if 100 * unique < 5 * total {
        Variation::Low
    } else if 100 * unique < 15 * total {
        Variation::Medium
    } else if 100 * unique < 30 * total {
        Variation::MediumHigh
    } else {
        Variation::High
    }
}

impl Variation {
    /// The words by which the bucket is reported.
    pub open spec fn label(self) -> Seq<char> {
        match self {
            Variation::Low => "low variation"@,
            Variation::Medium => "medium variation"@,
            Variation::MediumHigh => "medium-high variation"@,
            Variation::High => "high variation"@,
        }
    }

    /// The words by which the bucket is reported.
    pub fn name(&self) -> (text: String)
        ensures
            text@ == self.label(),
    {
        match self {
            Variation::Low => "low variation".to_owned(),
            Variation::Medium => "medium variation".to_owned(),
            Variation::MediumHigh => "medium-high variation".to_owned(),
            Variation::High => "high variation".to_owned(),
        }
    }
}

/// The number of entries that occur exactly once.
pub open spec fn rare_count(entries: Seq<Entry>) -> nat {
    entries.filter(|e: Entry| e.count == 1).len()
}

/// The sum of the lengths, in characters, of the texts of `entries`.
pub open spec fn total_length(entries: Seq<Entry>) -> nat
    decreases entries.len(),
{
    if entries.len() == 0 {
        0
    } else {
        total_length(entries.drop_last()) + entries.last().text.len()
    }
}

/// The result of analysing one text.
#[derive(Clone, Debug, PartialEq, Eq)]
pub struct WordProcessor {
    /// The sum of the lengths, in characters, of the distinct words.
    pub total_length: u128,
    /// The number of word tokens in the text, stopwords among them.
    pub total_words: usize,
    /// The number of distinct words that occur once.
    pub rare_words: usize,
    /// The number of distinct words.
    pub unique_words: usize,
    /// The distinct words that are no stopwords, most frequent first.
    pub words: Vec<WordData>,
    /// The pairs of adjacent tokens without a stopword, most frequent first.
    pub bigrams: Vec<WordData>,
    /// The triples of adjacent tokens without a stopword, most frequent first.
    pub trigrams: Vec<WordData>,
}

impl WordProcessor {
    /// The figures agree with the unigram table.
    pub open spec fn consistent(&self) -> bool {
        &&& self.unique_words == self.words.len()
        &&& self.rare_words == rare_count(self.words.deep_view())
        &&& self.total_length == total_length(self.words.deep_view())
    }

    /// `self` is the analysis of `text` under the stopword set `stop`.
    pub open spec fn describes(&self, text: Seq<char>, stop: Option<Set<Seq<char>>>) -> bool {
        let tokens = tokens_of(text);
        &&& self.total_words == tokens.len()
        &&& is_tally(self.words.deep_view(), ngrams_of(tokens, 1, stop))
        &&& is_tally(self.bigrams.deep_view(), ngrams_of(tokens, 2, stop))
        &&& is_tally(self.trigrams.deep_view(), ngrams_of(tokens, 3, stop))
        &&& is_ranked(self.words.deep_view())
        &&& is_ranked(self.bigrams.deep_view())
        &&& is_ranked(self.trigrams.deep_view())
        &&& ties_by_first_place(self.words.deep_view(), ngrams_of(tokens, 1, stop))
        &&& ties_by_first_place(self.bigrams.deep_view(), ngrams_of(tokens, 2, stop))
        &&& ties_by_first_place(self.trigrams.deep_view(), ngrams_of(tokens, 3, stop))
        &&& self.consistent()
    }

    /// The bucket of the type-token ratio.
    pub open spec fn variation_spec(&self) -> Variation {
        variation_of(self.unique_words as nat, self.total_words as nat)
    }

    /// Analyses a text. The tokens of the text are counted one by one, in
    /// pairs and in triples; with a filter, stopwords are left out of the
    /// word table, and a pair or triple with a stopword in it is left out of
    /// its table. `total_words` counts every token, stopwords too.
    ///
    /// Fails with `EmptyInput` exactly when no word is left to count, so every
    /// analysis has at least one word and both ratios are defined.
    pub fn from_str(analyze_text: &str, filter: Option<WordFilter>) -> (made: Result<
        WordProcessor,
        AnalysisError,
    >)
        ensures
            made is Ok <==> ngrams_of(tokens_of(analyze_text@), 1, stop_set(filter)).len() > 0,
            made matches Ok(report) ==> report.describes(analyze_text@, stop_set(filter))
                && report.unique_words >= 1 && report.total_words >= report.unique_words,
            made matches Ok(report) ==> (filter is None ==> total_count(report.words.deep_view())
                == report.total_words),
            made matches Err(error) ==> error is EmptyInput,
    {
        let tokens = tokenize(analyze_text);
        let ghost stop = stop_set(filter);
        let unigrams = ngrams(&tokens, 1, &filter);
        if unigrams.len() == 0 {
            return Err(AnalysisError::EmptyInput);
        }
        let words = frequency_table(&unigrams);
        let pairs = ngrams(&tokens, 2, &filter);
        let bigrams = frequency_table(&pairs);
        let triples = ngrams(&tokens, 3, &filter);
        let trigrams = frequency_table(&triples);
        let rare_words = count_rare(&words);
        let total_length = sum_lengths(&words);
        proof {
            lemma_tally_total(words.deep_view(), unigrams.deep_view());
            lemma_total_count_bounds(words.deep_view());
            lemma_ngrams_len(tokens.deep_view(), 1, stop);
            if filter is None {
                lemma_unigrams_unfiltered(tokens.deep_view());
            }
        }
        Ok(
            WordProcessor {
                total_length,
                total_words: tokens.len(),
                rare_words,
                unique_words: words.len(),
                words,
                bigrams,
                trigrams,
            },
        )
    }

    /// The bucket of the type-token ratio `unique_words / total_words`: under
    /// 0.05 low, under 0.15 medium, under 0.3 medium-high, else high.
    pub fn variation(&self) -> (bucket: Variation)
        ensures
            bucket == self.variation_spec(),
    {
        let unique: u128 = self.unique_words as u128;
        let total: u128 = self.total_words as u128;
        if 100 * unique < 5 * total {
            Variation::Low
        } else if 100 * unique < 15 * total {
            Variation::Medium
        } else if 100 * unique < 30 * total {
            Variation::MediumHigh
        } else {
            Variation::High
        }
    }

    /// The bucket of the type-token ratio, in words.
    pub fn get_variation_string(&self) -> (text: String)
        ensures
            text@ == self.variation_spec().label(),
    {
        self.variation().name()
    }
}

/// Without a stopword set the counts of the word table add up to the number of
/// tokens of the text.
pub proof fn lemma_counts_cover_the_text(report: WordProcessor, text: Seq<char>)
    requires
        report.describes(text, None),
    ensures
        total_count(report.words.deep_view()) == report.total_words,
        total_count(report.words.deep_view()) == tokens_of(text).len(),
{
    lemma_unigrams_unfiltered(tokens_of(text));
    lemma_tally_total(report.words.deep_view(), tokens_of(text));
}

/// With or without stopwords, the counts of each table add up to the number
/// of n-grams of its order, every count is at least one, and the rare words
/// are the words whose count is one.
pub proof fn lemma_counts_cover_the_ngrams(
    report: WordProcessor,
    text: Seq<char>,
    stop: Option<Set<Seq<char>>>,
)
    requires
        report.describes(text, stop),
    ensures
        total_count(report.words.deep_view()) == ngrams_of(tokens_of(text), 1, stop).len(),
        total_count(report.bigrams.deep_view()) == ngrams_of(tokens_of(text), 2, stop).len(),
        total_count(report.trigrams.deep_view()) == ngrams_of(tokens_of(text), 3, stop).len(),
        total_count(report.words.deep_view()) <= report.total_words,
        forall|i: int|
            0 <= i < report.words.len() ==> (#[trigger] report.words.deep_view()[i]).count >= 1,
        report.rare_words == report.words.deep_view().filter(|e: Entry| e.count == 1).len(),
{
    let tokens = tokens_of(text);
    lemma_tally_total(report.words.deep_view(), ngrams_of(tokens, 1, stop));
    lemma_tally_total(report.bigrams.deep_view(), ngrams_of(tokens, 2, stop));
    lemma_tally_total(report.trigrams.deep_view(), ngrams_of(tokens, 3, stop));
    lemma_ngrams_len(tokens, 1, stop);
}

/// A table has no more entries than its counts add up to, where every count is at least one.
pub proof fn lemma_total_count_bounds(entries: Seq<Entry>)
    requires
        forall|i: int| 0 <= i < entries.len() ==> (#[trigger] entries[i]).count >= 1,
    ensures
        total_count(entries) >= entries.len(),
    decreases entries.len(),
{
    if entries.len() > 0 {
        let rest = entries.drop_last();
        assert forall|i: int| 0 <= i < rest.len() implies (#[trigger] rest[i]).count >= 1 by {
            assert(rest[i] == entries[i]);
        }
        lemma_total_count_bounds(rest);
    }
}

/// There are no more n-grams than windows, and no more windows than tokens.
pub proof fn lemma_ngrams_len(tokens: Seq<Seq<char>>, size: nat, stop: Option<Set<Seq<char>>>)
    ensures
        ngrams_of(tokens, size, stop).len() <= window_count(tokens.len(), size) <= tokens.len(),
{
    let windows = crate::ngram::windows_of(tokens, size);
    windows.lemma_filter_len(clear_test(stop));
}

/// Without a stopword set the n-grams of order one are the tokens themselves.
pub proof fn lemma_unigrams_unfiltered(tokens: Seq<Seq<char>>)
    ensures
        ngrams_of(tokens, 1, None) == tokens,
{
    lemma_unigrams_prefix(tokens, tokens.len());
    assert(tokens.take(tokens.len() as int) =~= tokens);
}

/// Without a stopword set the first n-grams of order one are the first tokens.
proof fn lemma_unigrams_prefix(tokens: Seq<Seq<char>>, upto: nat)
    requires
        upto <= tokens.len(),
    ensures
        ngrams_upto(tokens, 1, None, upto) == tokens.take(upto as int),
    decreases upto,
{
    if upto == 0 {
        assert(ngrams_upto(tokens, 1, None, 0) =~= tokens.take(0));
    } else {
        let before = (upto - 1) as nat;
        lemma_unigrams_prefix(tokens, before);
        lemma_ngrams_upto_next(tokens, 1, None, before);
        let window = window_at(tokens, before as int, 1);
        assert(window.len() == 1);
        assert(window[0] == tokens[before as int]);
        assert(joined(window) == tokens[before as int]);
        assert(tokens.take(upto as int) =~= tokens.take(before as int).push(tokens[before as int]));
    }
}

/// The number of entries of `table` that occur exactly once.
pub fn count_rare(table: &Vec<WordData>) -> (rare: usize)
    ensures
        rare == rare_count(table.deep_view()),
{
    let ghost entries = table.deep_view();
    let ghost once = |e: Entry| e.count == 1;
    let mut rare: usize = 0;
    proof {
        assert(entries.take(0) =~= Seq::<Entry>::empty());
        assert(entries.take(0).filter(once).len() == 0);
    }
    for i in 0..table.len()
        invariant
            entries == table.deep_view(),
            once == |e: Entry| e.count == 1,
            rare == entries.take(i as int).filter(once).len(),
            rare <= i,
    {
        proof {
            assert(entries.take(i + 1) =~= entries.take(i as int).push(entries[i as int]));
            Seq::lemma_filter_push(entries.take(i as int), entries[i as int], once);
            assert(entries[i as int] == table[i as int]@);
        }
        if table[i].count == 1 {
            rare = rare + 1;
        }
    }
    proof {
        assert(entries.take(table.len() as int) =~= entries);
    }
    rare
}

/// The sum of the lengths, in characters, of the texts of `table`.
pub fn sum_lengths(table: &Vec<WordData>) -> (sum: u128)
    ensures
        sum == total_length(table.deep_view()),
{
    let ghost entries = table.deep_view();
    let mut sum: u128 = 0;
    proof {
        assert(entries.take(0) =~= Seq::<Entry>::empty());
    }
    for i in 0..table.len()
        invariant
            entries == table.deep_view(),
            sum == total_length(entries.take(i as int)),
            sum <= i * usize::MAX,
    {
        let length = table[i].text.as_str().unicode_len();
        proof {
            assert(entries.take(i + 1).drop_last() =~= entries.take(i as int));
            assert(entries.take(i + 1).last() == table[i as int]@);
            assert((i + 1) * usize::MAX == i * usize::MAX + usize::MAX) by (nonlinear_arith);
            assert(i * usize::MAX <= usize::MAX * usize::MAX) by (nonlinear_arith)
                requires
                    i <= usize::MAX,
            ;
            assert(usize::MAX * usize::MAX + usize::MAX <= u128::MAX) by (nonlinear_arith)
                requires
                    usize::MAX <= 0xffff_ffff_ffff_ffff,
            ;
        }
        sum = sum + length as u128;
    }
    proof {
        assert(entries.take(table.len() as int) =~= entries);
    }
    sum
}

} // verus!
