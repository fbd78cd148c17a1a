//! The options of one run, and what each of them asks of an analysis.
//!
//! Nothing here reads a file or prints a line. Each method answers with the
//! values to be shown, or with `None` where its option is not set.

use vstd::prelude::*;
use crate::analysis::WordProcessor;
use crate::cloud::WordCloud;
use crate::cloud::candidates_of;
use crate::cloud::start_of;
use crate::concordance::Concordance;
use crate::concordance::find_in_context;
use crate::diversity::DiversitySummary;
use crate::diversity::summarize;
use crate::error::AnalysisError;
use crate::filter::WordFilter;
use crate::filter::json_word_list;
use crate::frequency::WordData;
use crate::listing::NgramOrder;
use crate::listing::TopListing;
use crate::listing::listed;
use crate::listing::requested;
use crate::listing::requested_count;
use crate::listing::top_entries;

verus! {

/// The texts of a run: one to analyse, or two to compare.
#[derive(Clone, Debug, PartialEq, Eq)]
pub struct FileArgs {
    /// The path of the text to analyse.
    pub analyze: Option<String>,
    /// The paths of the texts to compare.
    pub compare: Option<Vec<String>>,
}

/// The options of a run.
#[derive(Clone, Debug, PartialEq, Eq)]
pub struct Commands {
    pub file_args: FileArgs,
    /// Whether stopwords are counted like other words.
    pub analyze_stopwords: bool,
    /// The number of entries to list, most frequent first.
    pub top: Option<i64>,
    /// Whether the diversity summary is shown.
    pub diversity: bool,
    /// The path to which the analysis is written.
    pub out: Option<String>,
    /// The order of the n-grams to list in place of words: 2 or 3.
    pub n_grams: Option<i64>,
    /// The path of a stopword list to use in place of the built-in one.
    pub custom_filter: Option<String>,
    /// The string to search in context.
    pub concordance: Option<String>,
    /// The greatest number of hits to show.
    pub max: Option<usize>,
    /// Whether the word cloud is shown.
    pub cloud: bool,
    /// The width of the word cloud.
    pub width: usize,
}

/// Where the stopwords of a run come from.
#[derive(Clone, Debug, PartialEq, Eq)]
pub enum FilterSource {
    /// Nothing is filtered.
    Off,
    /// The list in the file at this path.
    Custom { path: String },
    /// The built-in list.
    BuiltIn,
}

/// What a run is to do.
#[derive(Clone, Debug, PartialEq, Eq)]
pub enum Task {
    /// Compare two texts. The options in `ignored` are set but have no effect
    /// on a comparison.
    Compare { first: String, second: String, ignored: Vec<String> },
    /// Analyse one text.
    Analyze { path: String },
    /// No text was named.
    Idle,
}

/// `names` with `name` added if `set` holds.
pub open spec fn with_name(names: Seq<Seq<char>>, set: bool, name: Seq<char>) -> Seq<Seq<char>> {
    if set {
        names.push(name)
    } else {
        names
    }
}

impl Commands {
    /// The table that `top` lists: pairs for order 2, triples for any other
    /// order, words where no order is given.
    pub open spec fn listed_order(&self) -> NgramOrder {
        match self.n_grams {
            None => NgramOrder::Words,
            Some(order) => if order == 2 {
                NgramOrder::Bigrams
            } else {
                NgramOrder::Trigrams
            },
        }
    }

    /// The table of `processor` that `top` lists.
    pub open spec fn listed_table(&self, processor: &WordProcessor) -> Vec<WordData> {
        match self.listed_order() {
            NgramOrder::Words => processor.words,
            NgramOrder::Bigrams => processor.bigrams,
            NgramOrder::Trigrams => processor.trigrams,
        }
    }

    /// The names of the options that are set and have no effect on a
    /// comparison, in the order in which they are reported.
    pub open spec fn ignored_in_compare(&self) -> Seq<Seq<char>> {
        let none = Seq::<Seq<char>>::empty();
        let a = with_name(none, self.analyze_stopwords, "analyze_stopwords"@);
        let b = with_name(a, self.top is Some, "top"@);
        let c = with_name(b, self.n_grams is Some, "n_grams"@);
        let d = with_name(c, self.concordance is Some, "concordance"@);
        let e = with_name(d, self.out is Some, "out"@);
        with_name(e, self.cloud, "cloud"@)
    }

    /// The ranked listing that the option `top` asks for, or `None` where it
    /// is not set. Asking for more entries than the table has gives all of
    /// them and sets `exceeds`.
    pub fn top(&self, processor: &WordProcessor) -> (listing: Option<TopListing>)
        ensures
            match (self.top, listing) {
                (Some(wanted), Some(shown)) => {
                    let table = self.listed_table(processor);
                    &&& shown.order == self.listed_order()
                    &&& shown.requested == requested_count(wanted)
                    &&& shown.exceeds == (requested_count(wanted) > table.len())
                    &&& shown.unique_words == processor.unique_words
                    &&& shown.entries.deep_view() == listed(
                        table.deep_view(),
                        requested_count(wanted),
                    )
                },
                (None, None) => true,
                _ => false,
            },
    {
        let wanted = match self.top {
            Some(wanted) => requested(wanted),
            None => {
                return None;
            },
        };
        let order = match self.n_grams {
            None => NgramOrder::Words,
            Some(order) => if order == 2 {
                NgramOrder::Bigrams
            } else {
                NgramOrder::Trigrams
            },
        };
        let table: &Vec<WordData> = match order {
            NgramOrder::Words => &processor.words,
            NgramOrder::Bigrams => &processor.bigrams,
            NgramOrder::Trigrams => &processor.trigrams,
        };
        Some(
            TopListing {
                order,
                requested: wanted,
                exceeds: wanted > table.len() as u64,
                unique_words: processor.unique_words,
                entries: top_entries(table, wanted),
            },
        )
    }

    /// The diversity summary, or `None` where the option is not set. The
    /// analysis must have a word.
    pub fn diversity(&self, processor: &WordProcessor) -> (summary: Option<DiversitySummary>)
        requires
            self.diversity ==> processor.words.len() > 0,
        ensures
            summary is Some <==> self.diversity,
            summary matches Some(figures) ==> figures.sums_up(processor),
    {
        if !self.diversity {
            return None;
        }
        Some(summarize(processor))
    }

    /// Where the stopwords of the run come from.
    pub fn filter_source(&self) -> (source: FilterSource)
        ensures
            self.analyze_stopwords ==> source is Off,
            !self.analyze_stopwords ==> match self.custom_filter {
                Some(path) => source matches FilterSource::Custom { path: given } && given@ == path@,
                None => source is BuiltIn,
            },
    {
        if self.analyze_stopwords {
            FilterSource::Off
        } else {
            match &self.custom_filter {
                Some(path) => FilterSource::Custom { path: path.clone() },
                None => FilterSource::BuiltIn,
            }
        }
    }

    /// The stopword filter of the run, read from `filter_text`, which holds
    /// the list that `filter_source` names, as JSON. Where stopwords are
    /// counted like other words there is no filter, and the text is not read.
    pub fn get_word_filter(&self, filter_text: &str) -> (made: Result<
        Option<WordFilter>,
        AnalysisError,
    >)
        ensures
            self.analyze_stopwords ==> made matches Ok(None),
            !self.analyze_stopwords ==> match json_word_list(filter_text@) {
                Some(words) => made matches Ok(Some(filter)) && filter@ == words.to_set(),
                None => made matches Err(error) && error is Format,
            },
    {
        if self.analyze_stopwords {
            return Ok(None);
        }
        match WordFilter::from_json(filter_text) {
            Ok(filter) => Ok(Some(filter)),
            Err(error) => Err(error),
        }
    }

    /// The names of the options that are set and have no effect on a comparison.
    pub fn ignored_options(&self) -> (names: Vec<String>)
        ensures
            names.deep_view() == self.ignored_in_compare(),
    {
        let mut names: Vec<String> = Vec::new();
        proof {
            assert(names.deep_view() =~= Seq::<Seq<char>>::empty());
        }
        if self.analyze_stopwords {
            let ghost before = names.deep_view();
            names.push("analyze_stopwords".to_owned());
            proof {
                assert(names.deep_view() =~= before.push("analyze_stopwords"@));
            }
        }
        if self.top.is_some() {
            let ghost before = names.deep_view();
            names.push("top".to_owned());
            proof {
                assert(names.deep_view() =~= before.push("top"@));
            }
        }
        if self.n_grams.is_some() {
            let ghost before = names.deep_view();
            names.push("n_grams".to_owned());
            proof {
                assert(names.deep_view() =~= before.push("n_grams"@));
            }
        }
        if self.concordance.is_some() {
            let ghost before = names.deep_view();
            names.push("concordance".to_owned());
            proof {
                assert(names.deep_view() =~= before.push("concordance"@));
            }
        }
        if self.out.is_some() {
            let ghost before = names.deep_view();
            names.push("out".to_owned());
            proof {
                assert(names.deep_view() =~= before.push("out"@));
            }
        }
        if self.cloud {
            let ghost before = names.deep_view();
            names.push("cloud".to_owned());
            proof {
                assert(names.deep_view() =~= before.push("cloud"@));
            }
        }
        names
    }

    /// What the run is to do: compare the first two of the texts given for
    /// comparison, or else analyse the one text given, or else nothing. Where
    /// texts are given for comparison there must be two of them.
    pub fn handle_commands(&self) -> (task: Task)
        requires
            self.file_args.compare matches Some(paths) ==> paths.len() >= 2,
        ensures
            match self.file_args.compare {
                Some(paths) => task matches Task::Compare { first, second, ignored } && first@
                    == paths[0]@ && second@ == paths[1]@ && ignored.deep_view()
                    == self.ignored_in_compare(),
                None => match self.file_args.analyze {
                    Some(given) => task matches Task::Analyze { path } && path@ == given@,
                    None => task is Idle,
                },
            },
    {
        match &self.file_args.compare {
            Some(paths) => Task::Compare {
                first: paths[0].clone(),
                second: paths[1].clone(),
                ignored: self.ignored_options(),
            },
            None => match &self.file_args.analyze {
                Some(path) => Task::Analyze { path: path.clone() },
                None => Task::Idle,
            },
        }
    }

    /// The concordance of the search string in `haystack`, or `None` where no
    /// search string is set.
    pub fn concordance(&self, haystack: &str) -> (found: Option<Concordance>)
        ensures
            match (self.concordance, found) {
                (Some(needle), Some(hits)) => hits.describes(haystack@, needle@, self.max),
                (None, None) => true,
                _ => false,
            },
    {
        match &self.concordance {
            Some(needle) => Some(find_in_context(haystack, needle.as_str(), self.max)),
            None => None,
        }
    }

    /// The word cloud of the analysis at the width of the run, laid out in an
    /// order drawn by chance, or `None` where the option is not set.
    pub fn cloud(&self, processor: &WordProcessor) -> (laid_out: Option<WordCloud>)
        ensures
            laid_out is Some <==> self.cloud,
            laid_out matches Some(cloud) ==> cloud@.remaining.len() == 0 && exists|picks: Seq<int>|
                #![trigger start_of(processor.words.deep_view(), self.width as nat).place_all(picks)]
                {
                    &&& picks.len() == candidates_of(processor.words.deep_view()).len()
                    &&& start_of(processor.words.deep_view(), self.width as nat).allows_all(picks)
                    &&& cloud@ == start_of(
                        processor.words.deep_view(),
                        self.width as nat,
                    ).place_all(picks)
                },
    {
        if !self.cloud {
            return None;
        }
        Some(WordCloud::scatter(&processor.words, self.width))
    }
}

} // verus!
