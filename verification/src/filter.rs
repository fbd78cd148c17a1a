//! The stopword filter: a set of words that frequency analysis leaves out.

use vstd::prelude::*;
use crate::error::AnalysisError;

verus! {

/// A set of lowercase words.
#[derive(Clone, Debug)]
pub struct WordFilter(Vec<String>);

#[verifier::external_type_specification]
#[verifier::external_body]
pub struct ExJsonError(serde_json::Error);

/// What `serde_json` reads from `text` as a list of strings: the strings of the
/// JSON array that is the whole text, in order, or `None` where the text is
/// not a JSON array of strings.
pub uninterp spec fn json_word_list(text: Seq<char>) -> Option<Seq<Seq<char>>>;

/// `serde_json::from_str` at the type `Vec<String>`. The outcome is a function
/// of the text alone; the contract gives it its name and claims no more.
#[verifier::external_body]
fn parse_word_list(text: &str) -> (parsed: Result<Vec<String>, serde_json::Error>)
    ensures
        match parsed {
            Ok(words) => json_word_list(text@) == Some(words.deep_view()),
            Err(_) => json_word_list(text@) is None,
        },
{
    serde_json::from_str::<Vec<String>>(text)
}

/// The message of a `serde_json::Error`, as its `Display` writes it. Nothing
/// is claimed of the text.
#[verifier::external_body]
fn error_message(error: &serde_json::Error) -> String {
    error.to_string()
}

impl View for WordFilter {
    type V = Set<Seq<char>>;

    closed spec fn view(&self) -> Set<Seq<char>> {
        self.0.deep_view().to_set()
    }
}

/// The set that an optional filter stands for: `None` filters nothing.
pub open spec fn stop_set(filter: Option<WordFilter>) -> Option<Set<Seq<char>>> {
    match filter {
        Some(words) => Some(words@),
        None => None,
    }
}

impl WordFilter {
    /// The filter that holds exactly the given words.
    pub fn new(words: Vec<String>) -> (filter: WordFilter)
        ensures
            filter@ == words.deep_view().to_set(),
    {
        WordFilter(words)
    }

    /// The filter that a parsed word list gives: the set of its words, or a
    /// format error where the text held no word list.
    pub fn from_parsed(parsed: Result<Vec<String>, String>) -> (made: Result<WordFilter, AnalysisError>)
        ensures
            match parsed {
                Ok(words) => made matches Ok(filter) && filter@ == words.deep_view().to_set(),
                Err(message) => made == Err::<WordFilter, AnalysisError>(AnalysisError::Format { message }),
            },
    {
        match parsed {
            Ok(words) => Ok(WordFilter::new(words)),
            Err(message) => Err(AnalysisError::Format { message }),
        }
    }

    /// Reads a filter from JSON of the form `["word1","word2",...]`. A word
    /// given twice counts once.
    pub fn from_json(text: &str) -> (made: Result<WordFilter, AnalysisError>)
        ensures
            match json_word_list(text@) {
                Some(words) => made matches Ok(filter) && filter@ == words.to_set(),
                None => made matches Err(error) && error is Format,
            },
    {
        match parse_word_list(text) {
            Ok(words) => WordFilter::from_parsed(Ok(words)),
            Err(error) => WordFilter::from_parsed(Err(error_message(&error))),
        }
    }

    /// Whether `s` is one of the words of the filter.
    pub fn contains(&self, s: &str) -> (found: bool)
        ensures
            found == self@.contains(s@),
    {
        for i in 0..self.0.len()
            invariant
                forall|k: int| 0 <= k < i ==> (#[trigger] self.0[k])@ != s@,
        {
            if self.0[i].as_str().eq(s) {
                proof {
                    assert(self.0.deep_view()[i as int] == s@);
                }
                return true;
            }
        }
        proof {
            assert forall|k: int| 0 <= k < self.0.deep_view().len() implies (
            #[trigger] self.0.deep_view()[k]) != s@ by {
                assert(self.0.deep_view()[k] == self.0[k]@);
            }
        }
        false
    }
}

} // verus!
