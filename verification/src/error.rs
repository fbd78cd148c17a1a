//! What can go wrong in the library.

use vstd::prelude::*;

verus! {

/// A failure of the library.
#[derive(Clone, Debug, PartialEq, Eq)]
pub enum AnalysisError {
    /// The stopword list is not a JSON array of strings. The message is the
    /// parser's own.
    Format { message: String },
    /// No word of the text is left to count.
    EmptyInput,
}

impl AnalysisError {
    /// A line for the user.
    pub fn describe(&self) -> (line: String)
        ensures
            self is EmptyInput ==> line@ == "there is no text to analyze"@,
            self matches AnalysisError::Format { message } ==> line@
                == "could not parse the words of the filter (needs json): "@ + message@,
    {
        match self {
            AnalysisError::EmptyInput => "there is no text to analyze".to_owned(),
            AnalysisError::Format { message } => {
                let mut line = "could not parse the words of the filter (needs json): ".to_owned();
                line.append(message.as_str());
                line
            },
        }
    }
}

} // verus!
