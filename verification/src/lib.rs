//! Word and n-gram frequency analysis of a text: tokenization, stopword
//! filtering, frequency tables, lexical diversity, ranked listings, keyword
//! concordance and word-cloud layout, with machine-checked contracts.

pub mod analysis;
pub mod cloud;
pub mod commands;
pub mod compare;
pub mod concordance;
pub mod diversity;
pub mod error;
pub mod filter;
pub mod frequency;
pub mod listing;
pub mod ngram;
pub mod text;
pub mod tokenizer;
pub mod unicode;

pub use analysis::WordProcessor;
pub use commands::Commands;
pub use commands::FileArgs;
pub use error::AnalysisError;
pub use filter::WordFilter;
pub use frequency::WordData;
