//! A contextual word completer for a space-separated command line.
//!
//! Given the text of a line up to the cursor, the completer determines which
//! field of the command the cursor is in (bucket, date, or station), filters
//! that field's fixed vocabulary by case-insensitive substring match against
//! the word being typed, and returns suggestions anchored to the span of text
//! they should replace.

pub mod completer;
pub mod matching;
pub mod tokenize;

pub use completer::{
    candidates_to_suggestions, complete_buckets, complete_date, complete_stations,
    IngestionCompleter, Span, Suggestion,
};
pub use matching::{contains_substr, find_substr_filter};
pub use tokenize::get_words;
