//! Fuzzy string matching: edit-distance based similarity scores between two strings.
pub mod distance;
pub mod laws;
pub mod normalize;
pub mod order;
pub mod scorer;
pub mod text;
pub mod tokens;

pub use distance::{levenshtein, Score};
pub use normalize::clean_string;
pub use scorer::{partial_ratio, ratio, token_set_ratio, token_sort_ratio};
