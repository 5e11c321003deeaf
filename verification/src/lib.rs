//! Part-of-speech tagging core.
//!
//! The crate covers the prediction pipeline of a POS tagger: merging
//! sub-word predictions back into one prediction per word, overriding
//! low-confidence punctuation predictions, orchestrating a batch of
//! texts, and rendering the result as text. Tokenization and model
//! inference are external collaborators; the pipeline consumes their
//! output as plain [`aggregation::RawPrediction`] values.

pub mod aggregation;
pub mod heuristic;
pub mod pos_tagging;
pub mod render;
pub mod rusttagr;
pub mod score;
