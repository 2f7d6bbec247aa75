//! Masked-word prediction: the verified core of a BERT-style fill-mask
//! pipeline.
//!
//! The library parses a vocabulary, drives a WordPiece tokenizer from the
//! `tokenizers` crate through trusted wrappers, locates mask-marker tokens,
//! selects the highest-scoring vocabulary id for each masked position, and
//! substitutes the predicted token texts back into the original sentence.
//! Model scores reach the library as order-preserving integer keys, so the
//! leftmost-maximum selection rule is proved exactly.

pub mod bridge;
pub mod chars;
pub mod pipeline;
pub mod scores;
pub mod text;
pub mod vocab;
