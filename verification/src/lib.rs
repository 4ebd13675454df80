//! A small lexical analyzer: it turns raw source text into a sequence of
//! classified tokens, pulled one at a time by a downstream consumer.
//!
//! The lexical grammar itself is stated once, as spec functions over the
//! input character sequence (`model`), and the executable tokenizer
//! (`tokenizer`) is proved to follow it pull by pull. General facts about
//! the grammar are proved in `laws`.

pub mod laws;
pub mod model;
pub mod tokenizer;
pub mod tokens;
