//! CRAFT: a corpus builder that reduces marked-up documents to a uniform stream of lowercase,
//! punctuation-free words, keeping paragraph boundaries as explicit line breaks.
//!
//! The library holds the parts that compute: the character-level helpers, the tokenizer, the
//! document-tree flattener, the markup preprocessors and the decision logic of the source readers.

pub mod common;
pub mod config;
pub mod document;
pub mod input_source;
pub mod modules;
pub mod text;
pub mod textfilter;
