//! A rule-based word tokenizer and punctuation normalizer for multilingual text, with the
//! Moses tokenization rules.
use vstd::prelude::*;

pub mod escape;
pub mod language;
pub mod multidot;
pub mod normalizer;
pub mod prefixes;
pub mod rewrite;
pub mod rules;
pub mod text;
pub mod tokenizer;
pub mod uniprops;

pub use language::{Language, UnknownLanguage};
pub use normalizer::MosesPunctNormalizer;
pub use tokenizer::{MosesTokenizer, Tokens};
pub use uniprops::PerlUniProps;

verus! {

} // verus!
