//! Unsupervised sentence-boundary detection.
//!
//! The library learns, from raw text, which token spellings are
//! abbreviations, which adjacent pairs are collocations, and which spellings
//! conventionally start sentences; it then combines that knowledge with
//! orthographic heuristics to split text into sentences.
//!
//! - [`chars`]: character classes and spelling normalization.
//! - [`prelude`]: character-class capabilities and orthographic context codes.
//! - [`math`]: fixed-point likelihood-ratio scores in micro-units.
//! - [`token`]: annotated word tokens and word-level pre-tokenization.
//! - [`training_data`]: the persisted knowledge store.
//! - [`util`]: the first-pass annotation.
//! - [`trainer`]: the statistical training passes.
//! - [`tokenizer`]: the decision cascade and sentence span assembly.

pub mod chars;
pub mod math;
pub mod persist;
pub mod prelude;
pub mod token;
pub mod trainer;
pub mod training_data;
pub mod tokenizer;
pub mod util;
