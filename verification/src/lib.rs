//! Contamination detection between training documents and evaluation suites.
//!
//! The library samples n-grams of a tokenized training document, looks them up
//! in an index built from evaluation questions, and expands each hit into a
//! cluster of matching evaluation documents.

pub mod ngram;
pub mod sets;
pub mod cluster;
pub mod stats;
pub mod detection;
pub mod boundary;
pub mod text;
pub mod display;
pub mod paths;
pub mod config;
pub mod index;
pub mod reference;
pub mod keyset;
pub mod tokenizer;
pub mod matching;
pub mod overlap;
pub mod sort;
pub mod review;
pub mod compare;
pub mod jobs;
pub mod json;
pub mod hot_buckets;
pub mod eval_stats;
