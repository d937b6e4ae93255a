//! Reading CI logs: extraction of test errors, and the reports built from them.

pub mod commands;
pub mod durations;
pub mod github;
pub mod github_laws;
pub mod matching;
pub mod models;
pub mod number;
pub mod order;
pub mod parsers;
pub mod patterns;
pub mod seqs;
pub mod text;
pub mod text_laws;
