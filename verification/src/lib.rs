//! The decision logic of a mutation-testing tool for Rust projects.
//!
//! A run asks a language model for one-line changes to a project, tests each of
//! them, and asks the model what the surviving ones mean. Everything that is
//! decided on the way is decided here, on plain values; reading and writing
//! files, running the tests and calling the model are left to the caller.

pub mod auto_apply;
pub mod blocks;
pub mod config;
pub mod decoding;
pub mod discovery;
pub mod fences;
pub mod mutation;
pub mod numerals;
pub mod patch;
pub mod paths;
pub mod prompts;
pub mod reply;
pub mod report;
pub mod run;
pub mod sources;
pub mod summary;
pub mod target;
pub mod text;
pub mod trial;
pub mod workflow;
