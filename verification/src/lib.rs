//! The decisions of a local semantic file search, verified.
//!
//! A query in plain words is answered with a ranked list of paths: the
//! description of every indexed file was embedded as a vector, the query is
//! embedded in the same way, and the files are ranked by the similarity of
//! their vectors to the query's. Where the two best results are too close to
//! call, a second opinion is asked.
//!
//! This library holds what is decided on the way: how a file is described,
//! what is read from the embedding backend's answer, how a vector is laid out
//! in a stored row, how a query is normalized, how scored paths are ranked,
//! when the second opinion is asked and when its answer is accepted, and how
//! the result is put together. Reading files, calling the backends, the
//! database and all arithmetic on single-precision numbers are the caller's;
//! a similarity score reaches the library as the bits of its number.

pub mod decider;
pub mod embedding;
pub mod engine;
pub mod indexer;
pub mod path;
pub mod query;
pub mod ranker;
pub mod representation;
pub mod score;
pub mod search;
pub mod shell;
pub mod store;
pub mod text;
