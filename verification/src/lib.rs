//! Consolidated order books across two exchanges.
//!
//! Each trading pair has a session that keeps the latest snapshot of every
//! exchange, merges them into one ask ladder and one bid ladder, keeps the
//! best levels of each, computes the spread between them and marks what
//! changed since the view before.

pub mod text;
pub mod decimal;
pub mod pairs;
pub mod book;
pub mod decode;
pub mod ladder;
pub mod store;
pub mod merge;
pub mod select;
pub mod view;
pub mod change;
pub mod session;
pub mod aggregator;
pub mod render;
pub mod endpoint;
pub mod laws;
