//! The letter knowledge of a two-player word-guessing game, and the records
//! around it.
//!
//! Each guess at a target word comes with one state for each of its
//! letters. `encoding` settles the states of letters that a guess holds
//! more than once and merges the outcome into the pool of a round, which
//! keeps two bits for each letter from `a` to `z`. `scalars` holds the
//! bounded integers that carry such values, `packing` the way in which
//! states are packed into them, and `wire` the doubles in which the wider
//! ones travel. `models`, `ident` and `errors` hold the records of a game,
//! its identifier and the errors that go out; `mutation`, `query` and
//! `join_game` hold what the servers decide once the store has answered.

pub mod encoding;
pub mod errors;
pub mod ident;
pub mod join_game;
pub mod models;
pub mod mutation;
pub mod packing;
pub mod query;
pub mod scalars;
pub mod wire;
