//! What the queries of the game server decide, apart from their talking to
//! the store.
use crate::errors::{ErrorKind, GraphqlServerError};
use vstd::prelude::*;

verus! {

/// The root of the queries.
#[derive(Debug, PartialEq, Eq, Clone, Copy, Structural)]
pub struct Query;

/// What the store answered when it was asked for a game, in whatever shape
/// the store keeps its games.
#[derive(Debug)]
pub enum Lookup<T> {
    /// The game that was asked for.
    Found(T),
    /// There is no such game.
    Missing,
    /// The store failed.
    Failed,
}

impl Query {
    /// The version of the interface.
    pub fn api_version() -> (version: &'static str)
        ensures
            version@ == "1.0"@,
    {
        "1.0"
    }

    /// The answer to the query for one game: the game where the store
    /// found it, else the error.
    pub fn game<T>(lookup: Lookup<T>) -> (answer: Result<T, GraphqlServerError>)
        ensures
            match answer {
                Ok(game) => lookup == Lookup::Found(game),
                Err(error) => match lookup {
                    Lookup::Found(_) => false,
                    Lookup::Missing => error.holds("No game with id found"@, ErrorKind::NotFound),
                    Lookup::Failed => error.holds(
                        "Failed to execute find game query"@,
                        ErrorKind::Internal,
                    ),
                },
            },
    {
        match lookup {
            Lookup::Found(game) => Ok(game),
            Lookup::Missing => Err(
                GraphqlServerError::new(
                    String::from_str("No game with id found"),
                    ErrorKind::NotFound,
                ),
            ),
            Lookup::Failed => Err(
                GraphqlServerError::new(
                    String::from_str("Failed to execute find game query"),
                    ErrorKind::Internal,
                ),
            ),
        }
    }
}

} // verus!
