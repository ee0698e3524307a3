//! What the mutations of the game server decide, apart from their talking
//! to the store.
use crate::errors::{ErrorKind, GraphqlServerError};
use crate::ident::is_drawn_form;
use crate::models::Game;
use vstd::prelude::*;

verus! {

/// The root of the mutations.
#[derive(Debug, PartialEq, Eq, Clone, Copy, Structural)]
pub struct Mutation;

/// How often the insertion of a new game is tried again under a fresh
/// identifier.
pub const MAX_RETRY: u8 = 2;

/// What is to be done once the store has answered to the insertion of a
/// new game.
#[derive(Debug)]
pub enum InsertStep {
    /// The game is stored: answer with its identifier.
    Done(String),
    /// The game is not stored: insert it again, as the attempt with the
    /// number given.
    Retry(u8),
    /// The game is not stored and will not be: answer with the error.
    GiveUp(GraphqlServerError),
}

impl Mutation {
    /// The version of the interface.
    pub fn api_version() -> (version: &'static str)
        ensures
            version@ == "1.0"@,
    {
        "1.0"
    }

    /// Decides what follows an attempt to insert a new game. A game that
    /// was inserted is done. One that was not gets a fresh identifier and
    /// another attempt, twice at most, since the identifier may have been
    /// taken; after that the insertion has failed.
    pub fn after_insert(new_game: &mut Game, attempt: u8, inserted: bool) -> (step: InsertStep)
        ensures
            match step {
                InsertStep::Done(id) => {
                    &&& inserted
                    &&& id@ == old(new_game).id_text()
                    &&& *final(new_game) == *old(new_game)
                },
                InsertStep::Retry(next) => {
                    &&& !inserted
                    &&& attempt < MAX_RETRY
                    &&& next == attempt + 1
                    &&& is_drawn_form(final(new_game).id_text())
                    &&& final(new_game).same_but_id(*old(new_game))
                },
                InsertStep::GiveUp(error) => {
                    &&& !inserted
                    &&& attempt >= MAX_RETRY
                    &&& error.holds("Failed to execute insert"@, ErrorKind::Internal)
                    &&& *final(new_game) == *old(new_game)
                },
            },
    {
        if inserted {
            InsertStep::Done(new_game.id())
        } else if attempt < MAX_RETRY {
            new_game.new_id();
            InsertStep::Retry(attempt + 1)
        } else {
            InsertStep::GiveUp(
                GraphqlServerError::new(
                    String::from_str("Failed to execute insert"),
                    ErrorKind::Internal,
                ),
            )
        }
    }

    /// The answer to the removal of a game, from the number of games that
    /// the store removed, `None` where the store failed: whether one game
    /// was removed, or the error.
    pub fn remove_game(deleted: Option<u64>) -> (answer: Result<bool, GraphqlServerError>)
        ensures
            match answer {
                Ok(removed) => deleted matches Some(count) && removed == (count == 1),
                Err(error) => deleted is None && error.holds(
                    "Failed to execute delete"@,
                    ErrorKind::Internal,
                ),
            },
    {
        match deleted {
            Some(count) => Ok(count == 1),
            None => Err(
                GraphqlServerError::new(
                    String::from_str("Failed to execute delete"),
                    ErrorKind::Internal,
                ),
            ),
        }
    }

    /// The answer to the removal of all games, from whether the store
    /// carried it out: `true`, or the error.
    pub fn remove_games(carried_out: bool) -> (answer: Result<bool, GraphqlServerError>)
        ensures
            match answer {
                Ok(removed) => carried_out && removed,
                Err(error) => !carried_out && error.holds(
                    "Failed to execute all deletes"@,
                    ErrorKind::Internal,
                ),
            },
    {
        if carried_out {
            Ok(true)
        } else {
            Err(
                GraphqlServerError::new(
                    String::from_str("Failed to execute all deletes"),
                    ErrorKind::Internal,
                ),
            )
        }
    }
}

} // verus!
