//! What the matchmaking queue answers to the two players that it pairs.
use crate::models::Player;
use vstd::prelude::*;

verus! {

/// The answer to a player who joined a game.
#[derive(Debug)]
pub struct JoinGameResponse {
    /// The identifier of the game, `None` where no game could be made.
    pub game_id: Option<String>,
    /// Which of the two players the one who asked is.
    pub player_type: Player,
}

impl JoinGameResponse {
    /// The answer to one of the two players of a pair. The one who leads
    /// the pair made the game and is player 1; the other was told of the
    /// game and is player 2.
    pub fn for_pair(is_leader: bool, game_id: Option<String>) -> (answer: JoinGameResponse)
        ensures
            answer.game_id == game_id,
            answer.player_type == if is_leader {
                Player::P1
            } else {
                Player::P2
            },
    {
        if is_leader {
            JoinGameResponse { game_id, player_type: Player::P1 }
        } else {
            JoinGameResponse { game_id, player_type: Player::P2 }
        }
    }
}

} // verus!
