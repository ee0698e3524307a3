//! The records of a game: its turns, its rounds and the game itself.
use crate::errors::{ErrorKind, GraphqlServerError};
use crate::ident::{
    fresh_simple, has_simple_form, is_drawn_form, is_simple_form, parse_to_simple, simple_form,
};
use crate::scalars::{RangeError, Width, U16, U32, U54, U8};
use vstd::prelude::*;

verus! {

/// A turn that a player made.
#[derive(Debug)]
pub struct Turn {
    /// The word that the player guessed.
    pub guessed_word: String,
    /// The codes of the letters of the word, packed.
    pub letter_state: U16,
}

/// A turn that a player is making: a `Turn` as it comes in.
#[derive(Debug)]
pub struct NewTurn {
    /// The word that the player guesses.
    pub guess: String,
    /// The codes of the letters of `guess`, packed.
    pub letter_state: U16,
}

/// One of the two players.
#[derive(Debug, PartialEq, Eq, Clone, Copy, Structural)]
pub enum Player {
    /// Player 1
    P1,
    /// Player 2
    P2,
}

/// A round of a game: one target word and the guesses at it.
#[derive(Debug)]
pub struct Round {
    /// The turns made in the round so far, oldest first, without the turn
    /// that is being played.
    pub turns: Vec<Turn>,
    /// What the round knows of each letter.
    pub letterpool_state: U54,
    /// The number of the guess that the round is at, counted from 0.
    pub guess_num: U8,
    /// The player whose turn it is.
    pub current_player: Player,
    /// The word that the players are trying to guess.
    pub target_word: String,
}

impl Round {
    /// A round as it starts: no turn made, nothing known of any letter.
    /// The number of the guess has to be an unsigned 8-bit integer.
    pub fn new_round(guess_num: i32, current_player: Player, target_word: String) -> (r: Result<
        Round,
        RangeError,
    >)
        ensures
            match r {
                Ok(round) => {
                    &&& Width::W8.holds(guess_num as int)
                    &&& round.turns@.len() == 0
                    &&& round.letterpool_state.value() == 0
                    &&& round.guess_num.value() == guess_num
                    &&& round.current_player == current_player
                    &&& round.target_word == target_word
                },
                Err(e) => !Width::W8.holds(guess_num as int) && e.width == Width::W8,
            },
    {
        let number = match U8::from_i32(guess_num) {
            Ok(number) => number,
            Err(e) => {
                return Err(e);
            },
        };
        Ok(
            Round {
                turns: Vec::new(),
                letterpool_state: U54::zero(),
                guess_num: number,
                current_player,
                target_word,
            },
        )
    }
}

/// What comes in when a turn is made: the game, the turn and the player
/// who is next.
#[derive(Debug)]
pub struct UpdateRound {
    /// The identifier of the game.
    pub game_id: String,
    /// The turn that is made.
    pub turn: NewTurn,
    /// The player whose turn it is after this one.
    pub next_player: Player,
}

/// A game that is being played.
#[derive(Debug)]
pub struct Game {
    _id: String,
    current_round: Round,
    p1_points: U32,
    p2_points: U32,
    round_num: U16,
}

/// The message of the error for a text that is no identifier.
pub open spec fn not_an_id_message() -> Seq<char> {
    "id provided should be in the format of a uuid"@
}

impl Game {
    #[verifier::type_invariant]
    spec fn id_is_simple(self) -> bool {
        is_simple_form(self._id@)
    }

    /// The identifier of the game.
    pub closed spec fn id_text(self) -> Seq<char> {
        self._id@
    }

    /// The round that is being played.
    pub closed spec fn round(self) -> Round {
        self.current_round
    }

    /// The points of the two players: those of player 1, then those of
    /// player 2.
    pub closed spec fn points(self) -> (U32, U32) {
        (self.p1_points, self.p2_points)
    }

    /// The number of rounds that were completed.
    pub closed spec fn rounds(self) -> U16 {
        self.round_num
    }

    /// Whether two games differ in nothing but their identifiers.
    pub open spec fn same_but_id(self, other: Game) -> bool {
        &&& self.round() == other.round()
        &&& self.points() == other.points()
        &&& self.rounds() == other.rounds()
    }

    /// A game as it starts: a fresh identifier, a first round at guess 0
    /// with player 1 to move, no points and no round completed.
    pub fn new_game(target_word: &str) -> (game: Game)
        ensures
            is_drawn_form(game.id_text()),
            game.round().turns@.len() == 0,
            game.round().letterpool_state.value() == 0,
            game.round().guess_num.value() == 0,
            game.round().current_player == Player::P1,
            game.round().target_word@ == target_word@,
            game.points().0.value() == 0,
            game.points().1.value() == 0,
            game.rounds().value() == 0,
    {
        let round = Round {
            turns: Vec::new(),
            letterpool_state: U54::zero(),
            guess_num: U8::new(0),
            current_player: Player::P1,
            target_word: String::from_str(target_word),
        };
        Game {
            _id: fresh_simple(),
            current_round: round,
            p1_points: U32::new(0),
            p2_points: U32::new(0),
            round_num: U16::new(0),
        }
    }

    /// A game made of its parts, or `None` where `id` has not the simple
    /// form.
    pub fn from_parts(
        id: String,
        current_round: Round,
        p1_points: U32,
        p2_points: U32,
        round_num: U16,
    ) -> (game: Option<Game>)
        ensures
            match game {
                Some(g) => {
                    &&& is_simple_form(id@)
                    &&& g.id_text() == id@
                    &&& g.round() == current_round
                    &&& g.points() == (p1_points, p2_points)
                    &&& g.rounds() == round_num
                },
                None => !is_simple_form(id@),
            },
    {
        if has_simple_form(id.as_str()) {
            Some(Game { _id: id, current_round, p1_points, p2_points, round_num })
        } else {
            None
        }
    }

    /// The identifier of the game, which has the simple form.
    pub fn id(&self) -> (id: String)
        ensures
            id@ == self.id_text(),
            is_simple_form(id@),
    {
        proof {
            use_type_invariant(self);
        }
        self._id.clone()
    }

    /// The round that is being played.
    pub fn current_round(&self) -> (round: &Round)
        ensures
            *round == self.round(),
    {
        &self.current_round
    }

    /// The points of player 1.
    pub fn p1_points(&self) -> (points: U32)
        ensures
            points == self.points().0,
    {
        self.p1_points
    }

    /// The points of player 2.
    pub fn p2_points(&self) -> (points: U32)
        ensures
            points == self.points().1,
    {
        self.p2_points
    }

    /// The number of rounds that were completed.
    pub fn round_num(&self) -> (number: U16)
        ensures
            number == self.rounds(),
    {
        self.round_num
    }

    /// Puts `round` in the place of the round that is being played.
    pub fn set_current_round(&mut self, round: Round)
        ensures
            final(self).round() == round,
            final(self).id_text() == old(self).id_text(),
            final(self).points() == old(self).points(),
            final(self).rounds() == old(self).rounds(),
    {
        proof {
            use_type_invariant(&*self);
        }
        self.current_round = round;
    }

    /// Sets the points of player 1.
    pub fn set_p1_points(&mut self, points: U32)
        ensures
            final(self).points() == (points, old(self).points().1),
            final(self).id_text() == old(self).id_text(),
            final(self).round() == old(self).round(),
            final(self).rounds() == old(self).rounds(),
    {
        proof {
            use_type_invariant(&*self);
        }
        self.p1_points = points;
    }

    /// Sets the points of player 2.
    pub fn set_p2_points(&mut self, points: U32)
        ensures
            final(self).points() == (old(self).points().0, points),
            final(self).id_text() == old(self).id_text(),
            final(self).round() == old(self).round(),
            final(self).rounds() == old(self).rounds(),
    {
        proof {
            use_type_invariant(&*self);
        }
        self.p2_points = points;
    }

    /// Sets the number of rounds that were completed.
    pub fn set_round_num(&mut self, number: U16)
        ensures
            final(self).rounds() == number,
            final(self).id_text() == old(self).id_text(),
            final(self).round() == old(self).round(),
            final(self).points() == old(self).points(),
    {
        proof {
            use_type_invariant(&*self);
        }
        self.round_num = number;
    }

    /// Gives the game a fresh identifier, drawn at random, as if it were a
    /// new game.
    pub fn new_id(&mut self)
        ensures
            is_drawn_form(final(self).id_text()),
            final(self).same_but_id(*old(self)),
    {
        self._id = fresh_simple();
    }

    /// Takes `id` for the identifier of the game, in the simple form, where
    /// it is read as an identifier; leaves the game as it is where not.
    pub fn set_id(&mut self, id: &String)
        ensures
            final(self).id_text() == match simple_form(id@) {
                Some(simple) => simple,
                None => old(self).id_text(),
            },
            is_simple_form(id@) ==> final(self).id_text() == id@,
            final(self).same_but_id(*old(self)),
    {
        self.take_id(parse_to_simple(id.as_str()));
    }

    /// Takes the identifier of `parsed` for that of the game, where there
    /// is one of the simple form; leaves the game as it is where not.
    pub fn take_id(&mut self, parsed: Option<String>)
        ensures
            final(self).id_text() == match parsed {
                Some(simple) if is_simple_form(simple@) => simple@,
                _ => old(self).id_text(),
            },
            final(self).same_but_id(*old(self)),
    {
        proof {
            use_type_invariant(&*self);
        }
        match parsed {
            Some(simple) => {
                if has_simple_form(simple.as_str()) {
                    self._id = simple;
                }
            },
            None => {},
        }
    }

    /// Reads `id` as an identifier and gives it back in the simple form, or
    /// the error where it is not read as one.
    pub fn parse_id(id: &String) -> (r: Result<String, GraphqlServerError>)
        ensures
            match r {
                Ok(simple) => simple_form(id@) == Some(simple@) && is_simple_form(simple@),
                Err(e) => simple_form(id@) is None && e.holds(
                    not_an_id_message(),
                    ErrorKind::Unprocessable,
                ),
            },
            is_simple_form(id@) ==> (r matches Ok(simple) && simple@ == id@),
    {
        Game::id_or_error(parse_to_simple(id.as_str()))
    }

    /// The identifier of `parsed`, or the error where there is none.
    pub fn id_or_error(parsed: Option<String>) -> (r: Result<String, GraphqlServerError>)
        ensures
            match r {
                Ok(simple) => parsed == Some(simple),
                Err(e) => parsed is None && e.holds(not_an_id_message(), ErrorKind::Unprocessable),
            },
    {
        match parsed {
            Some(simple) => Ok(simple),
            None => Err(
                GraphqlServerError::new(
                    String::from_str("id provided should be in the format of a uuid"),
                    ErrorKind::Unprocessable,
                ),
            ),
        }
    }
}

} // verus!
