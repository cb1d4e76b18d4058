//! Elo ratings for head-to-head games, in decimal arithmetic.
//!
//! A [`Rating`] wraps a decimal [`Scalar`]. An [`EloStrategy`] turns two
//! ratings and a [`GameResult`] into two new ratings, and a
//! [`CalculateRating`] does so for a whole series of games.

use vstd::prelude::*;

pub mod decimal;
pub mod elo;
pub mod rating;
pub mod scalar;

pub use crate::elo::EloStrategy;
pub use crate::rating::Rating;
pub use crate::scalar::{Number, Scalar};

verus! {

/// How a game ended, seen from the first player.
#[derive(Debug, Copy, Clone, PartialEq, Eq, Structural)]
pub enum GameResult {
    Win,
    Loss,
    Draw,
}

impl GameResult {
    /// The same game seen from the second player.
    pub open spec fn mirrored(self) -> GameResult {
        match self {
            GameResult::Win => GameResult::Loss,
            GameResult::Loss => GameResult::Win,
            GameResult::Draw => GameResult::Draw,
        }
    }
}

/// A way to rate two players anew after a game.
pub trait CalculateRating {
    /// The new ratings of the player and of the opponent after one game
    /// whose `result` is seen from the player; `None` where they cannot be
    /// computed.
    spec fn outcome(&self, player: Number, opponent: Number, result: GameResult) -> Option<
        (Number, Number),
    >;

    /// Rates two players anew after one game.
    ///
    /// `result` is the result of the game as the player sees it. Gives the
    /// new ratings of the player and of the opponent, in this order.
    fn calculate(&self, player: Rating, opponent: Rating, result: GameResult) -> (r: Option<
        (Rating, Rating),
    >)
        ensures
            r.deep_view() == self.outcome(player@, opponent@, result),
    ;

    /// Rates two players anew after several games, played in the order of
    /// `results`: what one game makes of the ratings goes into the next.
    fn calculate_multiple(&self, player: Rating, opponent: Rating, results: &[GameResult]) -> (r:
        Option<(Rating, Rating)>)
        ensures
            r.deep_view() == outcome_of_all(
                |p: Number, o: Number, g: GameResult| self.outcome(p, o, g),
                player@,
                opponent@,
                results@,
            ),
            results@.len() == 0 ==> r == Some((player, opponent)),
            results@.len() == 1 ==> r.deep_view() == self.outcome(player@, opponent@, results@[0]),
    {
        let ghost game = |p: Number, o: Number, g: GameResult| self.outcome(p, o, g);
        let mut first = player;
        let mut second = opponent;
        let mut played: usize = 0;
        while played < results.len()
            invariant
                played <= results@.len(),
                game == |p: Number, o: Number, g: GameResult| self.outcome(p, o, g),
                outcome_of_all(game, player@, opponent@, results@.take(played as int)) == Some(
                    (first@, second@),
                ),
                played == 0 ==> first == player && second == opponent,
            decreases results@.len() - played,
        {
            proof {
                assert(results@.take(played + 1).drop_last() == results@.take(played as int));
            }
            match self.calculate(first, second, results[played]) {
                Some((a, b)) => {
                    first = a;
                    second = b;
                },
                None => {
                    proof {
                        lemma_failure_lasts(game, player@, opponent@, results@, played + 1);
                        if results@.len() == 1 {
                            lemma_single_game(game, player@, opponent@, results@[0]);
                        }
                    }
                    return None;
                },
            }
            played = played + 1;
        }
        proof {
            assert(results@.take(played as int) == results@);
            if results@.len() == 1 {
                lemma_single_game(game, player@, opponent@, results@[0]);
            }
        }
        Some((first, second))
    }
}

/// What one game makes of two ratings, for some way of rating: the ratings
/// of the player and of the opponent before it and its result give the
/// ratings after it, or `None`.
pub type Game = spec_fn(Number, Number, GameResult) -> Option<(Number, Number)>;

/// What a series of games makes of two ratings: each game starts from the
/// ratings that the game before it gave. `None` as soon as one game gives
/// none.
pub open spec fn outcome_of_all(
    game: Game,
    player: Number,
    opponent: Number,
    results: Seq<GameResult>,
) -> Option<(Number, Number)>
    decreases results.len(),
{
    if results.len() == 0 {
        Some((player, opponent))
    } else {
        match outcome_of_all(game, player, opponent, results.drop_last()) {
            Some((p, o)) => game(p, o, results.last()),
            None => None,
        }
    }
}

/// Once a series of games has no outcome, no longer series has one.
proof fn lemma_failure_lasts(
    game: Game,
    player: Number,
    opponent: Number,
    results: Seq<GameResult>,
    played: int,
)
    requires
        0 <= played <= results.len(),
        outcome_of_all(game, player, opponent, results.take(played)) is None,
    ensures
        outcome_of_all(game, player, opponent, results) is None,
    decreases results.len() - played,
{
    if played == results.len() {
        assert(results.take(played) == results);
    } else {
        assert(results.take(played + 1).drop_last() == results.take(played));
        lemma_failure_lasts(game, player, opponent, results, played + 1);
    }
}

/// A series of no games leaves both ratings as they are.
pub proof fn lemma_no_games(game: Game, player: Number, opponent: Number)
    ensures
        outcome_of_all(game, player, opponent, Seq::empty()) == Some((player, opponent)),
{
}

/// A series of one game comes to what that game alone comes to.
pub proof fn lemma_single_game(
    game: Game,
    player: Number,
    opponent: Number,
    result: GameResult,
)
    ensures
        outcome_of_all(game, player, opponent, seq![result]) == game(player, opponent, result),
{
    reveal_with_fuel(outcome_of_all, 2);
}

/// Games are rated in turn: a series played after another starts from the
/// ratings that the earlier series ended with.
pub proof fn lemma_games_in_turn(
    game: Game,
    player: Number,
    opponent: Number,
    earlier: Seq<GameResult>,
    later: Seq<GameResult>,
)
    ensures
        outcome_of_all(game, player, opponent, earlier + later) == match outcome_of_all(
            game,
            player,
            opponent,
            earlier,
        ) {
            Some((p, o)) => outcome_of_all(game, p, o, later),
            None => None,
        },
    decreases later.len(),
{
    if later.len() == 0 {
        assert(earlier + later == earlier);
    } else {
        assert((earlier + later).drop_last() == earlier + later.drop_last());
        lemma_games_in_turn(game, player, opponent, earlier, later.drop_last());
    }
}

} // verus!
