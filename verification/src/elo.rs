//! The classical Elo calculation for games between two players.

use crate::decimal::{
    checked_add, checked_div, checked_mul, checked_powd, checked_sub, decimal_difference,
    decimal_power, decimal_product, decimal_quotient, decimal_sum, ten,
};
use crate::rating::Rating;
use crate::scalar::{Number, Scalar};
use crate::{CalculateRating, GameResult};
use vstd::prelude::*;

verus! {

/// The score of a win, and the 1 of the formula: `1.0`.
pub open spec fn one() -> Number {
    Number { mantissa: 10, scale: 1 }
}

/// The score of a draw: `0.5`.
pub open spec fn half() -> Number {
    Number { mantissa: 5, scale: 1 }
}

/// The score of a loss: `0.0`.
pub open spec fn nothing() -> Number {
    Number { mantissa: 0, scale: 1 }
}

/// The difference in rating that makes the stronger player ten times as
/// likely to win: `400.0`.
pub open spec fn spread() -> Number {
    Number { mantissa: 4000, scale: 1 }
}

/// The score that a player is expected to make against an opponent:
/// `1 / (1 + 10^((opponent - player) / 400))`, each step taken in decimal
/// arithmetic. `None` where a step is out of range.
pub open spec fn expected_score(player: Number, opponent: Number) -> Option<Number> {
    let gap = decimal_difference(opponent, player);
    let exponent = if gap is Some {
        decimal_quotient(gap->0, spread())
    } else {
        None
    };
    let power = if exponent is Some {
        decimal_power(ten(), exponent->0)
    } else {
        None
    };
    let sum = if power is Some {
        decimal_sum(one(), power->0)
    } else {
        None
    };
    if sum is Some {
        decimal_quotient(one(), sum->0)
    } else {
        None
    }
}

/// The scores that a game gives to the first and to the second player.
pub open spec fn actual_scores(result: GameResult) -> (Number, Number) {
    match result {
        GameResult::Win => (one(), nothing()),
        GameResult::Loss => (nothing(), one()),
        GameResult::Draw => (half(), half()),
    }
}

/// A rating after a game: `rating + k * (actual - expected)`, each step
/// taken in decimal arithmetic. `None` where a step is out of range.
pub open spec fn adjusted(rating: Number, k: Number, actual: Number, expected: Number) -> Option<
    Number,
> {
    let surprise = decimal_difference(actual, expected);
    let change = if surprise is Some {
        decimal_product(k, surprise->0)
    } else {
        None
    };
    if change is Some {
        decimal_sum(rating, change->0)
    } else {
        None
    }
}

/// The ratings of both players after a game, by the Elo formula with the
/// factor `k`. `None` where the arithmetic leaves the range of a scalar for
/// either player.
pub open spec fn elo_outcome(k: Number, player: Number, opponent: Number, result: GameResult)
    -> Option<(Number, Number)> {
    let expected_one = expected_score(player, opponent);
    let expected_two = expected_score(opponent, player);
    if expected_one is Some && expected_two is Some {
        let one = adjusted(player, k, actual_scores(result).0, expected_one->0);
        let two = adjusted(opponent, k, actual_scores(result).1, expected_two->0);
        if one is Some && two is Some {
            Some((one->0, two->0))
        } else {
            None
        }
    } else {
        None
    }
}

/// A classical Elo calculation, for games in which two players face each
/// other.
///
/// The k-factor says how strongly one result moves a rating: the higher it
/// is, the larger the change.
#[derive(Clone, Copy, Debug)]
pub struct EloStrategy {
    k: Scalar,
}

/// The score that `player` is expected to make against `opponent`.
pub fn expected_result(player: Scalar, opponent: Scalar) -> (r: Option<Scalar>)
    ensures
        r.deep_view() == expected_score(player@, opponent@),
{
    let gap = checked_sub(opponent, player)?;
    let exponent = checked_div(gap, Scalar::new(4000, 1).unwrap())?;
    let power = checked_powd(Scalar::from_i64(10), exponent)?;
    let sum = checked_add(Scalar::new(10, 1).unwrap(), power)?;
    checked_div(Scalar::new(10, 1).unwrap(), sum)
}

/// The scores that a game gives to the first and to the second player: 1
/// for a win, 0 for a loss, and half a point each for a draw.
pub fn scores(result: GameResult) -> (r: (Scalar, Scalar))
    ensures
        r.deep_view() == actual_scores(result),
{
    let one = Scalar::new(10, 1).unwrap();
    let half = Scalar::new(5, 1).unwrap();
    let nothing = Scalar::new(0, 1).unwrap();
    match result {
        GameResult::Win => (one, nothing),
        GameResult::Loss => (nothing, one),
        GameResult::Draw => (half, half),
    }
}

impl EloStrategy {
    /// The k-factor.
    pub closed spec fn k(&self) -> Number {
        self.k@
    }

    /// An Elo calculation with the k-factor `k`, a whole number.
    pub fn new(k: u32) -> (r: Self)
        ensures
            r.k() == (Number { mantissa: k as int, scale: 0 }),
    {
        Self::with_factor(Scalar::from_i64(k as i64))
    }

    /// An Elo calculation with the k-factor `k`, which may be any number:
    /// a fraction, zero, or a negative number, which turns the changes
    /// round. It is taken as it is.
    pub fn with_factor(k: Scalar) -> (r: Self)
        ensures
            r.k() == k@,
    {
        Self { k }
    }
}

impl CalculateRating for EloStrategy {
    open spec fn outcome(&self, player: Number, opponent: Number, result: GameResult) -> Option<
        (Number, Number),
    > {
        elo_outcome(self.k(), player, opponent, result)
    }

    /// Rates both players anew by the Elo formula. With a k-factor of zero
    /// no game changes a rating.
    fn calculate(&self, player: Rating, opponent: Rating, result: GameResult) -> (r: Option<
        (Rating, Rating),
    >)
        ensures
            self.k().mantissa == 0 ==> (r matches Some((one, two)) ==> one@.same_value(player@)
                && two@.same_value(opponent@)),
    {
        let expected_one = expected_result(player.scalar(), opponent.scalar())?;
        let expected_two = expected_result(opponent.scalar(), player.scalar())?;
        let (score_one, score_two) = scores(result);
        let one = player.checked_add(checked_mul(self.k, checked_sub(score_one, expected_one)?)?)?;
        let two = opponent.checked_add(
            checked_mul(self.k, checked_sub(score_two, expected_two)?)?,
        )?;
        Some((one, two))
    }
}

/// The result of a game is seen from the first player. Seen from the
/// second player, with the mirrored result, the same game gives the same
/// two ratings, in the other order.
pub proof fn lemma_mirrored_game(k: Number, player: Number, opponent: Number, result: GameResult)
    ensures
        elo_outcome(k, opponent, player, result.mirrored()) == match elo_outcome(
            k,
            player,
            opponent,
            result,
        ) {
            Some((p, o)) => Some((o, p)),
            None => None,
        },
{
}

/// A draw between two players of one rating treats both alike: they leave
/// it with one rating again.
pub proof fn lemma_draw_between_equals(k: Number, rating: Number)
    ensures
        elo_outcome(k, rating, rating, GameResult::Draw) matches Some((p, o)) ==> p == o,
{
}

} // verus!
