use rating::elo::{expected_result, scores};
use rating::GameResult::{Draw, Loss, Win};
use rating::{CalculateRating, EloStrategy, GameResult, Rating, Scalar};
use rust_decimal::prelude::ToPrimitive;
use rust_decimal::Decimal;

fn scalar(mantissa: i128, scale: u32) -> Scalar {
    Scalar::new(mantissa, scale).unwrap()
}

fn parts(s: Scalar) -> (i128, u32) {
    (s.mantissa(), s.scale())
}

fn decimal(s: Scalar) -> Decimal {
    Decimal::from_i128_with_scale(s.mantissa(), s.scale())
}

fn as_f64(s: Scalar) -> f64 {
    decimal(s).to_f64().unwrap()
}

fn tiny() -> Decimal {
    Decimal::from_i128_with_scale(1, 20)
}

fn calculates_elo(player_1_rating: i32, player_2_rating: i32, k: u32, game_result: GameResult) -> (Rating, Rating) {
    let elo = EloStrategy::new(k);
    elo.calculate(player_1_rating.into(), player_2_rating.into(), game_result).unwrap()
}

fn calculates_elo_correctly(player_1_rating: i32, player_2_rating: i32, k: u32, game_result: GameResult) -> (f64, f64) {
    let (new_player_1, new_player_2) = calculates_elo(player_1_rating, player_2_rating, k, game_result);
    (as_f64(new_player_1.value()), as_f64(new_player_2.value()))
}

fn calculates_elo_correctly_when_rounded(
    player_1_rating: i32,
    player_2_rating: i32,
    k: u32,
    game_result: GameResult,
) -> (i32, i32) {
    let (new_player_1, new_player_2) = calculates_elo(player_1_rating, player_2_rating, k, game_result);
    (new_player_1.round_to_i32().unwrap(), new_player_2.round_to_i32().unwrap())
}

fn calculates_multiple_correctly(
    player_1_rating: i32,
    player_2_rating: i32,
    k: u32,
    game_result: Vec<GameResult>,
) -> (f64, f64) {
    let elo = EloStrategy::new(k);
    let (new_player_1, new_player_2) =
        elo.calculate_multiple(player_1_rating.into(), player_2_rating.into(), &game_result).unwrap();
    (as_f64(new_player_1.value()), as_f64(new_player_2.value()))
}

#[test]
fn calculates_elo_correctly_1000_2000_16_win() {
    assert_eq!(calculates_elo_correctly(1000, 2000, 16, Win), (1015.9, 1984.1));
}

#[test]
fn calculates_elo_correctly_2600_2300_16_win() {
    assert_eq!(calculates_elo_correctly(2600, 2300, 16, Win), (2602.4, 2297.6));
}

#[test]
fn calculates_elo_correctly_2600_2300_16_loss() {
    assert_eq!(calculates_elo_correctly(2600, 2300, 16, Loss), (2586.4, 2313.6));
}

#[test]
fn calculates_elo_correctly_2600_2300_16_draw() {
    assert_eq!(calculates_elo_correctly(2600, 2300, 16, Draw), (2594.4, 2305.6));
}

#[test]
fn calculates_elo_correctly_2600_2300_40_win() {
    assert_eq!(calculates_elo_correctly(2600, 2300, 40, Win), (2606.0, 2294.0));
}

#[test]
fn calculates_elo_correctly_2600_2300_40_loss() {
    assert_eq!(calculates_elo_correctly(2600, 2300, 40, Loss), (2566.0, 2334.0));
}

#[test]
fn calculates_elo_correctly_2600_2300_40_draw() {
    assert_eq!(calculates_elo_correctly(2600, 2300, 40, Draw), (2586.0, 2314.0));
}

#[test]
fn calculates_elo_correctly_when_rounded_1000_2000_16_win() {
    assert_eq!(calculates_elo_correctly_when_rounded(1000, 2000, 16, Win), (1016, 1984));
}

#[test]
fn calculates_elo_correctly_when_rounded_2600_2300_16_win() {
    assert_eq!(calculates_elo_correctly_when_rounded(2600, 2300, 16, Win), (2602, 2298));
}

#[test]
fn calculates_elo_correctly_when_rounded_2600_2300_16_loss() {
    assert_eq!(calculates_elo_correctly_when_rounded(2600, 2300, 16, Loss), (2586, 2314));
}

#[test]
fn calculates_elo_correctly_when_rounded_2600_2300_16_draw() {
    assert_eq!(calculates_elo_correctly_when_rounded(2600, 2300, 16, Draw), (2594, 2306));
}

#[test]
fn calculates_elo_correctly_when_rounded_2600_2300_40_win() {
    assert_eq!(calculates_elo_correctly_when_rounded(2600, 2300, 40, Win), (2606, 2294));
}

#[test]
fn calculates_elo_correctly_when_rounded_2600_2300_40_loss() {
    assert_eq!(calculates_elo_correctly_when_rounded(2600, 2300, 40, Loss), (2566, 2334));
}

#[test]
fn calculates_elo_correctly_when_rounded_2600_2300_40_draw() {
    assert_eq!(calculates_elo_correctly_when_rounded(2600, 2300, 40, Draw), (2586, 2314));
}

#[test]
fn calculates_multiple_correctly_one_game() {
    assert_eq!(calculates_multiple_correctly(2600, 2300, 16, vec![Win]), (2602.4, 2297.6));
}

#[test]
fn calculates_multiple_correctly_two_games() {
    assert_eq!(calculates_multiple_correctly(2600, 2300, 16, vec![Win, Win]), (2604.8, 2295.2));
}

#[test]
fn calculates_multiple_correctly_three_games() {
    assert_eq!(calculates_multiple_correctly(2600, 2300, 16, vec![Win, Win, Loss]), (2591.1, 2308.9));
}

#[test]
fn calculates_multiple_correctly_four_games() {
    assert_eq!(calculates_multiple_correctly(2600, 2300, 16, vec![Win, Win, Loss, Loss]), (2577.7, 2322.3));
}

#[test]
fn calculates_multiple_correctly_five_games() {
    assert_eq!(
        calculates_multiple_correctly(2600, 2300, 16, vec![Win, Win, Loss, Loss, Loss]),
        (2564.7, 2335.3)
    );
}

#[test]
fn calculates_multiple_correctly_six_games() {
    assert_eq!(
        calculates_multiple_correctly(2600, 2300, 16, vec![Win, Win, Loss, Loss, Loss, Loss]),
        (2552.1, 2347.9)
    );
}

#[test]
fn calculates_multiple_correctly_seven_games() {
    assert_eq!(
        calculates_multiple_correctly(2600, 2300, 16, vec![Win, Win, Loss, Loss, Loss, Loss, Draw]),
        (2547.9, 2352.1)
    );
}

#[test]
fn alice_beats_bob() {
    let alice = Rating::from(1200);
    let bob = Rating::from(1453);
    let elo_calculator = EloStrategy::new(40);
    let (alice_new_rating, bob_new_rating) = elo_calculator.calculate(alice, bob, Win).unwrap();
    assert_eq!(parts(alice_new_rating.value()), (12324, 1));
    assert_eq!(parts(bob_new_rating.value()), (14206, 1));
    assert_eq!(as_f64(alice_new_rating.value()), 1232.4);
    assert_eq!(as_f64(bob_new_rating.value()), 1420.6);
    assert!(alice_new_rating.to_string().starts_with("1232.43916632479"));
    assert!(bob_new_rating.to_string().starts_with("1420.56083367520"));
    assert_eq!(parts(alice.scalar()), (1200, 0));
    assert_eq!(parts(bob.scalar()), (1453, 0));
}

#[test]
fn an_outsider_wins_sixteen_points() {
    let (one, two) = calculates_elo(1000, 2000, 16, Win);
    assert_eq!(parts(one.value()), (10159, 1));
    assert_eq!(parts(two.value()), (19841, 1));
    assert_eq!((one.round_to_i32(), two.round_to_i32()), (Some(1016), Some(1984)));
}

#[test]
fn seven_games_in_a_row() {
    let elo = EloStrategy::new(16);
    let games = [Win, Win, Loss, Loss, Loss, Loss, Draw];
    let (one, two) = elo.calculate_multiple(Rating::from(2600), Rating::from(2300), &games).unwrap();
    assert_eq!(parts(one.value()), (25479, 1));
    assert_eq!(parts(two.value()), (23521, 1));
}

#[test]
fn results_are_not_rounded_between_games() {
    let elo = EloStrategy::new(16);
    let (one, two) = elo.calculate_multiple(Rating::from(2600), Rating::from(2300), &[Win, Win]).unwrap();
    assert!(one.scalar().scale() > 1);
    assert_eq!(parts(one.rounded(6)), (2604774858, 6));
    assert_eq!(parts(two.rounded(6)), (2295225142, 6));
}

#[test]
fn expected_scores_add_up_to_one() {
    let pairs: [(i64, i64); 8] =
        [(1200, 1453), (1000, 2000), (2600, 2300), (1500, 1500), (0, 11000), (-50, 70), (1613, 1609), (1, 2)];
    for (a, b) in pairs {
        let one = decimal(expected_result(Scalar::from_i64(a), Scalar::from_i64(b)).unwrap());
        let two = decimal(expected_result(Scalar::from_i64(b), Scalar::from_i64(a)).unwrap());
        let off = (one + two - Decimal::ONE).abs();
        assert!(off <= tiny(), "{} and {}: {} + {}", a, b, one, two);
        assert!(one >= Decimal::ZERO && one <= Decimal::ONE);
    }
}

#[test]
fn expected_score_between_equals_is_a_half() {
    let e = expected_result(Scalar::from_i64(1500), Scalar::from_i64(1500)).unwrap();
    assert!(e.same_value(&scalar(5, 1)));
    let e = expected_result(scalar(-123456, 3), scalar(-123456, 3)).unwrap();
    assert!(e.same_value(&scalar(5, 1)));
}

#[test]
fn expected_score_is_one_in_eleven_at_400_points_behind() {
    let e = expected_result(Scalar::from_i64(1000), Scalar::from_i64(1400)).unwrap();
    assert_eq!(parts(e.rounded(10)), (909090909, 10));
    let e = expected_result(Scalar::from_i64(1400), Scalar::from_i64(1000)).unwrap();
    assert_eq!(parts(e.rounded(10)), (9090909091, 10));
}

#[test]
fn expected_score_of_the_first_example() {
    let e = expected_result(Scalar::from_i64(1200), Scalar::from_i64(1453)).unwrap();
    assert_eq!(parts(e.rounded(12)), (189020841880, 12));
}

#[test]
fn expected_score_out_of_range_is_none() {
    assert!(expected_result(Scalar::from_i64(0), Scalar::from_i64(20000)).is_none());
    assert!(expected_result(Scalar::from_i64(20000), Scalar::from_i64(0)).is_none());
    let largest = scalar(rating::scalar::MAX_MANTISSA, 0);
    assert!(expected_result(largest, scalar(-1, 0)).is_none());
}

#[test]
fn scores_of_each_result() {
    let (one, two) = scores(Win);
    assert_eq!((parts(one), parts(two)), ((10, 1), (0, 1)));
    let (one, two) = scores(Loss);
    assert_eq!((parts(one), parts(two)), ((0, 1), (10, 1)));
    let (one, two) = scores(Draw);
    assert_eq!((parts(one), parts(two)), ((5, 1), (5, 1)));
}

#[test]
fn rating_points_are_conserved_up_to_rounding() {
    let cases: [(i64, i64, u32); 7] = [
        (1200, 1453, 40),
        (1000, 2000, 16),
        (2600, 2300, 16),
        (0, 11000, 16),
        (11200, 0, 16),
        (1613, 1609, 24),
        (-50, 70, 10),
    ];
    for (a, b, k) in cases {
        for result in [Win, Draw, Loss] {
            let elo = EloStrategy::new(k);
            let (one, two) = elo.calculate(Rating::from(a), Rating::from(b), result).unwrap();
            let gained = decimal(one.scalar()) - Decimal::from(a);
            let lost = decimal(two.scalar()) - Decimal::from(b);
            assert!((gained + lost).abs() <= tiny(), "{} {} {} {:?}", a, b, k, result);
        }
    }
}

#[test]
fn rating_points_are_conserved_exactly_in_the_usual_range() {
    let (one, two) = calculates_elo(1200, 1453, 40, Win);
    let gained = decimal(one.scalar()) - Decimal::from(1200);
    let lost = decimal(two.scalar()) - Decimal::from(1453);
    assert_eq!(gained, -lost);
}

#[test]
fn a_draw_between_equals_changes_nothing() {
    for k in [0u32, 1, 16, 32, 40, u32::MAX] {
        let elo = EloStrategy::new(k);
        for rating in [Rating::from(1500), Rating::from(0), Rating::from(-300), Rating::new(scalar(271828, 2))] {
            let (one, two) = elo.calculate(rating, rating, Draw).unwrap();
            assert_eq!(one, rating);
            assert_eq!(two, rating);
        }
    }
}

#[test]
fn a_win_is_worth_more_than_a_draw_and_a_draw_more_than_a_loss() {
    let cases: [(i64, i64, u32); 6] =
        [(1200, 1453, 40), (1000, 2000, 16), (2600, 2300, 16), (1500, 1500, 32), (0, 11000, 16), (1500, 1500, 0)];
    for (a, b, k) in cases {
        let elo = EloStrategy::new(k);
        let win = elo.calculate(Rating::from(a), Rating::from(b), Win).unwrap();
        let draw = elo.calculate(Rating::from(a), Rating::from(b), Draw).unwrap();
        let loss = elo.calculate(Rating::from(a), Rating::from(b), Loss).unwrap();
        assert!(decimal(win.0.scalar()) >= decimal(draw.0.scalar()));
        assert!(decimal(draw.0.scalar()) >= decimal(loss.0.scalar()));
        assert!(decimal(win.1.scalar()) <= decimal(draw.1.scalar()));
        assert!(decimal(draw.1.scalar()) <= decimal(loss.1.scalar()));
    }
}

#[test]
fn no_games_change_nothing() {
    let elo = EloStrategy::new(16);
    let one = Rating::new(scalar(26001, 1));
    let two = Rating::from(2300);
    let (new_one, new_two) = elo.calculate_multiple(one, two, &[]).unwrap();
    assert_eq!(parts(new_one.scalar()), (26001, 1));
    assert_eq!(parts(new_two.scalar()), (2300, 0));
}

#[test]
fn one_game_in_a_series_is_one_game() {
    for result in [Win, Draw, Loss] {
        let elo = EloStrategy::new(24);
        let single = elo.calculate(Rating::from(1613), Rating::from(1609), result).unwrap();
        let series = elo.calculate_multiple(Rating::from(1613), Rating::from(1609), &[result]).unwrap();
        assert_eq!(parts(single.0.scalar()), parts(series.0.scalar()));
        assert_eq!(parts(single.1.scalar()), parts(series.1.scalar()));
    }
}

#[test]
fn a_series_is_its_games_in_turn() {
    let elo = EloStrategy::new(16);
    let (a, b) = elo.calculate(Rating::from(2600), Rating::from(2300), Win).unwrap();
    let (a, b) = elo.calculate(a, b, Loss).unwrap();
    let (a, b) = elo.calculate(a, b, Draw).unwrap();
    let series = elo.calculate_multiple(Rating::from(2600), Rating::from(2300), &[Win, Loss, Draw]).unwrap();
    assert_eq!(parts(a.scalar()), parts(series.0.scalar()));
    assert_eq!(parts(b.scalar()), parts(series.1.scalar()));
}

#[test]
fn the_order_of_games_matters() {
    let elo = EloStrategy::new(16);
    let one = elo.calculate_multiple(Rating::from(2600), Rating::from(2300), &[Win, Loss]).unwrap();
    let other = elo.calculate_multiple(Rating::from(2600), Rating::from(2300), &[Loss, Win]).unwrap();
    assert_ne!(one.0, other.0);
}

#[test]
fn the_mirrored_game_gives_the_same_ratings() {
    let elo = EloStrategy::new(40);
    for (result, mirrored) in [(Win, Loss), (Loss, Win), (Draw, Draw)] {
        let (one, two) = elo.calculate(Rating::from(1200), Rating::from(1453), result).unwrap();
        let (other_two, other_one) = elo.calculate(Rating::from(1453), Rating::from(1200), mirrored).unwrap();
        assert_eq!(parts(one.scalar()), parts(other_one.scalar()));
        assert_eq!(parts(two.scalar()), parts(other_two.scalar()));
    }
}

#[test]
fn a_k_factor_of_zero_changes_nothing() {
    let elo = EloStrategy::new(0);
    for result in [Win, Draw, Loss] {
        let one = Rating::from(1200);
        let two = Rating::new(scalar(14535, 1));
        let (new_one, new_two) = elo.calculate(one, two, result).unwrap();
        assert_eq!(new_one, one);
        assert_eq!(new_two, two);
    }
}

#[test]
fn a_larger_k_factor_moves_the_ratings_further() {
    let (small, _) = calculates_elo(2600, 2300, 16, Loss);
    let (large, _) = calculates_elo(2600, 2300, 40, Loss);
    assert!(decimal(large.scalar()) < decimal(small.scalar()));
    assert!(decimal(small.scalar()) < Decimal::from(2600));
}

#[test]
fn ratings_too_far_apart_give_none() {
    let elo = EloStrategy::new(16);
    for result in [Win, Draw, Loss] {
        assert!(elo.calculate(Rating::from(0), Rating::from(20000), result).is_none());
        assert!(elo.calculate(Rating::from(20000), Rating::from(0), result).is_none());
    }
    assert!(elo.calculate(Rating::from(0), Rating::from(11000), Win).is_some());
}

#[test]
fn a_series_with_a_game_out_of_range_gives_none() {
    let elo = EloStrategy::new(16);
    assert!(elo.calculate_multiple(Rating::from(0), Rating::from(20000), &[Win, Loss]).is_none());
    assert!(elo.calculate_multiple(Rating::from(0), Rating::from(20000), &[]).is_some());
}

#[test]
fn a_strategy_can_be_used_again() {
    let elo = EloStrategy::new(16);
    let first = elo.calculate(Rating::from(2600), Rating::from(2300), Win).unwrap();
    let second = elo.calculate(Rating::from(2600), Rating::from(2300), Win).unwrap();
    assert_eq!(parts(first.0.scalar()), parts(second.0.scalar()));
    assert_eq!(parts(first.1.scalar()), parts(second.1.scalar()));
}

#[test]
fn every_pair_of_ratings_gets_an_answer() {
    let largest = rating::scalar::MAX_MANTISSA;
    let mut numbers: Vec<Scalar> = Vec::new();
    for mantissa in [0, 1, -1, 7, 4000, -4000, 11599, 11600, 123_456_789, largest / 3, largest, -largest] {
        for scale in [0u32, 1, 2, 9, 10, 19, 27, 28] {
            numbers.push(scalar(mantissa, scale));
        }
    }
    let mut answered = 0;
    for a in &numbers {
        for b in &numbers {
            let expected = expected_result(*a, *b);
            if expected.is_some() {
                answered += 1;
            }
            for k in [0u32, 16, u32::MAX] {
                let elo = EloStrategy::new(k);
                let single = elo.calculate(Rating::new(*a), Rating::new(*b), Win);
                let series = elo.calculate_multiple(Rating::new(*a), Rating::new(*b), &[Win, Loss, Draw]);
                assert!(single.is_some() || series.is_none());
                assert!(expected.is_some() || single.is_none());
            }
        }
    }
    assert!(answered > 0);
}

#[test]
fn a_k_factor_of_zero_changes_no_rating_at_all() {
    let elo = EloStrategy::new(0);
    let largest = rating::scalar::MAX_MANTISSA;
    for (a, b) in [(scalar(0, 5), scalar(0, 0)), (scalar(largest, 0), scalar(largest - 4000, 0)), (scalar(-largest, 28), scalar(largest, 28)), (scalar(15001, 1), scalar(-3, 2))] {
        for result in [Win, Draw, Loss] {
            let (one, two) = elo.calculate(Rating::new(a), Rating::new(b), result).unwrap();
            assert_eq!(one, Rating::new(a));
            assert_eq!(two, Rating::new(b));
        }
    }
}

#[test]
fn a_whole_k_factor_is_the_same_either_way() {
    let whole = EloStrategy::new(16);
    let scalar_16 = EloStrategy::with_factor(Scalar::from_i64(16));
    for result in [Win, Draw, Loss] {
        let one = whole.calculate(Rating::from(2600), Rating::from(2300), result).unwrap();
        let other = scalar_16.calculate(Rating::from(2600), Rating::from(2300), result).unwrap();
        assert_eq!(parts(one.0.scalar()), parts(other.0.scalar()));
        assert_eq!(parts(one.1.scalar()), parts(other.1.scalar()));
    }
}

#[test]
fn a_k_factor_can_be_a_fraction() {
    let elo = EloStrategy::with_factor(scalar(5, 1));
    let (one, two) = elo.calculate(Rating::from(1500), Rating::from(1500), Win).unwrap();
    assert_eq!(one, Rating::new(scalar(150025, 2)));
    assert_eq!(two, Rating::new(scalar(149975, 2)));
    let elo = EloStrategy::with_factor(scalar(245, 1));
    let (one, two) = elo.calculate(Rating::from(2600), Rating::from(2300), Win).unwrap();
    assert_eq!(parts(one.rounded(4)), (26036990, 4));
    assert_eq!(parts(two.rounded(4)), (22963010, 4));
}

#[test]
fn a_negative_k_factor_turns_the_changes_round() {
    let elo = EloStrategy::with_factor(Scalar::from_i64(-16));
    let (one, two) = elo.calculate(Rating::from(2600), Rating::from(2300), Win).unwrap();
    assert_eq!(parts(one.value()), (25976, 1));
    assert_eq!(parts(two.value()), (23024, 1));
    let (one, two) = elo.calculate(Rating::from(1500), Rating::from(1500), Loss).unwrap();
    assert_eq!(one, Rating::from(1508));
    assert_eq!(two, Rating::from(1492));
}

#[test]
fn a_zero_k_factor_of_any_scale_changes_nothing() {
    let elo = EloStrategy::with_factor(scalar(0, 3));
    let (one, two) = elo.calculate(Rating::from(1200), Rating::from(1453), Win).unwrap();
    assert_eq!(one, Rating::from(1200));
    assert_eq!(two, Rating::from(1453));
}
