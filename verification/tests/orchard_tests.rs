use cracker::orchard::Dice;
use cracker::orchard::GameResult;
use cracker::orchard::minus_one_or_zero;
use cracker::orchard::play_step;

#[test]
fn minus_one_stops_at_zero() {
    assert_eq!(minus_one_or_zero(0), 0);
    assert_eq!(minus_one_or_zero(1), 0);
    assert_eq!(minus_one_or_zero(5), 4);
}

#[test]
fn colour_roll_empties_its_pile() {
    let mut fruits = vec![2u32, 3, 4, 5];
    let mut raven = 5u32;
    let outcome = play_step(&mut fruits, &mut raven, Dice::Green);
    assert_eq!(fruits, vec![1u32, 3, 4, 5]);
    assert_eq!(raven, 5);
    assert!(outcome.is_none());
}

#[test]
fn colour_roll_on_empty_pile_changes_nothing() {
    let mut fruits = vec![0u32, 3, 4, 5];
    let mut raven = 5u32;
    let outcome = play_step(&mut fruits, &mut raven, Dice::Blue);
    assert_eq!(fruits, vec![0u32, 2, 4, 5]);
    assert!(outcome.is_none());
}

#[test]
fn basket_roll_picks_the_last_maximal_pile() {
    let mut fruits = vec![2u32, 1, 2, 0];
    let mut raven = 5u32;
    let outcome = play_step(&mut fruits, &mut raven, Dice::Basket);
    assert_eq!(fruits, vec![2u32, 1, 1, 0]);
    assert_eq!(raven, 5);
    assert!(outcome.is_none());
}

#[test]
fn last_fruit_wins_the_game() {
    let mut fruits = vec![0u32, 0, 1, 0];
    let mut raven = 3u32;
    let outcome = play_step(&mut fruits, &mut raven, Dice::Red);
    assert_eq!(fruits, vec![0u32, 0, 0, 0]);
    assert_eq!(outcome, Some(GameResult::Won));
}

#[test]
fn raven_arrival_loses_the_game() {
    let mut fruits = vec![1u32, 0, 0, 0];
    let mut raven = 1u32;
    let outcome = play_step(&mut fruits, &mut raven, Dice::Raven);
    assert_eq!(raven, 0);
    assert_eq!(outcome, Some(GameResult::Lost));
}

#[test]
fn raven_roll_only_moves_the_raven() {
    let mut fruits = vec![1u32, 2, 3, 4];
    let mut raven = 4u32;
    let outcome = play_step(&mut fruits, &mut raven, Dice::Raven);
    assert_eq!(fruits, vec![1u32, 2, 3, 4]);
    assert_eq!(raven, 3);
    assert!(outcome.is_none());
}
