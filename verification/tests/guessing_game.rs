use game_lobby::guessing::{GuessResult, GuessingGame};

#[test]
fn test() {
    let game = GuessingGame::new("Neko".to_owned());
    let result = game.guess(40);
    assert_eq!(result, GuessResult::TooSmall);
}

#[test]
fn guess_is_graded_on_both_sides() {
    let game = GuessingGame::new("Neko".to_owned());
    assert_eq!(game.guess(42), GuessResult::Correct);
    assert_eq!(game.guess(43), GuessResult::TooBig);
    assert_eq!(game.guess(-5), GuessResult::TooSmall);
}
