//! A small number-guessing game: the game holds a secret number and grades
//! each guess as too small, too big, or correct.

use vstd::prelude::*;

verus! {

pub struct GuessingGame {
    pub _player: String,
    pub secret: i32,
}

#[derive(Clone, Copy, Debug, PartialEq, Eq, Structural)]
pub enum GuessResult {
    TooSmall,
    TooBig,
    Correct,
}

pub const SECRET_NUMBER: i32 = 42;

impl GuessingGame {
    /// A fresh game for the named player, with the fixed secret number.
    pub fn new(player: String) -> (r: Self)
        ensures
            r._player@ == player@,
            r.secret == SECRET_NUMBER,
    {
        Self { _player: player, secret: SECRET_NUMBER }
    }

    /// Grades `number` against the secret: the result says on which side of
    /// the secret the guess falls.
    pub fn guess(&self, number: i32) -> (r: GuessResult)
        ensures
            r == GuessResult::TooSmall <==> number < self.secret,
            r == GuessResult::Correct <==> number == self.secret,
            r == GuessResult::TooBig <==> number > self.secret,
    {
        if number < self.secret {
            GuessResult::TooSmall
        } else if number == self.secret {
            GuessResult::Correct
        } else {
            GuessResult::TooBig
        }
    }
}

} // verus!
