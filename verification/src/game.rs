//! Game settings: how many rounds a session plays and how much guessing
//! time each round allows. Both values must stay positive; the validated
//! setter rejects anything else without mutating the settings.

use vstd::prelude::*;

verus! {

/// Settings for one game session. `guess_time_secs` is a duration in
/// seconds; `rounds` is a count. Both are positive in any well-formed value.
#[derive(Clone, Copy, Debug, PartialEq, Eq, Structural)]
pub struct GameSettings {
    pub rounds: u64,
    pub guess_time_secs: u64,
}

/// Failure of the validated settings setter.
#[derive(Clone, Copy, Debug, PartialEq, Eq, Structural)]
pub enum SettingsError {
    /// The requested round count or guess time was zero.
    InvalidSettings,
}

pub const DEFAULT_ROUNDS: u64 = 20;

pub const DEFAULT_GUESS_TIME_SECS: u64 = 30;

impl GameSettings {
    /// A well-formed value has a positive round count and a positive
    /// guess time.
    pub open spec fn wf(self) -> bool {
        self.rounds >= 1 && self.guess_time_secs >= 1
    }

    pub fn rounds(&self) -> (r: u64)
        ensures
            r == self.rounds,
    {
        self.rounds
    }

    pub fn guess_time_secs(&self) -> (r: u64)
        ensures
            r == self.guess_time_secs,
    {
        self.guess_time_secs
    }

    /// Validated setter: accepts exactly the positive pairs and leaves the
    /// settings untouched on rejection.
    pub fn configure(&mut self, rounds: u64, guess_time_secs: u64) -> (r: Result<(), SettingsError>)
        ensures
            r is Ok <==> rounds >= 1 && guess_time_secs >= 1,
            r is Ok ==> *final(self) == (GameSettings { rounds, guess_time_secs }),
            r is Err ==> *final(self) == *old(self) && r == Err::<(), SettingsError>(
                SettingsError::InvalidSettings,
            ),
            r is Ok ==> final(self).wf(),
    {
        if rounds == 0 || guess_time_secs == 0 {
            Err(SettingsError::InvalidSettings)
        } else {
            self.rounds = rounds;
            self.guess_time_secs = guess_time_secs;
            Ok(())
        }
    }
}

impl Default for GameSettings {
    /// The default settings: 20 rounds with 30 seconds of guess time each.
    fn default() -> (r: Self)
        ensures
            r == (GameSettings { rounds: DEFAULT_ROUNDS, guess_time_secs: DEFAULT_GUESS_TIME_SECS }),
            r.wf(),
    {
        GameSettings { rounds: DEFAULT_ROUNDS, guess_time_secs: DEFAULT_GUESS_TIME_SECS }
    }
}

} // verus!
