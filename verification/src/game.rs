//! The game state and logic of one round: lives, last guess, and the state
//! machine driven by each guess.
use crate::secret::Secret;
use crate::secret::count_hidden;
use crate::secret::spec_disclose;
use crate::secret::spec_found;
use crate::secret::spec_guess;
use crate::secret::spec_units;
use vstd::prelude::*;

verus! {

/// A subset of the game state, derived after every guess.
#[derive(Debug, PartialEq, Eq, Clone, Copy)]
pub enum State {
    /// The game is ongoing.
    Ongoing,
    /// The player won and the game is continuable.
    Victory,
    /// The player lost and the game is continuable.
    Defeat,
    /// The player won and there are no more secrets to guess.
    VictoryGameOver,
    /// The player lost and there are no more secrets to guess.
    DefeatGameOver,
}

/// The state of one round.
#[derive(Debug, PartialEq)]
pub struct Game {
    pub secret: Secret,
    pub lifes: u8,
    pub last_guess: char,
    pub state: State,
    pub last_game: bool,
}

/// How one guess takes a round from `pre` to `post`: newline is ignored
/// silently; otherwise the guess is recorded, a miss costs one life,
/// reaching zero lives discloses the whole secret and ends the round in
/// defeat, and full disclosure ends it in victory — the "game over"
/// variants when this was the last round.
pub open spec fn spec_guess_post(pre: Game, post: Game, character: char) -> bool {
    &&& post.last_game == pre.last_game
    &&& post.secret.chars_to_guess == pre.secret.chars_to_guess
    &&& (character == '\n' ==> post == pre)
    &&& (character != '\n' ==> {
        let found = spec_found(pre.secret@, character);
        let guessed = spec_guess(pre.secret@, character);
        let lifes1 = if found {
            pre.lifes
        } else {
            (pre.lifes - 1) as u8
        };
        &&& post.last_guess == character
        &&& post.lifes == lifes1
        &&& (if lifes1 == 0 {
            &&& post.secret@ == spec_disclose(guessed)
            &&& post.state == (if pre.last_game {
                State::DefeatGameOver
            } else {
                State::Defeat
            })
        } else if count_hidden(guessed) == 0 {
            &&& post.secret@ == guessed
            &&& post.state == (if pre.last_game {
                State::VictoryGameOver
            } else {
                State::Victory
            })
        } else {
            &&& post.secret@ == guessed
            &&& post.state == State::Ongoing
        })
    })
}

impl Game {
    pub open spec fn wf(&self) -> bool {
        self.secret.wf()
    }

    /// Starts a round over a fresh parse of `secretstr`.
    pub fn new(secretstr: &str, lifes: u8, last_game: bool) -> (r: Self)
        ensures
            r.secret@ == spec_units(secretstr@),
            r.secret.chars_to_guess == count_hidden(spec_units(secretstr@)),
            r.lifes == lifes,
            r.last_guess == ' ',
            r.state == State::Ongoing,
            r.last_game == last_game,
            r.wf(),
    {
        let secret = Secret::new(secretstr);
        Self { secret, lifes, last_guess: ' ', state: State::Ongoing, last_game }
    }

    /// Processes a guess: newline is ignored silently; otherwise the guess is
    /// recorded, a miss costs one life, reaching zero lives disclosues the
    /// whole secret and ends the round in defeat, and full disclosure ends it
    /// in victory — the "game over" variants when this was the last round.
    pub fn guess(&mut self, character: char)
        requires
            old(self).wf(),
            character != '\n' ==> old(self).lifes > 0 || spec_found(old(self).secret@, character),
        ensures
            final(self).wf(),
            spec_guess_post(*old(self), *final(self), character),
    {
        if character == '\n' {
            return ;
        }
        self.last_guess = character;
        let found = self.secret.guess(character);
        if !found {
            self.lifes = self.lifes - 1;
        }
        self.state = if self.lifes == 0 {
            self.secret.disclose_all();
            if self.last_game {
                State::DefeatGameOver
            } else {
                State::Defeat
            }
        } else if self.secret.is_fully_disclosed() {
            if self.last_game {
                State::VictoryGameOver
            } else {
                State::Victory
            }
        } else {
            State::Ongoing
        };
    }
}

} // verus!
