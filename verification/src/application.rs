//! The stateful application the user interfaces drive: the secret pool, the
//! current round and the image, with one entry point per keystroke.
use crate::LIVES;
use crate::dictionary::ConfigParseError;
use crate::dictionary::Dict;
use crate::dictionary::spec_has_secrets_line;
use crate::dictionary::spec_legacy_parse_result;
use crate::dictionary::spec_pool_of;
use crate::dictionary::spec_pool_ok;
use crate::dictionary::spec_structured_parse_result;
use crate::game::Game;
use crate::game::State;
use crate::game::spec_guess_post;
use crate::image::Image;
use crate::image::spec_built_in_image;
use crate::image::spec_from_yaml_result;
use crate::image::spec_game_modifier_error;
use crate::image::spec_image_render;
use crate::image::spec_proprietary_ok;
use crate::image::spec_proprietary_result;
use crate::image::spec_try_update_post;
use crate::image::spec_yaml_image_ok;
use crate::secret::count_hidden;
use crate::secret::spec_raw;
use crate::secret::spec_render;
use crate::secret::spec_units;
use crate::text::chars_to_string;
use crate::text::spec_decimal;
use crate::text::usize_decimal;
use crate::text::spec_split_lines;
use crate::text::spec_strip_bom;
use vstd::prelude::*;
use vstd::string::*;

verus! {

/// The state of the application: one secret pool, one round, one image.
#[derive(Debug)]
pub struct Application {
    pub dict: Dict,
    pub game: Game,
    pub image: Image,
}

/// How a fresh round relates to the pool it was drawn from: one entry
/// removed at random to become the secret, full lives, and the final-round
/// flag raised exactly when the pool is drained.
pub open spec fn spec_round_drawn(post: Application, pool: Seq<Seq<char>>) -> bool {
    &&& pool.len() > 0
    &&& exists|i: int|
        0 <= i < pool.len() && post.game.secret@ == spec_units(#[trigger] pool[i]) && post.dict@
            == pool.update(i, pool.last()).drop_last()
    &&& post.game.secret.chars_to_guess == count_hidden(post.game.secret@)
    &&& post.game.lifes == LIVES
    &&& post.game.last_guess == ' '
    &&& post.game.state == State::Ongoing
    &&& post.game.last_game == (pool.len() == 1)
}

/// How the image relates across a step: everything but the visible count is
/// kept, and the visible count follows the guarded disclosure update for
/// the new round.
pub open spec fn spec_image_stepped(pre: Image, g: Game, post: Image) -> bool {
    exists|updated: bool| spec_try_update_post(pre, g, post, updated)
}

impl Application {
    /// The application's invariant: the round and image are well formed, a
    /// round in play has lives left, and the pool is non-empty wherever a
    /// further round is owed.
    pub open spec fn wf(&self) -> bool {
        &&& self.game.wf()
        &&& self.image.wf()
        &&& self.game.lifes <= LIVES
        &&& (self.game.state == State::Ongoing ==> self.game.lifes > 0)
        &&& (!self.game.last_game ==> self.dict@.len() > 0)
        &&& (self.game.state == State::Victory ==> !self.game.last_game)
    }

    /// Initializes the application with configuration data and starts the
    /// first round: the config is parsed under the two-grammar strategy, one
    /// secret is drawn, the image comes from the config — or from the
    /// built-in gallery where the config supplies none — and is disclosed
    /// once for the fresh round.
    pub fn new(config: &str) -> (r: Result<Application, ConfigParseError>)
        ensures
            match r {
                Ok(app) => {
                    &&& spec_pool_ok(config@)
                    &&& app.wf()
                    &&& spec_round_drawn(app, spec_pool_of(config@))
                    &&& exists|im0: Image|
                        {
                            &&& (#[trigger] spec_image_stepped(im0, app.game, app.image))
                            &&& (if spec_has_secrets_line(
                                spec_split_lines(spec_strip_bom(config@)),
                            ) {
                                if spec_yaml_image_ok(spec_strip_bom(config@)) {
                                    spec_from_yaml_result(spec_strip_bom(config@), Ok(im0))
                                } else {
                                    spec_built_in_image(im0)
                                }
                            } else {
                                if spec_proprietary_ok(config@) {
                                    spec_proprietary_result(config@, Ok(im0))
                                } else {
                                    spec_built_in_image(im0)
                                }
                            })
                        }
                },
                Err(e) => {
                    if !spec_pool_ok(config@) {
                        if spec_has_secrets_line(spec_split_lines(spec_strip_bom(config@))) {
                            spec_structured_parse_result(spec_strip_bom(config@), Err(e))
                        } else {
                            spec_legacy_parse_result(
                                spec_split_lines(spec_strip_bom(config@)),
                                Err(e),
                            )
                        }
                    } else {
                        &&& !spec_has_secrets_line(spec_split_lines(spec_strip_bom(config@)))
                        &&& spec_game_modifier_error(spec_split_lines(config@), e)
                    }
                },
            },
    {
        let cs0 = crate::text::str_to_chars(config);
        let cs = crate::text::strip_bom(&cs0);
        let ls = crate::text::split_lines(&cs);
        let structured = Dict::has_secrets_line(&ls);
        proof {
            assert(cs@ == spec_strip_bom(config@));
            assert(ls.deep_view() == spec_split_lines(spec_strip_bom(config@)));
            assert(structured == spec_has_secrets_line(
                spec_split_lines(spec_strip_bom(config@)),
            ));
        }
        let mut dict = match Dict::parse(config) {
            Ok(d) => d,
            Err(e) => {
                return Err(e);
            },
        };
        proof {
            assert(spec_pool_ok(config@));
            assert(dict@ == spec_pool_of(config@));
        }
        let secret = match dict.get_random_secret() {
            Some(s) => s,
            None => {
                return Err(ConfigParseError::NoSecretString);
            },
        };
        let game = Game::new(secret.as_str(), LIVES, dict.is_empty());
        let mut image = if structured {
            match Image::from_yaml(config) {
                Ok(im) => im,
                Err(_) => Image::random_built_in(),
            }
        } else {
            match Image::new(config) {
                Ok(im) => im,
                Err(e) => {
                    return Err(e);
                },
            }
        };
        let ghost im0 = image;
        let updated = image.try_update(&game);
        let app = Application { dict, game, image };
        proof {
            assert(spec_try_update_post(im0, app.game, app.image, updated));
            assert(spec_image_stepped(im0, app.game, app.image));
        }
        Ok(app)
    }

    /// Drives one keystroke through the application, per the current state:
    /// a won round starts the next one; a lost round first puts its secret
    /// back into the pool so the session never drains on a defeat; a
    /// finished session ignores input; an ongoing round forwards the first
    /// character as a guess. The image follows each step.
    pub fn process_user_input(&mut self, inp: &str)
        requires
            old(self).wf(),
        ensures
            final(self).wf(),
            match old(self).game.state {
                State::VictoryGameOver => *final(self) == *old(self),
                State::Victory => spec_round_drawn(*final(self), old(self).dict@)
                    && spec_image_stepped(old(self).image, final(self).game, final(self).image),
                State::Defeat | State::DefeatGameOver => spec_round_drawn(
                    *final(self),
                    old(self).dict@.push(spec_raw(old(self).game.secret@)),
                ) && spec_image_stepped(old(self).image, final(self).game, final(self).image),
                State::Ongoing => {
                    let c = if inp@.len() > 0 {
                        inp@[0]
                    } else {
                        ' '
                    };
                    &&& final(self).dict@ == old(self).dict@
                    &&& spec_guess_post(old(self).game, final(self).game, c)
                    &&& spec_image_stepped(old(self).image, final(self).game, final(self).image)
                },
            },
    {
        let state = self.game.state;
        match state {
            State::Victory => {
                let secret = match self.dict.get_random_secret() {
                    Some(s) => s,
                    None => {
                        proof {
                            assert(false);
                        }
                        return ;
                    },
                };
                self.game = Game::new(secret.as_str(), LIVES, self.dict.is_empty());
                let ghost im0 = self.image;
                let updated = self.image.try_update(&self.game);
                proof {
                    assert(spec_try_update_post(im0, self.game, self.image, updated));
                }
            },
            State::VictoryGameOver => {},
            State::Defeat | State::DefeatGameOver => {
                let raw = self.game.secret.to_raw_string();
                self.dict.add(raw);
                let secret = match self.dict.get_random_secret() {
                    Some(s) => s,
                    None => {
                        proof {
                            assert(false);
                        }
                        return ;
                    },
                };
                self.game = Game::new(secret.as_str(), LIVES, self.dict.is_empty());
                let ghost im0 = self.image;
                let updated = self.image.try_update(&self.game);
                proof {
                    assert(spec_try_update_post(im0, self.game, self.image, updated));
                }
            },
            State::Ongoing => {
                let c = if inp.unicode_len() > 0 {
                    inp.get_char(0)
                } else {
                    ' '
                };
                let ghost im0 = self.image;
                self.game.guess(c);
                let updated = self.image.try_update(&self.game);
                proof {
                    assert(spec_try_update_post(im0, self.game, self.image, updated));
                }
            },
        }
    }

    /// The rendered image, as far as it is disclosed.
    pub fn render_image(&self) -> (r: String)
        requires
            self.wf(),
        ensures
            r@ == spec_image_render(self.image),
    {
        self.image.render()
    }

    /// The rendered, partly hidden secret.
    pub fn render_secret(&self) -> (r: String)
        ensures
            r@ == spec_render(self.game.secret@),
    {
        self.game.secret.render()
    }

    /// The game statistics line: lives and last guess.
    pub fn render_game_status(&self) -> (r: String)
        ensures
            r@ == spec_status_line(self.game.lifes, self.game.last_guess),
    {
        let digits = usize_decimal(self.game.lifes as usize);
        let digits_str = chars_to_string(&digits);
        let mut guess_chars: Vec<char> = Vec::new();
        guess_chars.push(self.game.last_guess);
        let guess_str = chars_to_string(&guess_chars);
        let mut out = String::from_str("Lives:\t");
        out.append(digits_str.as_str());
        out.append("\tLast guess: ");
        out.append(guess_str.as_str());
        out.append("\n");
        proof {
            assert(guess_chars@ =~= seq![self.game.last_guess]);
            assert(out@ =~= spec_status_line(self.game.lifes, self.game.last_guess));
        }
        out
    }

    /// What the user should do next, depending on the round's state.
    pub fn render_instructions(&self) -> (r: String)
        ensures
            r@ == spec_instructions(self.game.state),
    {
        match self.game.state {
            State::Victory => String::from_str("Congratulations! You won!"),
            State::VictoryGameOver => String::from_str("Congratulations! You won!"),
            State::Defeat => String::from_str("You lost."),
            State::DefeatGameOver => String::from_str("You lost."),
            State::Ongoing => String::from_str("Type a letter, then press [Enter]:"),
        }
    }

    /// The round's state, for the driving user interface.
    pub fn get_state(&self) -> (r: State)
        ensures
            r == self.game.state,
    {
        self.game.state
    }
}

/// The statistics line shown each turn.
pub open spec fn spec_status_line(lifes: u8, last_guess: char) -> Seq<char> {
    "Lives:\t"@ + spec_decimal(lifes as int) + "\tLast guess: "@ + seq![last_guess] + "\n"@
}

/// The prompt for each round state.
pub open spec fn spec_instructions(state: State) -> Seq<char> {
    match state {
        State::Victory => "Congratulations! You won!"@,
        State::VictoryGameOver => "Congratulations! You won!"@,
        State::Defeat => "You lost."@,
        State::DefeatGameOver => "You lost."@,
        State::Ongoing => "Type a letter, then press [Enter]:"@,
    }
}

} // verus!
