use ascii_hangman_backend::game::Game;
use ascii_hangman_backend::game::State;

/// Play simulation
#[test]
fn test_game_simulation() {
    let mut game = Game::new("_ab _cd", 2, true);

    assert_eq!(game.secret.render(), " a b   _ _\n");
    assert_eq!(game.lifes, 2);
    assert_eq!(game.last_guess, ' ');
    assert_eq!(game.state, State::Ongoing);
    assert_eq!(game.last_game, true);

    // now we guess right
    game.guess('c');

    assert_eq!(game.secret.render(), " a b   c _\n");
    assert_eq!(game.lifes, 2);
    assert_eq!(game.last_guess, 'c');
    assert_eq!(game.state, State::Ongoing);
    assert_eq!(game.last_game, true);

    // now we guess wrong
    game.guess('x');

    assert_eq!(game.secret.render(), " a b   c _\n");
    assert_eq!(game.lifes, 1);
    assert_eq!(game.last_guess, 'x');
    assert_eq!(game.state, State::Ongoing);
    assert_eq!(game.last_game, true);

    // we guess wrong again and we loose
    game.guess('y');
    assert_eq!(game.secret.render(), " a b   c d\n");
    assert_eq!(game.lifes, 0);
    assert_eq!(game.last_guess, 'y');
    assert_eq!(game.state, State::DefeatGameOver);
    assert_eq!(game.last_game, true);
}

/// A round ends in victory once every hidden character is disclosed, in the
/// game-over variant only on the final round.
#[test]
fn victory_states() {
    let mut game = Game::new("ab", 3, false);
    game.guess('a');
    assert_eq!(game.state, State::Ongoing);
    game.guess('b');
    assert_eq!(game.state, State::Victory);

    let mut last = Game::new("a", 3, true);
    last.guess('a');
    assert_eq!(last.state, State::VictoryGameOver);
}

/// A newline keystroke is ignored silently: no life lost, no state change.
#[test]
fn newline_is_ignored() {
    let mut game = Game::new("ab", 2, false);
    game.guess('\n');
    assert_eq!(game.lifes, 2);
    assert_eq!(game.last_guess, ' ');
    assert_eq!(game.state, State::Ongoing);
}

/// Losing the last life disclosues the secret and ends the round in defeat.
#[test]
fn defeat_discloses_everything() {
    let mut game = Game::new("xyz", 1, false);
    game.guess('q');
    assert_eq!(game.lifes, 0);
    assert_eq!(game.state, State::Defeat);
    assert!(game.secret.is_fully_disclosed());
}
