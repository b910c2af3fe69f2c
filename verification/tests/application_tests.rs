use ascii_hangman_backend::LIVES;
use ascii_hangman_backend::application::Application;
use ascii_hangman_backend::dictionary::ConfigParseError;
use ascii_hangman_backend::dimensions;
use ascii_hangman_backend::game::Game;
use ascii_hangman_backend::game::State;

/// A one-secret config parses, and seven wrong guesses lose the final
/// round with the secret fully disclosed.
#[test]
fn single_secret_session() {
    let dict = ascii_hangman_backend::dictionary::Dict::parse("secrets:\n- guess me\n").unwrap();
    assert!(!dict.is_empty());
    assert_eq!(dict.secrets, vec!["guess me".to_string()]);

    let mut game = Game::new("guess me", LIVES, true);
    game.guess('g');
    assert_eq!(game.state, State::Ongoing);
    assert_eq!(game.lifes, 7);
    for c in ['z', 'y', 'x', 'w', 'v', 'q', 't'] {
        game.guess(c);
    }
    assert_eq!(game.lifes, 0);
    assert_eq!(game.state, State::DefeatGameOver);
    assert!(game.secret.is_fully_disclosed());
}

/// The application runs a full won round and moves on to the next one.
#[test]
fn application_round_trip() {
    let mut app = Application::new("secrets:\n- ab\n- cd\n").unwrap();
    assert_eq!(app.get_state(), State::Ongoing);
    assert_eq!(
        app.render_game_status(),
        "Lives:\t7\tLast guess:  \n".to_string()
    );
    assert_eq!(
        app.render_instructions(),
        "Type a letter, then press [Enter]:".to_string()
    );
    assert!(!app.render_image().is_empty());
    assert!(app.render_secret().contains('_'));

    // Win the current round, whichever secret was drawn.
    for c in ["a", "b", "c", "d"] {
        if app.get_state() == State::Ongoing {
            app.process_user_input(c);
        }
    }
    assert_eq!(app.get_state(), State::Victory);
    assert_eq!(
        app.render_instructions(),
        "Congratulations! You won!".to_string()
    );

    // Any key starts the next (and last) round.
    app.process_user_input("y");
    assert_eq!(app.get_state(), State::Ongoing);
    assert_eq!(app.render_game_status(), "Lives:\t7\tLast guess:  \n");
}

/// A lost round re-queues its secret: the session never drains on defeat.
#[test]
fn defeat_requeues_the_secret() {
    let mut app = Application::new("only one\n").unwrap();
    for c in ["z", "q", "j", "k", "v", "w", "x"] {
        app.process_user_input(c);
    }
    assert_eq!(app.get_state(), State::DefeatGameOver);
    assert_eq!(app.render_instructions(), "You lost.".to_string());
    // The lost secret is asked again.
    app.process_user_input("r");
    assert_eq!(app.get_state(), State::Ongoing);
}

/// A won final round ends the session; further input is ignored.
#[test]
fn victory_game_over_is_terminal() {
    let mut app = Application::new("secrets:\n- a\n").unwrap();
    app.process_user_input("a");
    assert_eq!(app.get_state(), State::VictoryGameOver);
    app.process_user_input("x");
    assert_eq!(app.get_state(), State::VictoryGameOver);
}

/// A comment-only config fails under both grammars with the legacy error.
#[test]
fn comment_only_config_fails() {
    let err = Application::new("# just a comment\n").unwrap_err();
    assert!(matches!(err, ConfigParseError::NoSecretString));
}

/// The config image is used when present, the built-in gallery otherwise.
#[test]
fn config_image_is_used() {
    let app = Application::new("secrets:\n- ab\nimage: |1\n x\n").unwrap();
    assert_eq!(app.image.ichars.len(), 1);
    let fallback = Application::new("secrets:\n- ab\n").unwrap();
    assert!(fallback.image.ichars.len() > 1);
}

/// The traditional scheme discloses by lost lives, starting at the floor.
#[test]
fn traditional_scheme_follows_lives() {
    let mut app = Application::new(":traditional-rewarding\n|aaaaaa\n|aaaaaa\nsecret one\n")
        .unwrap();
    assert_eq!(app.image.ichars.len(), 12);
    // All lives left: only the floor of one sixth is visible.
    assert_eq!(app.image.visible_points, 2);
    app.process_user_input("z");
    assert_eq!(app.game.lifes, 6);
    assert!(app.image.visible_points > 2);
}

/// The columns and lines of the smallest grid that displays a rendering.
#[test]
fn dimensions_of_render() {
    assert_eq!(dimensions(""), (0, 0));
    assert_eq!(dimensions("ab\nc\n"), (2, 2));
    assert_eq!(dimensions("a\nbcd"), (3, 2));
    let secret = ascii_hangman_backend::secret::Secret::new("ab cd");
    assert_eq!(dimensions(secret.render().as_str()), (10, 1));
}

#[test]
fn test_dimensions() {
    let secret = ascii_hangman_backend::secret::Secret::new("Lorem ipsum dolor sit amet, consectetur adipiscing\
         elit, sed do eiusmod tempor incididunt ut labore et dolore magna aliqua. Ut enim ad minim veniam,\
         quis nostrud exercitation ullamco laboris nisi ut aliquip ex ea commodo consequat. Duis aute irure\
         dolor in reprehenderit in voluptate velit esse cillum dolore eu fugiat nulla pariatur. Excepteur\
         sint occaecat cupidatat non proident, sunt in culpa qui officia deserunt mollit anim id est\
         laborum.");

    assert_eq!(dimensions(secret.render().as_str()), (66, 18));
}
