use ascii_hangman_backend::secret::Secret;

/// Game simulation
#[test]
fn test_secret() {
    let mut secret = Secret::new("_ab _cd");

    assert_eq!(secret.to_raw_string(), "_ab _cd");
    assert_eq!(secret.render(), " a b   _ _\n");
    assert_eq!(secret.hidden_chars(), 2);
    assert!(!secret.is_fully_disclosed());

    secret.guess('x');

    assert_eq!(secret.to_raw_string(), "_ab _cd");
    assert_eq!(secret.render(), " a b   _ _\n");
    assert_eq!(secret.hidden_chars(), 2);
    assert!(!secret.is_fully_disclosed());

    secret.guess('d');

    assert_eq!(secret.to_raw_string(), "_ab _cd");
    assert_eq!(secret.render(), " a b   _ d\n");
    assert_eq!(secret.hidden_chars(), 1);
    assert!(!secret.is_fully_disclosed());

    secret.disclose_all();
    assert_eq!(secret.to_raw_string(), "_ab _cd");
    assert_eq!(secret.render(), " a b   c d\n");
    assert_eq!(secret.hidden_chars(), 0);
    assert!(secret.is_fully_disclosed());
}

/// Game simulation
#[test]
fn secret_test_secret() {
    let mut secret = Secret::new("_ab _cd");

    assert_eq!(secret.to_raw_string(), "_ab _cd");
    assert_eq!(secret.render(), " a b   _ _\n");
    assert_eq!(secret.hidden_chars(), 2);
    assert!(!secret.is_fully_disclosed());

    secret.guess('x');

    assert_eq!(secret.to_raw_string(), "_ab _cd");
    assert_eq!(secret.render(), " a b   _ _\n");
    assert_eq!(secret.hidden_chars(), 2);
    assert!(!secret.is_fully_disclosed());

    secret.guess('d');

    assert_eq!(secret.to_raw_string(), "_ab _cd");
    assert_eq!(secret.render(), " a b   _ d\n");
    assert_eq!(secret.hidden_chars(), 1);
    assert!(!secret.is_fully_disclosed());

    secret.disclose_all();
    assert_eq!(secret.to_raw_string(), "_ab _cd");
    assert_eq!(secret.render(), " a b   c d\n");
    assert_eq!(secret.hidden_chars(), 0);
    assert!(secret.is_fully_disclosed());
}

#[test]
fn test_secret_linebreak() {
    let mut secret = Secret::new("_abc|def _hij|klm");
    assert_eq!(secret.render(), " a b c\n d e f   _ _ _\n _ _ _\n");
    assert_eq!(secret.to_raw_string(), "_abc|def _hij|klm");
    assert_eq!(secret.hidden_chars(), 6);
    assert!(!secret.is_fully_disclosed());

    secret.disclose_all();
    assert_eq!(secret.render(), " a b c\n d e f   h i j\n k l m\n");
    assert_eq!(secret.hidden_chars(), 0);
    assert!(secret.is_fully_disclosed());
    assert_eq!(secret.to_raw_string(), "_abc|def _hij|klm");

    let secret = Secret::new("_123456789012345 789012345 789012_");
    assert_eq!(
        secret.render(),
        " 1 2 3 4 5 6 7 8 9 0 1 2 3 4 5   7 8 9 0 1 2 3 4 5\n 7 8 9 0 1 2\n"
    );

    let secret = Secret::new("_abc|  def _hij| \n  klm");
    assert_eq!(secret.render(), " a b c\n d e f   _ _ _\n _ _ _\n");
    assert_eq!(secret.to_raw_string(), "_abc|  def _hij| \n  klm");
    assert_eq!(secret.hidden_chars(), 6);
    assert!(!secret.is_fully_disclosed());
}

/// Guessing an already-disclosed character again finds nothing: no
/// duplicate reward, and the caller would count it as a miss.
#[test]
fn guess_is_idempotent_per_character() {
    let mut secret = Secret::new("abcb");
    assert!(secret.guess('b'));
    assert!(!secret.guess('b'));
    assert!(secret.guess('A'));
    assert!(!secret.guess('a'));
}

/// The raw string survives parsing exactly, markup included.
#[test]
fn raw_string_round_trip() {
    for s in [
        "",
        "guess me",
        "_good l_uck",
        "_abc|  def _hij| \n  klm",
        "a_b_c_d_",
        "|||",
        "  spaces  ",
    ] {
        assert_eq!(Secret::new(s).to_raw_string(), s);
    }
}

/// The rendering shows one underscore per character still to guess, and
/// none once everything is disclosed.
#[test]
fn render_placeholder_count() {
    let mut secret = Secret::new("_der Hund:_| the dog");
    let before = secret.render();
    assert_eq!(
        before.chars().filter(|c| *c == '_').count(),
        secret.chars_to_guess
    );
    secret.disclose_all();
    let after = secret.render();
    assert_eq!(after.chars().filter(|c| *c == '_').count(), 0);
}

/// Case folding applies to ASCII letters only.
#[test]
fn guess_folds_ascii_case() {
    let mut secret = Secret::new("Rust");
    assert!(secret.guess('r'));
    assert!(secret.guess('U'));
    assert_eq!(secret.hidden_chars(), 2);
}
