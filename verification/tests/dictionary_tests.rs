use ascii_hangman_backend::dictionary::ConfigParseError;
use ascii_hangman_backend::dictionary::Dict;

/// parse all 3 data types in configuration file format
#[test]
fn test_dictionary_parser_syntax() {
    let config: &str = "
#  comment

guess me
hang_man_
_good l_uck
:traditional-rewarding
";
    let dict = Dict::new(&config);
    let expected = Ok(Dict {
        secrets: vec![
            "guess me".to_string(),
            "hang_man_".to_string(),
            "_good l_uck".to_string(),
        ],
    });
    assert_eq!(dict, expected);
}

/// indent of secrets is allowed
#[test]
fn test_dictionary_parser_indent() {
    let config: &str = "   guess me";
    let dict = Dict::new(&config);
    let expected = Ok(Dict {
        secrets: vec!["guess me".to_string()],
        // this is default
    });
    assert!(dict == expected);
}

/// indent of comments is not allowed
#[test]
fn test_dictionary_parser_error_indent() {
    let config = "\n\n\n   # comment";
    let dict = Dict::new(&config);
    let expected = Err(ConfigParseError::LineIdentifier {
        line_number: 4,
        line: "   # comment".to_string(),
    });
    assert!(dict == expected);
}

/// configuration must define at least one secret
#[test]
fn test_dictionary_parser_error_no_secrets() {
    let config = "# nothing but comment";
    let dict = Dict::new(&config);
    let expected = Err(ConfigParseError::NoSecretString);
    assert!(dict == expected);
}

#[test]
fn test_image_parser_error_indent() {
    let config = "one secret\n\n :traditional-rewarding";
    let dict = Dict::new(&config);
    let expected = Err(ConfigParseError::LineIdentifier {
        line_number: 3,
        line: " :traditional-rewarding".to_string(),
    });
    assert_eq!(dict, expected);
}

/// parse all 3 data types in configuration file format
#[test]
fn test_from() {
    let config: &str = "
#  comment
secrets:
- guess me
- hang_man_
- _good l_uck

traditional: true
";
    let dict = Dict::from(&config).unwrap();

    let expected = Dict {
        secrets: vec![
            "guess me".to_string(),
            "hang_man_".to_string(),
            "_good l_uck".to_string(),
        ],
    };

    assert_eq!(dict, expected);
    let config = "# comment\nsecrets:\n  - guess me\n";
    let dict = Dict::from(&config);
    let expected = Ok(Dict {
        secrets: vec!["guess me".to_string()],
    });
    assert_eq!(dict, expected);

    let config = "# comment\nsecrets:\n- guess me\n";
    let dict = Dict::from(&config);
    let expected = Ok(Dict {
        secrets: vec!["guess me".to_string()],
    });
    assert_eq!(dict, expected);

    let config = "# comment\nsecrets:\n- 222\n";
    let dict = Dict::from(&config);
    let expected = Ok(Dict {
        secrets: vec!["222".to_string()],
    });
    assert_eq!(dict, expected);

    let config = "sxxxecrets:";
    let dict = Dict::from(&config).unwrap_err();
    assert!(matches!(dict, ConfigParseError::YamlSecretsLineMissing));

    let config = "# comment\nsecrets:\n   guess me\n";
    let dict = Dict::from(&config).unwrap_err();
    assert!(matches!(dict, ConfigParseError::NotInYamlFormat { .. }));
}

/// The combined parse prefers the structured grammar where its key line is
/// present and falls back to the legacy line grammar otherwise.
#[test]
fn parse_selects_the_grammar() {
    let dict = Dict::parse("secrets:\n- guess me\n").unwrap();
    let expected = Dict {
        secrets: vec!["guess me".to_string()],
    };
    assert_eq!(dict, expected);

    let dict = Dict::parse("guess me\n").unwrap();
    assert_eq!(dict, expected);
}

/// A comment-only file has no secret under either grammar.
#[test]
fn parse_comment_only_fails() {
    let err = Dict::parse("# just a comment\n").unwrap_err();
    assert!(matches!(err, ConfigParseError::NoSecretString));
}

/// An indented directive line is not sanctioned by the legacy grammar and
/// is cited with its one-based line number.
#[test]
fn parse_indented_directive_fails() {
    let err = Dict::parse("one\n\n :traditional-rewarding").unwrap_err();
    assert_eq!(
        err,
        ConfigParseError::LineIdentifier {
            line_number: 3,
            line: " :traditional-rewarding".to_string(),
        }
    );
}

/// A configuration without a usable secret list is rejected at load time:
/// an inline empty list misses the exact key line, and a key line holding
/// no list at all will not deserialize.
#[test]
fn empty_secret_list_is_rejected() {
    let err = Dict::from("secrets: []\n").unwrap_err();
    assert!(matches!(err, ConfigParseError::YamlSecretsLineMissing));
    let err = Dict::from("secrets:\n").unwrap_err();
    assert!(matches!(err, ConfigParseError::NotInYamlFormat { .. }));
}

/// A leading byte-order mark is stripped before any processing.
#[test]
fn bom_is_stripped() {
    let dict = Dict::from("\u{feff}secrets:\n- guess me\n").unwrap();
    assert_eq!(
        dict,
        Dict {
            secrets: vec!["guess me".to_string()]
        }
    );
}

/// Drawing removes one member at random; draining returns every member
/// exactly once and ends with `None`.
#[test]
fn random_draw_drains_the_pool() {
    let mut dict = Dict::new("alpha\nbeta\ngamma\n").unwrap();
    assert!(!dict.is_empty());
    let mut drawn = vec![
        dict.get_random_secret().unwrap(),
        dict.get_random_secret().unwrap(),
        dict.get_random_secret().unwrap(),
    ];
    assert!(dict.is_empty());
    assert_eq!(dict.get_random_secret(), None);
    drawn.sort();
    assert_eq!(drawn, vec!["alpha", "beta", "gamma"]);
}

/// A re-added secret is drawn again.
#[test]
fn add_puts_a_secret_back() {
    let mut dict = Dict::new("one\n").unwrap();
    let s = dict.get_random_secret().unwrap();
    assert!(dict.is_empty());
    dict.add(s);
    assert!(!dict.is_empty());
    assert_eq!(dict.get_random_secret().unwrap(), "one");
}

/// An indented list item before the key line is no valid document: the key
/// line is present, so the wrapped deserializer diagnostic is surfaced.
#[test]
fn list_item_before_key_line_fails() {
    let config = "  - guess me\nsecrets:\n";
    let dict = Dict::from(&config).unwrap_err();
    assert!(matches!(dict, ConfigParseError::NotInYamlFormat { .. }));
}

/// The user-facing message of each error variant.
#[test]
fn error_message_texts() {
    let e = ConfigParseError::GameModifier {
        line_number: 3,
        line: ":traditional-rewardXing".to_string(),
    };
    assert_eq!(
        e.message(),
        "Syntax error in line 3: `:traditional-rewardXing`\n\n\
         The game modifier must be one of the following:\n\
         :traditional-rewarding\n\
         :success-rewarding\n\n\
         Edit config file and start again.\n"
    );
    let e = ConfigParseError::LineIdentifier {
        line_number: 12,
        line: " oops".to_string(),
    };
    assert!(e.message().starts_with("Syntax error in line 12: ` oops`\n"));
    assert_eq!(ConfigParseError::NoImageData.message(), "No image data found.");
    assert_eq!(
        ConfigParseError::NoSecretString.message(),
        "A config file must have a least one secret string, which is\n\
         a non-empty line starting with a letter, digit, '_' or '-'."
    );
    assert_eq!(
        ConfigParseError::YamlSecretsLineMissing.message(),
        "No line: `secrets:` found (no spaces allowed before)."
    );
    let e = ConfigParseError::NotInYamlFormat {
        message: "diagnostic".to_string(),
    };
    assert!(e.message().starts_with("Syntax error: Please follow the example below.\n"));
    assert!(e.message().ends_with("------------------------------\ndiagnostic"));
}
