use ascii_hangman_backend::dictionary::ConfigParseError;
use ascii_hangman_backend::image::ImChar;
use ascii_hangman_backend::image::Image;
use ascii_hangman_backend::image::RewardingScheme;

/// Test image parsing of configuration file data
#[test]
fn test_image_parser_syntax() {
    let config: &str = r#"
|ab
|cd"#;
    let image = Image::new(&config);
    let expected = Ok(Image {
        ichars: [
            ImChar {
                point: (0, 0),
                code: 'a',
            },
            ImChar {
                point: (0, 1),
                code: 'c',
            },
            ImChar {
                point: (1, 0),
                code: 'b',
            },
            ImChar {
                point: (1, 1),
                code: 'd',
            },
        ]
        .to_vec(),
        dimension: (2, 2),
        visible_points: 4,
        rewarding_scheme: RewardingScheme::UnhideWhenGuessedChar,
    });

    assert!(image == expected);
}

/// Is non image data ignored?
#[test]
fn test_image_parser_syntax_ignore() {
    let config: &str = r#"
|/\
\/"#;
    let image = Image::new(&config).unwrap();
    let expected = Image {
        ichars: [
            ImChar {
                point: (0, 0),
                code: '/',
            },
            ImChar {
                point: (1, 0),
                code: '\\',
            },
        ]
        .to_vec(),
        dimension: (2, 1),
        visible_points: 2,
        rewarding_scheme: RewardingScheme::UnhideWhenGuessedChar,
    };

    assert_eq!(image, expected);
}

#[test]
fn test_image_renderer() {
    let config: &str = r#"
|>o)
|(_>   <o)
|      (_>
"#;
    let expected: &str = ">o)      \n(_>   <o)\n      (_>\n";
    let image = Image::new(&config).unwrap();

    assert!(image.visible_points > 0);
    assert_eq!(image.render(), expected);
}

#[test]
fn test_image_parser_built_in_image() {
    let config: &str = "this is no image";
    let image = Image::new(&config).unwrap();

    assert!(image.visible_points > 0);
}

/// disclose image progressively
#[test]
fn test_image_parser_disclose() {
    let config: &str = "|abcde";
    let mut image = Image::new(&config).unwrap();
    let expected = Image {
        ichars: [
            ImChar {
                point: (0, 0),
                code: 'a',
            },
            ImChar {
                point: (1, 0),
                code: 'b',
            },
            ImChar {
                point: (2, 0),
                code: 'c',
            },
            ImChar {
                point: (3, 0),
                code: 'd',
            },
            ImChar {
                point: (4, 0),
                code: 'e',
            },
        ]
        .to_vec(),
        dimension: (5, 1),
        visible_points: 5,
        rewarding_scheme: RewardingScheme::UnhideWhenGuessedChar,
    };
    assert!(image == expected);

    image.disclose((5, 5));
    assert!(image.visible_points == 0);

    image.disclose((1, 5));
    assert!(image.visible_points == 4);

    image.disclose((0, 5));
    assert!(image.visible_points == 5);
}

/// test game modifier spelling
#[test]
fn test_image_parser_error_misspelled() {
    let config = "\n\n:traditional-rewardXing";
    let dict = Image::new(&config);
    let expected = Err(ConfigParseError::GameModifier {
        line_number: 3,
        line: ":traditional-rewardXing".to_string(),
    });
    assert_eq!(dict, expected);
}

/// Test image parsing of configuration file data
#[test]
fn image_test_image_parser_syntax() {
    let config: &str = r#"
|ab
|cd"#;
    let image = Image::from_proprietary(&config);
    let expected = Ok(Image {
        ichars: [
            ImChar {
                point: (0, 0),
                code: 'a',
            },
            ImChar {
                point: (0, 1),
                code: 'c',
            },
            ImChar {
                point: (1, 0),
                code: 'b',
            },
            ImChar {
                point: (1, 1),
                code: 'd',
            },
        ]
        .to_vec(),
        dimension: (2, 2),
        visible_points: 4,
        rewarding_scheme: RewardingScheme::UnhideWhenGuessedChar,
    });

    assert!(image == expected);
}

/// Is non image data ignored?
#[test]
fn image_test_image_parser_syntax_ignore() {
    let config: &str = r#"
|/\
\/"#;
    let image = Image::from_proprietary(&config).unwrap();
    let expected = Image {
        ichars: [
            ImChar {
                point: (0, 0),
                code: '/',
            },
            ImChar {
                point: (1, 0),
                code: '\\',
            },
        ]
        .to_vec(),
        dimension: (2, 1),
        visible_points: 2,
        rewarding_scheme: RewardingScheme::UnhideWhenGuessedChar,
    };

    assert_eq!(image, expected);
}

#[test]
fn image_test_image_renderer() {
    let config: &str = r#"
|>o)
|(_>   <o)
|      (_>
"#;
    let expected: &str = ">o)      \n(_>   <o)\n      (_>\n";
    let image = Image::from_proprietary(&config).unwrap();

    assert!(image.visible_points > 0);
    assert_eq!(image.render(), expected);
}

#[test]
fn test_image_renderer_yaml() {
    let config: &str = r#"image: |1
 >o)
 (_>   <o)
       (_>
"#;
    let expected: &str = ">o)      \n(_>   <o)\n      (_>\n";
    let image = Image::from_yaml(&config).unwrap();

    assert!(image.visible_points > 0);
    assert_eq!(image.render(), expected);
}

#[test]
fn image_test_image_parser_built_in_image() {
    let config: &str = "this is no image";
    let image = Image::from_yaml(&config).unwrap_err();

    assert!(matches!(image, ConfigParseError::NotInYamlFormat { .. }));
}

/// disclose image progressively
#[test]
fn test_proprietery_image_parser_disclose() {
    let config: &str = "|abcde\n|f";
    let mut image = Image::from_proprietary(&config).unwrap();
    let expected = Image {
        ichars: [
            ImChar {
                point: (0, 0),
                code: 'a',
            },
            ImChar {
                point: (0, 1),
                code: 'f',
            },
            ImChar {
                point: (1, 0),
                code: 'b',
            },
            ImChar {
                point: (2, 0),
                code: 'c',
            },
            ImChar {
                point: (3, 0),
                code: 'd',
            },
            ImChar {
                point: (4, 0),
                code: 'e',
            },
        ]
        .to_vec(),
        dimension: (5, 2),
        visible_points: 6,
        rewarding_scheme: RewardingScheme::UnhideWhenGuessedChar,
    };
    assert_eq!(image, expected);

    image.disclose((6, 6));
    assert_eq!(image.visible_points, 1);

    image.disclose((2, 6));
    assert_eq!(image.visible_points, 4);

    image.disclose((0, 6));
    assert_eq!(image.visible_points, 6);
}

#[test]
fn test_yaml_image_parser_disclose() {
    //
    // Test yaml.
    let config: &str = "image: |1\n abcde\n f";
    let mut image = Image::from_yaml(&config).unwrap();
    let expected = Image {
        ichars: [
            ImChar {
                point: (0, 0),
                code: 'a',
            },
            ImChar {
                point: (0, 1),
                code: 'f',
            },
            ImChar {
                point: (1, 0),
                code: 'b',
            },
            ImChar {
                point: (2, 0),
                code: 'c',
            },
            ImChar {
                point: (3, 0),
                code: 'd',
            },
            ImChar {
                point: (4, 0),
                code: 'e',
            },
        ]
        .to_vec(),
        dimension: (5, 2),
        visible_points: 6,
        rewarding_scheme: RewardingScheme::UnhideWhenGuessedChar,
    };
    assert_eq!(image, expected);

    image.disclose((6, 6));
    assert_eq!(image.visible_points, 1);

    image.disclose((2, 6));
    assert_eq!(image.visible_points, 4);

    image.disclose((0, 6));
    assert_eq!(image.visible_points, 6);
}

#[test]
fn disclose_signature_last() {
    let image_str = "jensA\nBlisC";
    let image = Image::from(&image_str, RewardingScheme::UnhideWhenGuessedChar).unwrap();
    let expected = Image {
        ichars: [
            // This is the ASCII part of the image.
            ImChar {
                point: (0, 1),
                code: 'B',
            },
            ImChar {
                point: (4, 0),
                code: 'A',
            },
            ImChar {
                point: (4, 1),
                code: 'C',
            },
            // From here on, we see only signatures.
            ImChar {
                point: (0, 0),
                code: 'j',
            },
            ImChar {
                point: (1, 0),
                code: 'e',
            },
            ImChar {
                point: (2, 0),
                code: 'n',
            },
            ImChar {
                point: (3, 0),
                code: 's',
            },
            ImChar {
                point: (1, 1),
                code: 'l',
            },
            ImChar {
                point: (2, 1),
                code: 'i',
            },
            ImChar {
                point: (3, 1),
                code: 's',
            },
        ]
        .to_vec(),
        dimension: (5, 2),
        visible_points: 10,
        rewarding_scheme: RewardingScheme::UnhideWhenGuessedChar,
    };
    assert_eq!(image, expected);
}

/// test game modifier spelling
#[test]
fn image_test_image_parser_error_misspelled() {
    let config = "\n\n:traditional-rewardXing";
    let dict = Image::from_proprietary(&config);
    let expected = Err(ConfigParseError::GameModifier {
        line_number: 3,
        line: ":traditional-rewardXing".to_string(),
    });
    assert_eq!(dict, expected);
}

/// Image lines without a single pixel are no image at all.
#[test]
fn no_pixels_is_an_error() {
    let err = Image::from_proprietary("# only\n# comments\n").unwrap_err();
    assert!(matches!(err, ConfigParseError::NoImageData));
}

/// A big image keeps its pixels but shuffles their disclosure order; the
/// signature tail stays at the end regardless.
#[test]
fn big_image_is_shuffled_not_lost() {
    // 64 pixels: above the small-image threshold of 60.
    let mut text = String::new();
    for _ in 0..8 {
        text.push_str("|oooooooo\n");
    }
    let image = Image::from_proprietary(&text).unwrap();
    assert_eq!(image.ichars.len(), 64);
    assert_eq!(image.visible_points, 64);
    assert_eq!(image.dimension, (8, 8));
    let mut points: Vec<(u8, u8)> = image.ichars.iter().map(|p| p.point).collect();
    points.sort();
    let mut expected: Vec<(u8, u8)> = Vec::new();
    for y in 0..8u8 {
        for x in 0..8u8 {
            expected.push((x, y));
        }
    }
    expected.sort();
    assert_eq!(points, expected);
}

/// Small images disclose in non-decreasing distance from the origin.
#[test]
fn small_image_radiates_from_origin() {
    let image = Image::from_proprietary("|ab\n|cd").unwrap();
    let dist = |p: &ImChar| -> u32 {
        (p.point.0 as u32) * (p.point.0 as u32) + (p.point.1 as u32) * (p.point.1 as u32)
    };
    for w in image.ichars.windows(2) {
        assert!(dist(&w[0]) <= dist(&w[1]));
    }
}

/// The disclosure formula: everything visible at zero remaining, the
/// one-sixth floor at maximum remaining, and never out of range.
#[test]
fn disclosure_formula_boundaries() {
    let mut image = Image::from_proprietary("|aaaaaa\n|aaaaaa\n").unwrap();
    assert_eq!(image.ichars.len(), 12);
    image.disclose((7, 7));
    assert_eq!(image.visible_points, 2); // floor: 12 / 6
    image.disclose((0, 7));
    assert_eq!(image.visible_points, 12); // fully disclosed
    image.disclose((3, 7));
    assert!(image.visible_points <= 12);
    let before = image.visible_points;
    image.disclose((1, 0)); // zero denominator: no change
    assert_eq!(image.visible_points, before);
}
