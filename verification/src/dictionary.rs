//! Configuration parsing and the secret pool: the structured (YAML)
//! grammar, the legacy line grammar it falls back to, the error taxonomy,
//! and the dictionary of secrets drawn from at each round.
use crate::random::random_index;
use crate::text::chars_to_string;
use crate::text::is_alphanumeric_char;
use crate::text::spec_is_alphanumeric;
use crate::text::spec_split_lines;
use crate::text::spec_strip_bom;
use crate::text::spec_trim;
use crate::text::spec_trim_end;
use crate::text::split_lines;
use crate::text::spec_decimal;
use crate::text::str_to_chars;
use crate::text::strip_bom;
use crate::text::trim_bounds;
use crate::text::trim_end_bound;
use crate::text::usize_decimal;
use crate::text::vec_subrange;
use crate::yaml::yaml_parse_secrets;
use crate::yaml::yaml_secrets_of;
use vstd::prelude::*;
use vstd::string::*;

verus! {

/// Tags comment lines in the configuration file.
pub const CONF_LINE_IDENTIFIER__COMMENT: char = '#';

/// Optionally tags secret strings in the configuration file. Can be omitted.
pub const CONF_LINE_IDENTIFIER__WORD: char = '-';

/// Tags game-modifier lines in the configuration file.
pub const CONF_LINE_IDENTIFIER__CONTROL: char = ':';

/// Tags image lines in the configuration file.
pub const CONF_LINE_IDENTIFIER__IMAGE: char = '|';

/// A tag to enclose parts of the secret that are visible from the start,
/// e.g. "guess_-me_" is displayed in the game as "_ _ _ _ _ - m e".
pub const CONF_LINE_SECRET_MODIFIER__VISIBLE: char = '_';

/// A tag to insert a line break when the secret is displayed.
pub const CONF_LINE_SECRET_MODIFIER__LINEBREAK: char = '|';

/// A syntax error found while parsing the configuration text.
#[derive(Debug, PartialEq, Eq)]
pub enum ConfigParseError {
    /// Legacy grammar: a `:` line that is not one of the two recognized
    /// game-modifier keywords.
    GameModifier { line_number: usize, line: String },
    /// Legacy grammar: a line whose first character classifies as nothing.
    LineIdentifier { line_number: usize, line: String },
    /// An image block or image lines yielded not a single pixel.
    NoImageData,
    /// No secret string at all was found.
    NoSecretString,
    /// Structured grammar: the document would not deserialize; holds the
    /// deserializer's diagnostic verbatim.
    NotInYamlFormat { message: String },
    /// Structured grammar: no line `secrets:` (no spaces allowed before).
    YamlSecretsLineMissing,
}

/// The user-facing text of each configuration error, as `message` renders
/// it: literal multi-line prose meant for direct display, the offending
/// line cited by its one-based number, and the deserializer's diagnostic
/// appended verbatim.
pub open spec fn spec_message(e: ConfigParseError) -> Seq<char> {
    match e {
        ConfigParseError::GameModifier { line_number, line } => "Syntax error in line "@
            + spec_decimal(line_number as int) + ": `"@ + line@
            + "`\n\nThe game modifier must be one of the following:\n:traditional-rewarding\n:success-rewarding\n\nEdit config file and start again.\n"@,
        ConfigParseError::LineIdentifier { line_number, line } => "Syntax error in line "@
            + spec_decimal(line_number as int) + ": `"@ + line@
            + "`\n\nThe first character of every non-empty line has to be one of the following:\nany letter or digit (secret string),\n'#' (comment line),\n'-' (secret string),\n'|' (ASCII-Art image) or\n':' (game modifier).\n\nEdit config file and start again.\n"@,
        ConfigParseError::NoImageData => "No image data found."@,
        ConfigParseError::NoSecretString => "A config file must have a least one secret string, which is\na non-empty line starting with a letter, digit, '_' or '-'."@,
        ConfigParseError::NotInYamlFormat { message } => "Syntax error: Please follow the example below.\n(The custom image is optional, it's lines start with a space.):\n\t------------------------------\n\tsecrets: \n\t- guess me\n\t- \"guess me: with colon\"\n\t- line| break\n\t- _disclose _partly\n\n\timage: |1\n\t   :\n\t  |_|>\n\t------------------------------\n"@
            + message@,
        ConfigParseError::YamlSecretsLineMissing => "No line: `secrets:` found (no spaces allowed before)."@,
    }
}

impl ConfigParseError {
    /// The user-facing, multi-line message of the error, ready for direct
    /// display.
    pub fn message(&self) -> (r: String)
        ensures
            r@ == spec_message(*self),
    {
        match self {
            ConfigParseError::GameModifier { line_number, line } => {
                let digits = usize_decimal(*line_number);
                let digits_str = chars_to_string(&digits);
                let mut out = String::from_str("Syntax error in line ");
                out.append(digits_str.as_str());
                out.append(": `");
                out.append(line.as_str());
                out.append(
                    "`\n\nThe game modifier must be one of the following:\n:traditional-rewarding\n:success-rewarding\n\nEdit config file and start again.\n",
                );
                proof {
                    assert(out@ =~= spec_message(*self));
                }
                out
            },
            ConfigParseError::LineIdentifier { line_number, line } => {
                let digits = usize_decimal(*line_number);
                let digits_str = chars_to_string(&digits);
                let mut out = String::from_str("Syntax error in line ");
                out.append(digits_str.as_str());
                out.append(": `");
                out.append(line.as_str());
                out.append(
                    "`\n\nThe first character of every non-empty line has to be one of the following:\nany letter or digit (secret string),\n'#' (comment line),\n'-' (secret string),\n'|' (ASCII-Art image) or\n':' (game modifier).\n\nEdit config file and start again.\n",
                );
                proof {
                    assert(out@ =~= spec_message(*self));
                }
                out
            },
            ConfigParseError::NoImageData => String::from_str("No image data found."),
            ConfigParseError::NoSecretString => String::from_str(
                "A config file must have a least one secret string, which is\na non-empty line starting with a letter, digit, '_' or '-'.",
            ),
            ConfigParseError::NotInYamlFormat { message } => {
                let mut out = String::from_str(
                    "Syntax error: Please follow the example below.\n(The custom image is optional, it's lines start with a space.):\n\t------------------------------\n\tsecrets: \n\t- guess me\n\t- \"guess me: with colon\"\n\t- line| break\n\t- _disclose _partly\n\n\timage: |1\n\t   :\n\t  |_|>\n\t------------------------------\n",
                );
                out.append(message.as_str());
                proof {
                    assert(out@ =~= spec_message(*self));
                }
                out
            },
            ConfigParseError::YamlSecretsLineMissing => String::from_str(
                "No line: `secrets:` found (no spaces allowed before).",
            ),
        }
    }
}

/// The key line that selects the structured grammar.
pub open spec fn spec_secrets_key() -> Seq<char> {
    seq!['s', 'e', 'c', 'r', 'e', 't', 's', ':']
}

/// Whether some line of `ls`, its trailing white space removed, is exactly
/// the `secrets:` key line.
pub open spec fn spec_has_secrets_line(ls: Seq<Seq<char>>) -> bool {
    exists|i: int| 0 <= i < ls.len() && spec_trim_end(ls[i]) == spec_secrets_key()
}

/// Legacy grammar: lines the secret scan passes over — blank lines and
/// lines opened by the comment, control or image tag.
pub open spec fn spec_line_skipped(l: Seq<char>) -> bool {
    spec_trim(l).len() == 0 || (l.len() > 0 && (l[0] == CONF_LINE_IDENTIFIER__COMMENT || l[0]
        == CONF_LINE_IDENTIFIER__CONTROL || l[0] == CONF_LINE_IDENTIFIER__IMAGE))
}

/// Legacy grammar: a line that classifies as nothing — not skipped, not an
/// explicit secret, and its first non-blank character neither alphanumeric
/// nor the visibility marker.
pub open spec fn spec_line_bad(l: Seq<char>) -> bool {
    &&& !spec_line_skipped(l)
    &&& !(l.len() > 0 && l[0] == CONF_LINE_IDENTIFIER__WORD)
    &&& !(spec_is_alphanumeric(spec_trim(l)[0]) || spec_trim(l)[0]
        == CONF_LINE_SECRET_MODIFIER__VISIBLE)
}

/// Legacy grammar: the secret a line contributes — the trimmed line, its
/// leading `-` marker stripped first where present.
pub open spec fn spec_secret_of_line(l: Seq<char>) -> Seq<char> {
    if l.len() > 0 && l[0] == CONF_LINE_IDENTIFIER__WORD {
        spec_trim(l.drop_first())
    } else {
        spec_trim(l)
    }
}

/// Legacy grammar: the secrets of all lines that are neither skipped nor
/// bad, in source order.
pub open spec fn spec_legacy_secrets(ls: Seq<Seq<char>>) -> Seq<Seq<char>>
    decreases ls.len(),
{
    if ls.len() == 0 {
        Seq::empty()
    } else {
        spec_legacy_secrets(ls.drop_last()) + if spec_line_skipped(ls.last()) {
            Seq::<Seq<char>>::empty()
        } else {
            seq![spec_secret_of_line(ls.last())]
        }
    }
}

/// The error the legacy secret scan reports: the first bad line, cited with
/// its one-based number and its text.
pub open spec fn spec_line_identifier_error(ls: Seq<Seq<char>>, e: ConfigParseError) -> bool {
    match e {
        ConfigParseError::LineIdentifier { line_number, line } => {
            &&& 1 <= line_number <= ls.len()
            &&& spec_line_bad(ls[line_number - 1])
            &&& line@ == ls[line_number - 1]
            &&& forall|j: int| 0 <= j < line_number - 1 ==> !spec_line_bad(ls[j])
        },
        _ => false,
    }
}

/// What parsing a configuration text under the legacy line grammar yields
/// for the secret pool: the first bad line's error, or the error for an
/// empty pool, or the pool itself.
pub open spec fn spec_legacy_parse_result(
    ls: Seq<Seq<char>>,
    r: Result<Dict, ConfigParseError>,
) -> bool {
    match r {
        Ok(d) => (forall|j: int| 0 <= j < ls.len() ==> !spec_line_bad(ls[j]))
            && spec_legacy_secrets(ls).len() > 0 && d@ == spec_legacy_secrets(ls),
        Err(e) => match e {
            ConfigParseError::LineIdentifier { .. } => spec_line_identifier_error(ls, e),
            ConfigParseError::NoSecretString => (forall|j: int|
                0 <= j < ls.len() ==> !spec_line_bad(ls[j])) && spec_legacy_secrets(ls).len() == 0,
            _ => false,
        },
    }
}

/// What parsing a configuration text under the structured grammar yields
/// for the secret pool: the missing key line, or what the deserializer
/// answers, an empty list rejected.
pub open spec fn spec_structured_parse_result(
    t: Seq<char>,
    r: Result<Dict, ConfigParseError>,
) -> bool {
    if !spec_has_secrets_line(spec_split_lines(t)) {
        r matches Err(ConfigParseError::YamlSecretsLineMissing)
    } else {
        match yaml_secrets_of(t) {
            Ok(ss) => {
                if ss.len() == 0 {
                    r matches Err(ConfigParseError::NoSecretString)
                } else {
                    r matches Ok(d) && d@ == ss
                }
            },
            Err(m) => r matches Err(ConfigParseError::NotInYamlFormat { message }) && message@
                == m,
        }
    }
}

/// Whether configuration text yields a non-empty secret pool under the
/// two-grammar strategy: the structured grammar where its key line is
/// present, the legacy line grammar otherwise.
pub open spec fn spec_pool_ok(t: Seq<char>) -> bool {
    let stripped = spec_strip_bom(t);
    let ls = spec_split_lines(stripped);
    if spec_has_secrets_line(ls) {
        match yaml_secrets_of(stripped) {
            Ok(ss) => ss.len() > 0,
            Err(_) => false,
        }
    } else {
        (forall|j: int| 0 <= j < ls.len() ==> !spec_line_bad(ls[j])) && spec_legacy_secrets(
            ls,
        ).len() > 0
    }
}

/// The secret pool configuration text yields, meaningful where
/// `spec_pool_ok` holds.
pub open spec fn spec_pool_of(t: Seq<char>) -> Seq<Seq<char>> {
    let stripped = spec_strip_bom(t);
    let ls = spec_split_lines(stripped);
    if spec_has_secrets_line(ls) {
        match yaml_secrets_of(stripped) {
            Ok(ss) => ss,
            Err(_) => Seq::empty(),
        }
    } else {
        spec_legacy_secrets(ls)
    }
}

/// A dictionary holding all secret sentences, from among which one is chosen
/// randomly at the beginning of each round.
#[derive(Debug, PartialEq)]
pub struct Dict {
    pub secrets: Vec<String>,
}

impl View for Dict {
    type V = Seq<Seq<char>>;

    open spec fn view(&self) -> Seq<Seq<char>> {
        self.secrets.deep_view()
    }
}

impl Dict {
    /// Parses configuration text under the legacy line grammar: blank,
    /// comment, control and image lines are passed over, `-` lines and
    /// lines opening with an alphanumeric or the visibility marker are
    /// secrets, anything else is the first error; an empty pool is one too.
    pub fn new(lines: &str) -> (r: Result<Dict, ConfigParseError>)
        ensures
            spec_legacy_parse_result(
                spec_split_lines(spec_strip_bom(lines@)),
                r,
            ),
    {
        let cs0 = str_to_chars(lines);
        let cs = strip_bom(&cs0);
        let ls = split_lines(&cs);
        let ghost gls = spec_split_lines(spec_strip_bom(lines@));
        proof {
            assert(ls.deep_view() == gls);
        }
        let n = ls.len();
        let mut secrets: Vec<String> = Vec::new();
        let mut i: usize = 0;
        while i < n
            invariant
                i <= n,
                n == gls.len(),
                gls == spec_split_lines(spec_strip_bom(lines@)),
                ls.deep_view() == gls,
                ls@.len() == n,
                secrets.deep_view() == spec_legacy_secrets(gls.take(i as int)),
                forall|j: int| 0 <= j < i ==> !spec_line_bad(gls[j]),
            decreases n - i,
        {
            let l = &ls[i];
            proof {
                assert(l@ == gls[i as int]);
                assert(gls.take(i + 1 as int).drop_last() =~= gls.take(i as int));
                assert(gls.take(i + 1 as int).last() == gls[i as int]);
            }
            let (a, b) = trim_bounds(l);
            let skipped = a == b || (l.len() > 0 && (l[0] == CONF_LINE_IDENTIFIER__COMMENT || l[0]
                == CONF_LINE_IDENTIFIER__CONTROL || l[0] == CONF_LINE_IDENTIFIER__IMAGE));
            proof {
                assert(spec_trim(l@).len() == 0 <==> a == b);
                assert(skipped == spec_line_skipped(gls[i as int]));
            }
            if skipped {
                proof {
                    assert(secrets.deep_view() =~~= spec_legacy_secrets(gls.take(i + 1 as int)));
                }
            } else if l[0] == CONF_LINE_IDENTIFIER__WORD {
                let tail = vec_subrange(l, 1, l.len());
                proof {
                    assert(tail@ =~= l@.drop_first());
                }
                let (ta, tb) = trim_bounds(&tail);
                let word = vec_subrange(&tail, ta, tb);
                let s = chars_to_string(&word);
                let ghost old_secrets = secrets.deep_view();
                secrets.push(s);
                proof {
                    assert(s@ == spec_secret_of_line(gls[i as int]));
                    assert(secrets.deep_view() =~~= old_secrets + seq![s@]);
                    assert(secrets.deep_view() =~~= spec_legacy_secrets(gls.take(i + 1 as int)));
                }
            } else {
                let first = l[a];
                proof {
                    assert(first == spec_trim(l@)[0]);
                }
                if is_alphanumeric_char(first) || first == CONF_LINE_SECRET_MODIFIER__VISIBLE {
                    let word = vec_subrange(l, a, b);
                    let s = chars_to_string(&word);
                    let ghost old_secrets = secrets.deep_view();
                    secrets.push(s);
                    proof {
                        assert(s@ == spec_secret_of_line(gls[i as int]));
                        assert(secrets.deep_view() =~~= old_secrets + seq![s@]);
                        assert(secrets.deep_view() =~~= spec_legacy_secrets(
                            gls.take(i + 1 as int),
                        ));
                    }
                } else {
                    let text = chars_to_string(l);
                    proof {
                        assert(spec_trim(gls[i as int])[0] == first);
                        assert(spec_line_bad(gls[i as int]));
                    }
                    return Err(
                        ConfigParseError::LineIdentifier { line_number: i + 1, line: text },
                    );
                }
            }
            i += 1;
        }
        proof {
            assert(gls.take(n as int) =~= gls);
        }
        if secrets.is_empty() {
            return Err(ConfigParseError::NoSecretString);
        }
        Ok(Dict { secrets })
    }

    /// Whether some line of `ls`, its trailing white space removed, is the
    /// `secrets:` key line selecting the structured grammar.
    pub(crate) fn has_secrets_line(ls: &Vec<Vec<char>>) -> (r: bool)
        ensures
            r == spec_has_secrets_line(ls.deep_view()),
    {
        let n = ls.len();
        let mut i: usize = 0;
        while i < n
            invariant
                i <= n,
                n == ls@.len(),
                forall|j: int|
                    0 <= j < i ==> spec_trim_end(ls.deep_view()[j]) != spec_secrets_key(),
            decreases n - i,
        {
            let l = &ls[i];
            let b = trim_end_bound(l);
            let is_key = b == 8 && l[0] == 's' && l[1] == 'e' && l[2] == 'c' && l[3] == 'r' && l[4]
                == 'e' && l[5] == 't' && l[6] == 's' && l[7] == ':';
            proof {
                if is_key {
                    assert(spec_trim_end(l@) =~= spec_secrets_key());
                } else {
                    if spec_trim_end(l@) == spec_secrets_key() {
                        assert(l@.take(b as int).len() == 8);
                        assert(l@.take(b as int)[0] == l@[0]);
                        assert(l@.take(b as int)[1] == l@[1]);
                        assert(l@.take(b as int)[2] == l@[2]);
                        assert(l@.take(b as int)[3] == l@[3]);
                        assert(l@.take(b as int)[4] == l@[4]);
                        assert(l@.take(b as int)[5] == l@[5]);
                        assert(l@.take(b as int)[6] == l@[6]);
                        assert(l@.take(b as int)[7] == l@[7]);
                    }
                }
                assert(l@ == ls.deep_view()[i as int]);
            }
            if is_key {
                return true;
            }
            i += 1;
        }
        false
    }

    /// Parses configuration text under the structured grammar: the document
    /// must contain a line exactly `secrets:`; the deserializer then yields
    /// the secret list, which must not be empty.
    pub fn from(lines: &str) -> (r: Result<Dict, ConfigParseError>)
        ensures
            spec_structured_parse_result(spec_strip_bom(lines@), r),
    {
        let cs0 = str_to_chars(lines);
        let cs = strip_bom(&cs0);
        let ls = split_lines(&cs);
        if !Self::has_secrets_line(&ls) {
            return Err(ConfigParseError::YamlSecretsLineMissing);
        }
        let t = chars_to_string(&cs);
        match yaml_parse_secrets(t.as_str()) {
            Ok(v) => {
                if v.is_empty() {
                    Err(ConfigParseError::NoSecretString)
                } else {
                    Ok(Dict { secrets: v })
                }
            },
            Err(m) => Err(ConfigParseError::NotInYamlFormat { message: m }),
        }
    }

    /// Parses configuration text: the structured grammar where its key line
    /// is present, the legacy line grammar otherwise.
    pub fn parse(lines: &str) -> (r: Result<Dict, ConfigParseError>)
        ensures
            spec_has_secrets_line(spec_split_lines(spec_strip_bom(lines@)))
                ==> spec_structured_parse_result(spec_strip_bom(lines@), r),
            !spec_has_secrets_line(spec_split_lines(spec_strip_bom(lines@)))
                ==> spec_legacy_parse_result(spec_split_lines(spec_strip_bom(lines@)), r),
    {
        let cs0 = str_to_chars(lines);
        let cs = strip_bom(&cs0);
        let ls = split_lines(&cs);
        if Self::has_secrets_line(&ls) {
            Self::from(lines)
        } else {
            Self::new(lines)
        }
    }

    /// Chooses one secret at random, removes it from the pool and returns
    /// it; `None` on an empty pool.
    pub fn get_random_secret(&mut self) -> (r: Option<String>)
        ensures
            old(self)@.len() == 0 ==> r is None && *final(self) == *old(self),
            old(self)@.len() > 0 ==> (r matches Some(s) && exists|i: int|
                0 <= i < old(self)@.len() && s@ == old(self)@[i] && final(self)@ == old(
                    self,
                )@.update(i, old(self)@.last()).drop_last()),
    {
        let n = self.secrets.len();
        if n == 0 {
            return None;
        }
        let i = random_index(n);
        let s = self.secrets.swap_remove(i);
        proof {
            assert(final(self)@ =~~= old(self)@.update(i as int, old(self)@.last()).drop_last());
            assert(s@ == old(self)@[i as int]);
        }
        Some(s)
    }

    /// Whether the pool is drained.
    pub fn is_empty(&self) -> (r: bool)
        ensures
            r == (self@.len() == 0),
    {
        self.secrets.is_empty()
    }

    /// Puts a secret (back) into the pool.
    pub fn add(&mut self, secret: String)
        ensures
            final(self)@ == old(self)@.push(secret@),
    {
        let ghost old_view = self@;
        self.secrets.push(secret);
        proof {
            assert(self@ =~~= old_view.push(secret@));
        }
    }
}

} // verus!
