//! The secret phrase: parsing its visibility and line-break markup into
//! per-character units, processing guesses, and rendering the masked form.
use crate::dictionary::CONF_LINE_SECRET_MODIFIER__LINEBREAK;
use crate::dictionary::CONF_LINE_SECRET_MODIFIER__VISIBLE;
use crate::text::chars_match;
use crate::text::chars_to_string;
use crate::text::is_whitespace_char;
use crate::text::spec_chars_match;
use crate::text::spec_is_whitespace;
use crate::text::str_to_chars;
use vstd::prelude::*;

verus! {

/// The number of rendered characters after which the display looks for a
/// word boundary to break the line.
pub const LINE_WIDTH: usize = 20;

/// The classification of one character of the secret string.
#[derive(Clone, Copy, Debug, PartialEq, Eq)]
pub enum HangmanCharType {
    /// Shown as itself.
    Visible,
    /// Shown as a placeholder until guessed.
    Hidden,
    /// A markup character, never shown.
    Formatter,
    /// White space swallowed after a line-break marker, never shown.
    Ignored,
}

/// One character of the secret string.
#[derive(Clone, Copy, Debug, PartialEq, Eq)]
pub struct HangmanChar {
    pub character: char,
    pub chartype: HangmanCharType,
}

/// One step of the parsing scan. The state is (visibility toggled on,
/// white-space suppression on): the visibility marker flips the first
/// component, the line-break marker raises the second, and any character that
/// is not white space lowers it again.
pub open spec fn spec_step(st: (bool, bool), c: char) -> (bool, bool) {
    (
        st.0 ^ (c == CONF_LINE_SECRET_MODIFIER__VISIBLE),
        if c == CONF_LINE_SECRET_MODIFIER__LINEBREAK {
            true
        } else {
            st.1 && spec_is_whitespace(c)
        },
    )
}

/// The scan state after the first `i` characters of `s`.
pub open spec fn spec_state_at(s: Seq<char>, i: int) -> (bool, bool)
    decreases i,
{
    if i <= 0 {
        (false, false)
    } else {
        spec_step(spec_state_at(s, i - 1), s[i - 1])
    }
}

/// The classification of a character under the scan state that includes it:
/// markers are formatters, suppressed characters are ignored, and the rest is
/// visible or hidden by the visibility toggle.
pub open spec fn spec_classify(c: char, st: (bool, bool)) -> HangmanCharType {
    if c == CONF_LINE_SECRET_MODIFIER__VISIBLE || c == CONF_LINE_SECRET_MODIFIER__LINEBREAK {
        HangmanCharType::Formatter
    } else if st.1 {
        HangmanCharType::Ignored
    } else if st.0 {
        HangmanCharType::Visible
    } else {
        HangmanCharType::Hidden
    }
}

/// The parsed unit at position `i` of the raw secret `s`.
pub open spec fn spec_unit(s: Seq<char>, i: int) -> HangmanChar {
    HangmanChar { character: s[i], chartype: spec_classify(s[i], spec_state_at(s, i + 1)) }
}

/// The fully parsed secret: one unit per character of the raw text.
pub open spec fn spec_units(s: Seq<char>) -> Seq<HangmanChar> {
    Seq::new(s.len(), |i: int| spec_unit(s, i))
}

/// How many units of `m` are still hidden.
pub open spec fn count_hidden(m: Seq<HangmanChar>) -> nat
    decreases m.len(),
{
    if m.len() == 0 {
        0
    } else {
        count_hidden(m.drop_last()) + if m.last().chartype == HangmanCharType::Hidden {
            1nat
        } else {
            0nat
        }
    }
}

/// Unfolding `count_hidden` from the front instead of the back.
pub proof fn lemma_count_hidden_first(m: Seq<HangmanChar>)
    requires
        m.len() > 0,
    ensures
        count_hidden(m) == count_hidden(m.drop_first()) + if m[0].chartype
            == HangmanCharType::Hidden {
            1nat
        } else {
            0nat
        },
    decreases m.len(),
{
    if m.len() == 1 {
        assert(m.drop_first() =~= Seq::<HangmanChar>::empty());
        assert(m.drop_last() =~= Seq::<HangmanChar>::empty());
    } else {
        lemma_count_hidden_first(m.drop_last());
        assert(m.drop_last().drop_first() =~= m.drop_first().drop_last());
        assert(m.drop_first().last() == m.last());
        assert(m.drop_last()[0] == m[0]);
    }
}

/// Hiding nowhere that `a` does not hide keeps the hidden count no larger.
pub proof fn lemma_count_hidden_le(a: Seq<HangmanChar>, b: Seq<HangmanChar>)
    requires
        a.len() == b.len(),
        forall|i: int|
            0 <= i < b.len() ==> (b[i].chartype == HangmanCharType::Hidden ==> a[i].chartype
                == HangmanCharType::Hidden),
    ensures
        count_hidden(b) <= count_hidden(a),
    decreases a.len(),
{
    if a.len() > 0 {
        lemma_count_hidden_le(a.drop_last(), b.drop_last());
    }
}

pub proof fn lemma_count_hidden_zero(m: Seq<HangmanChar>)
    ensures
        (count_hidden(m) == 0) <==> (forall|i: int|
            0 <= i < m.len() ==> m[i].chartype != HangmanCharType::Hidden),
    decreases m.len(),
{
    if m.len() > 0 {
        lemma_count_hidden_zero(m.drop_last());
        if count_hidden(m) == 0 {
            assert forall|i: int| 0 <= i < m.len() implies m[i].chartype
                != HangmanCharType::Hidden by {
                if i < m.len() - 1 {
                    assert(m.drop_last()[i] == m[i]);
                }
            }
        } else {
            if m.last().chartype != HangmanCharType::Hidden {
                let j = choose|j: int|
                    0 <= j < m.drop_last().len() && m.drop_last()[j].chartype
                        == HangmanCharType::Hidden;
                assert(m[j].chartype == HangmanCharType::Hidden);
            }
        }
    }
}

/// The raw text of a unit sequence: the original characters in order.
pub open spec fn spec_raw(m: Seq<HangmanChar>) -> Seq<char> {
    m.map_values(|hc: HangmanChar| hc.character)
}

/// The effect of guessing `c` on one unit: a matching hidden unit becomes
/// visible, everything else is untouched. The match folds ASCII case.
pub open spec fn spec_guess_unit(hc: HangmanChar, c: char) -> HangmanChar {
    if hc.chartype == HangmanCharType::Hidden && spec_chars_match(hc.character, c) {
        HangmanChar { character: hc.character, chartype: HangmanCharType::Visible }
    } else {
        hc
    }
}

/// The effect of guessing `c` on the whole secret.
pub open spec fn spec_guess(m: Seq<HangmanChar>, c: char) -> Seq<HangmanChar> {
    m.map_values(|hc: HangmanChar| spec_guess_unit(hc, c))
}

/// Whether guessing `c` discloses at least one unit.
pub open spec fn spec_found(m: Seq<HangmanChar>, c: char) -> bool {
    exists|i: int|
        0 <= i < m.len() && m[i].chartype == HangmanCharType::Hidden && spec_chars_match(
            m[i].character,
            c,
        )
}

/// The effect of full disclosure on one unit.
pub open spec fn spec_disclose_unit(hc: HangmanChar) -> HangmanChar {
    if hc.chartype == HangmanCharType::Hidden {
        HangmanChar { character: hc.character, chartype: HangmanCharType::Visible }
    } else {
        hc
    }
}

/// The effect of full disclosure: every hidden unit becomes visible.
pub open spec fn spec_disclose(m: Seq<HangmanChar>) -> Seq<HangmanChar> {
    m.map_values(|hc: HangmanChar| spec_disclose_unit(hc))
}

/// The rendering of the units from position `i` on, given the pending-break
/// flag and the column counter (saturated at the line width, beyond which its
/// exact value no longer matters). A visible unit prints as a space and its
/// character, a hidden one as a space and an underscore; formatters and
/// ignored units print nothing. Once a break is pending — the counter reached
/// the line width, or a line-break formatter was seen — the break is
/// committed at the next space or at the line-break formatter itself, so
/// words are never split. A final newline closes the rendering.
pub open spec fn spec_render_from(m: Seq<HangmanChar>, i: int, brk: bool, n: int) -> Seq<char>
    decreases m.len() - i,
{
    if i < 0 || i >= m.len() {
        seq!['\n']
    } else {
        let hc = m[i];
        let brk1 = brk || n >= LINE_WIDTH || (hc.chartype == HangmanCharType::Formatter
            && hc.character == CONF_LINE_SECRET_MODIFIER__LINEBREAK);
        if brk1 && ((hc.chartype != HangmanCharType::Formatter && hc.character == ' ') || (
        hc.chartype == HangmanCharType::Formatter && hc.character
            == CONF_LINE_SECRET_MODIFIER__LINEBREAK)) {
            seq!['\n'] + spec_render_from(m, i + 1, false, 0)
        } else if hc.chartype == HangmanCharType::Visible {
            seq![' ', hc.character] + spec_render_from(
                m,
                i + 1,
                brk1,
                if n < LINE_WIDTH {
                    n + 1
                } else {
                    n
                },
            )
        } else if hc.chartype == HangmanCharType::Hidden {
            seq![' ', '_'] + spec_render_from(
                m,
                i + 1,
                brk1,
                if n < LINE_WIDTH {
                    n + 1
                } else {
                    n
                },
            )
        } else {
            spec_render_from(m, i + 1, brk1, n)
        }
    }
}

/// The full rendering of a secret's units.
pub open spec fn spec_render(m: Seq<HangmanChar>) -> Seq<char> {
    spec_render_from(m, 0, false, 1)
}

/// The secret phrase of one round, with the per-character visibility state
/// and the number of units that were hidden at construction.
#[derive(Debug, PartialEq)]
pub struct Secret {
    pub hangman_chars: Vec<HangmanChar>,
    pub chars_to_guess: usize,
}

impl View for Secret {
    type V = Seq<HangmanChar>;

    open spec fn view(&self) -> Seq<HangmanChar> {
        self.hangman_chars@
    }
}

fn mk_unit(character: char, chartype: HangmanCharType) -> (r: HangmanChar)
    ensures
        r == (HangmanChar { character, chartype }),
{
    HangmanChar { character, chartype }
}

impl Secret {
    /// Guesses only ever flip hidden units to visible, so the hidden count
    /// never exceeds the count taken at construction.
    pub open spec fn wf(&self) -> bool {
        count_hidden(self@) <= self.chars_to_guess
    }

    /// Parses a raw secret string into its per-character units.
    pub fn new(secretstr: &str) -> (r: Self)
        ensures
            r@ == spec_units(secretstr@),
            r.chars_to_guess == count_hidden(spec_units(secretstr@)),
            r.wf(),
    {
        let cs = str_to_chars(secretstr);
        let n = cs.len();
        let mut w: Vec<HangmanChar> = Vec::new();
        let mut visible_on = false;
        let mut whitespace_on = false;
        let mut i: usize = 0;
        while i < n
            invariant
                i <= n,
                n == cs@.len(),
                cs@ == secretstr@,
                (visible_on, whitespace_on) == spec_state_at(cs@, i as int),
                w@.len() == i,
                forall|j: int| 0 <= j < i ==> w@[j] == spec_unit(cs@, j),
            decreases n - i,
        {
            let c = cs[i];
            let ghost st0 = (visible_on, whitespace_on);
            if whitespace_on && !is_whitespace_char(c) {
                whitespace_on = false;
            }
            if c == CONF_LINE_SECRET_MODIFIER__LINEBREAK {
                whitespace_on = true;
            }
            visible_on = visible_on ^ (c == CONF_LINE_SECRET_MODIFIER__VISIBLE);
            proof {
                assert((visible_on, whitespace_on) == spec_step(st0, cs@[i as int]));
                assert(spec_state_at(cs@, i + 1 as int) == spec_step(
                    spec_state_at(cs@, i as int),
                    cs@[i as int],
                ));
            }
            let ct = if c == CONF_LINE_SECRET_MODIFIER__VISIBLE || c
                == CONF_LINE_SECRET_MODIFIER__LINEBREAK {
                HangmanCharType::Formatter
            } else if whitespace_on {
                HangmanCharType::Ignored
            } else if visible_on {
                HangmanCharType::Visible
            } else {
                HangmanCharType::Hidden
            };
            w.push(mk_unit(c, ct));
            i += 1;
        }
        proof {
            assert(w@ =~= spec_units(secretstr@));
        }
        let chars_to_guess = count_hidden_units(&w);
        Self { hangman_chars: w, chars_to_guess }
    }

    /// Processes a guess: flips every hidden unit that matches (folding ASCII
    /// case) to visible, and reports whether any did.
    pub fn guess(&mut self, character: char) -> (found: bool)
        requires
            old(self).wf(),
        ensures
            final(self)@ == spec_guess(old(self)@, character),
            final(self).chars_to_guess == old(self).chars_to_guess,
            found == spec_found(old(self)@, character),
            final(self).wf(),
    {
        let ghost m = self@;
        let mut found = false;
        let n = self.hangman_chars.len();
        let mut i: usize = 0;
        while i < n
            invariant
                i <= n,
                n == self@.len(),
                m.len() == n,
                self.chars_to_guess == old(self).chars_to_guess,
                forall|j: int| 0 <= j < i ==> self@[j] == spec_guess_unit(m[j], character),
                forall|j: int| i <= j < n ==> self@[j] == m[j],
                found == exists|j: int|
                    0 <= j < i && m[j].chartype == HangmanCharType::Hidden && spec_chars_match(
                        m[j].character,
                        character,
                    ),
            decreases n - i,
        {
            let hc = self.hangman_chars[i];
            let is_hidden = match hc.chartype {
                HangmanCharType::Hidden => true,
                _ => false,
            };
            if is_hidden && chars_match(hc.character, character) {
                self.hangman_chars[i] = mk_unit(hc.character, HangmanCharType::Visible);
                found = true;
            }
            i += 1;
        }
        proof {
            assert(self@ =~= spec_guess(m, character));
            assert(found == spec_found(m, character));
            lemma_count_hidden_le(m, self@);
        }
        found
    }

    /// Discloses every hidden unit; used when the round is lost.
    pub fn disclose_all(&mut self)
        requires
            old(self).wf(),
        ensures
            final(self)@ == spec_disclose(old(self)@),
            final(self).chars_to_guess == old(self).chars_to_guess,
            count_hidden(final(self)@) == 0,
            final(self).wf(),
    {
        let ghost m = self@;
        let n = self.hangman_chars.len();
        let mut i: usize = 0;
        while i < n
            invariant
                i <= n,
                n == self@.len(),
                m.len() == n,
                self.chars_to_guess == old(self).chars_to_guess,
                forall|j: int| 0 <= j < i ==> self@[j] == spec_disclose_unit(m[j]),
                forall|j: int| i <= j < n ==> self@[j] == m[j],
            decreases n - i,
        {
            let hc = self.hangman_chars[i];
            let is_hidden = match hc.chartype {
                HangmanCharType::Hidden => true,
                _ => false,
            };
            if is_hidden {
                self.hangman_chars[i] = mk_unit(hc.character, HangmanCharType::Visible);
            }
            i += 1;
        }
        proof {
            assert(self@ =~= spec_disclose(m));
            lemma_count_hidden_zero(self@);
            lemma_count_hidden_le(m, self@);
        }
    }

    /// Whether no hidden unit remains, i.e. the player has won the round.
    pub fn is_fully_disclosed(&self) -> (r: bool)
        ensures
            r == (count_hidden(self@) == 0),
    {
        let n = self.hangman_chars.len();
        let mut i: usize = 0;
        while i < n
            invariant
                i <= n,
                n == self@.len(),
                forall|j: int| 0 <= j < i ==> self@[j].chartype != HangmanCharType::Hidden,
            decreases n - i,
        {
            let is_hidden = match self.hangman_chars[i].chartype {
                HangmanCharType::Hidden => true,
                _ => false,
            };
            if is_hidden {
                proof {
                    lemma_count_hidden_zero(self@);
                }
                return false;
            }
            i += 1;
        }
        proof {
            lemma_count_hidden_zero(self@);
        }
        true
    }

    /// How many units are still hidden; drives the image disclosure.
    pub fn hidden_chars(&self) -> (r: usize)
        ensures
            r == count_hidden(self@),
    {
        count_hidden_units(&self.hangman_chars)
    }

    /// Reconstructs the raw secret string exactly, markup included, so a lost
    /// secret can be queued again.
    pub fn to_raw_string(&self) -> (r: String)
        ensures
            r@ == spec_raw(self@),
    {
        let n = self.hangman_chars.len();
        let mut cs: Vec<char> = Vec::new();
        let mut i: usize = 0;
        while i < n
            invariant
                i <= n,
                n == self@.len(),
                cs@.len() == i,
                forall|j: int| 0 <= j < i ==> cs@[j] == self@[j].character,
            decreases n - i,
        {
            cs.push(self.hangman_chars[i].character);
            i += 1;
        }
        proof {
            assert(cs@ =~= spec_raw(self@));
        }
        chars_to_string(&cs)
    }

    /// The masked display of the secret, per `spec_render`: one space and one
    /// glyph (or underscore placeholder) for every displayable unit, with
    /// soft line breaks at word boundaries.
    pub fn render(&self) -> (r: String)
        ensures
            r@ == spec_render(self@),
    {
        let n = self.hangman_chars.len();
        let mut out: Vec<char> = Vec::new();
        let mut linebreak = false;
        let mut col: usize = 1;
        let mut i: usize = 0;
        while i < n
            invariant
                i <= n,
                n == self@.len(),
                col <= LINE_WIDTH,
                spec_render(self@) == out@ + spec_render_from(
                    self@,
                    i as int,
                    linebreak,
                    col as int,
                ),
            decreases n - i,
        {
            let hc = self.hangman_chars[i];
            let ghost brk0 = linebreak;
            let ghost col0 = col as int;
            let is_formatter = match hc.chartype {
                HangmanCharType::Formatter => true,
                _ => false,
            };
            if col >= LINE_WIDTH {
                linebreak = true;
            }
            if is_formatter && hc.character == CONF_LINE_SECRET_MODIFIER__LINEBREAK {
                linebreak = true;
            }
            if linebreak && ((!is_formatter && hc.character == ' ') || (is_formatter
                && hc.character == CONF_LINE_SECRET_MODIFIER__LINEBREAK)) {
                linebreak = false;
                col = 0;
                out.push('\n');
                proof {
                    assert(out@ + spec_render_from(self@, i + 1, false, 0) =~= (out@.drop_last()
                        + (seq!['\n'] + spec_render_from(self@, i + 1, false, 0))));
                }
            } else {
                match hc.chartype {
                    HangmanCharType::Visible => {
                        out.push(' ');
                        out.push(hc.character);
                        if col < LINE_WIDTH {
                            col = col + 1;
                        }
                        proof {
                            assert(out@ + spec_render_from(self@, i + 1, linebreak, col as int)
                                =~= (out@.drop_last().drop_last() + (seq![' ', hc.character]
                                + spec_render_from(self@, i + 1, linebreak, col as int))));
                        }
                    },
                    HangmanCharType::Hidden => {
                        out.push(' ');
                        out.push('_');
                        if col < LINE_WIDTH {
                            col = col + 1;
                        }
                        proof {
                            assert(out@ + spec_render_from(self@, i + 1, linebreak, col as int)
                                =~= (out@.drop_last().drop_last() + (seq![' ', '_']
                                + spec_render_from(self@, i + 1, linebreak, col as int))));
                        }
                    },
                    HangmanCharType::Formatter => {},
                    HangmanCharType::Ignored => {},
                }
            }
            i += 1;
        }
        out.push('\n');
        proof {
            assert(out@ =~= spec_render(self@));
        }
        chars_to_string(&out)
    }
}

/// How many times `c` occurs in `s`.
pub open spec fn spec_count_char(s: Seq<char>, c: char) -> nat
    decreases s.len(),
{
    if s.len() == 0 {
        0
    } else {
        spec_count_char(s.drop_last(), c) + if s.last() == c {
            1nat
        } else {
            0nat
        }
    }
}

pub proof fn lemma_count_char_one(a: char, c: char)
    ensures
        spec_count_char(seq![a], c) == if a == c {
            1nat
        } else {
            0nat
        },
{
    assert(seq![a].drop_last() =~= Seq::<char>::empty());
    assert(spec_count_char(Seq::<char>::empty(), c) == 0);
    assert(seq![a].last() == a);
}

pub proof fn lemma_count_char_two(a: char, b: char, c: char)
    ensures
        spec_count_char(seq![a, b], c) == (if a == c {
            1nat
        } else {
            0nat
        }) + (if b == c {
            1nat
        } else {
            0nat
        }),
{
    lemma_count_char_one(a, c);
    assert(seq![a, b].drop_last() =~= seq![a]);
    assert(seq![a, b].last() == b);
}

pub proof fn lemma_count_char_concat(a: Seq<char>, b: Seq<char>, c: char)
    ensures
        spec_count_char(a + b, c) == spec_count_char(a, c) + spec_count_char(b, c),
    decreases b.len(),
{
    if b.len() == 0 {
        assert(a + b =~= a);
    } else {
        lemma_count_char_concat(a, b.drop_last(), c);
        assert((a + b).drop_last() =~= a + b.drop_last());
        assert((a + b).last() == b.last());
    }
}

/// Guessing is idempotent per character: after one guess of `c`, a second
/// guess of `c` can find nothing, because every hidden unit that matches `c`
/// was already flipped to visible.
pub proof fn lemma_guess_idempotent(m: Seq<HangmanChar>, c: char)
    ensures
        !spec_found(spec_guess(m, c), c),
{
    let g = spec_guess(m, c);
    assert forall|i: int| 0 <= i < g.len() implies !(g[i].chartype == HangmanCharType::Hidden
        && spec_chars_match(g[i].character, c)) by {
        assert(g[i] == spec_guess_unit(m[i], c));
    }
}

/// Parsing keeps every character: reconstructing the raw string from the
/// parsed units gives back the input exactly.
pub proof fn lemma_raw_round_trip(s: Seq<char>)
    ensures
        spec_raw(spec_units(s)) == s,
{
    assert(spec_raw(spec_units(s)) =~= s);
}

proof fn lemma_render_count(m: Seq<HangmanChar>, i: int, brk: bool, n: int)
    requires
        0 <= i <= m.len(),
        forall|j: int|
            0 <= j < m.len() ==> !(m[j].chartype == HangmanCharType::Hidden && m[j].character
                == ' '),
        forall|j: int|
            0 <= j < m.len() ==> !(m[j].chartype == HangmanCharType::Visible && m[j].character
                == '_'),
    ensures
        spec_count_char(spec_render_from(m, i, brk, n), '_') == count_hidden(m.skip(i)),
    decreases m.len() - i,
{
    if i >= m.len() {
        assert(m.skip(i) =~= Seq::<HangmanChar>::empty());
        lemma_count_char_one('\n', '_');
    } else {
        let suffix = m.skip(i);
        lemma_count_hidden_first(suffix);
        assert(suffix.drop_first() =~= m.skip(i + 1));
        assert(suffix[0] == m[i]);
        let hc = m[i];
        let brk1 = brk || n >= LINE_WIDTH || (hc.chartype == HangmanCharType::Formatter
            && hc.character == CONF_LINE_SECRET_MODIFIER__LINEBREAK);
        if brk1 && ((hc.chartype != HangmanCharType::Formatter && hc.character == ' ') || (
        hc.chartype == HangmanCharType::Formatter && hc.character
            == CONF_LINE_SECRET_MODIFIER__LINEBREAK)) {
            lemma_render_count(m, i + 1, false, 0);
            lemma_count_char_concat(seq!['\n'], spec_render_from(m, i + 1, false, 0), '_');
            lemma_count_char_one('\n', '_');
        } else if hc.chartype == HangmanCharType::Visible {
            let n1 = if n < LINE_WIDTH {
                n + 1
            } else {
                n
            };
            lemma_render_count(m, i + 1, brk1, n1);
            lemma_count_char_concat(
                seq![' ', hc.character],
                spec_render_from(m, i + 1, brk1, n1),
                '_',
            );
            lemma_count_char_two(' ', hc.character, '_');
        } else if hc.chartype == HangmanCharType::Hidden {
            let n1 = if n < LINE_WIDTH {
                n + 1
            } else {
                n
            };
            lemma_render_count(m, i + 1, brk1, n1);
            lemma_count_char_concat(seq![' ', '_'], spec_render_from(m, i + 1, brk1, n1), '_');
            lemma_count_char_two(' ', '_', '_');
        } else {
            lemma_render_count(m, i + 1, brk1, n);
        }
    }
}

/// Before any guess, the rendering of a freshly parsed secret shows exactly
/// one underscore placeholder per hidden unit. The one proviso: no hidden
/// unit may be a space, since a pending soft line break absorbs a space
/// without printing its placeholder.
pub proof fn lemma_render_placeholders(s: Seq<char>)
    requires
        forall|j: int|
            0 <= j < s.len() ==> !(#[trigger] spec_units(s)[j].chartype == HangmanCharType::Hidden
                && spec_units(s)[j].character == ' '),
    ensures
        spec_count_char(spec_render(spec_units(s)), '_') == count_hidden(spec_units(s)),
{
    let m = spec_units(s);
    assert forall|j: int| 0 <= j < m.len() implies !(m[j].chartype == HangmanCharType::Visible
        && m[j].character == '_') by {
        assert(m[j] == spec_unit(s, j));
    }
    lemma_render_count(m, 0, false, 1);
    assert(m.skip(0) =~= m);
}

/// After full disclosure no placeholder is left: the rendering of a fully
/// disclosed secret contains no underscore at all.
pub proof fn lemma_render_no_placeholders(s: Seq<char>)
    ensures
        spec_count_char(spec_render(spec_disclose(spec_units(s))), '_') == 0,
{
    let m = spec_units(s);
    let d = spec_disclose(m);
    assert forall|j: int| 0 <= j < d.len() implies !(d[j].chartype == HangmanCharType::Hidden
        && d[j].character == ' ') by {
        assert(d[j] == spec_disclose_unit(m[j]));
    }
    assert forall|j: int| 0 <= j < d.len() implies !(d[j].chartype == HangmanCharType::Visible
        && d[j].character == '_') by {
        assert(d[j] == spec_disclose_unit(m[j]));
        assert(m[j] == spec_unit(s, j));
    }
    lemma_render_count(d, 0, false, 1);
    assert(d.skip(0) =~= d);
    assert forall|j: int| 0 <= j < d.len() implies d[j].chartype != HangmanCharType::Hidden by {
        assert(d[j] == spec_disclose_unit(m[j]));
    }
    lemma_count_hidden_zero(d);
}

/// How many units of `v` are hidden, as an executable count.
fn count_hidden_units(v: &Vec<HangmanChar>) -> (r: usize)
    ensures
        r == count_hidden(v@),
{
    let n = v.len();
    let mut cnt: usize = 0;
    let mut i: usize = 0;
    while i < n
        invariant
            i <= n,
            n == v@.len(),
            cnt == count_hidden(v@.take(i as int)),
            cnt <= i,
        decreases n - i,
    {
        proof {
            assert(v@.take(i + 1 as int).drop_last() =~= v@.take(i as int));
            assert(v@.take(i + 1 as int).last() == v@[i as int]);
        }
        let is_hidden = match v[i].chartype {
            HangmanCharType::Hidden => true,
            _ => false,
        };
        if is_hidden {
            cnt += 1;
        }
        i += 1;
    }
    proof {
        assert(v@.take(n as int) =~= v@);
    }
    cnt
}

} // verus!
