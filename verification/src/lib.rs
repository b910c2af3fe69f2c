//! Core of a children's hangman game: a configuration parser for a list of
//! secret phrases and an optional ASCII-art image, a per-character guessing
//! state machine, and a progressive-disclosure image model that reveals the
//! picture as the game advances.
use vstd::prelude::*;

pub mod application;
pub mod ascii_art;
pub mod dictionary;
pub mod game;
pub mod image;
pub mod random;
pub mod yaml;
pub mod secret;
pub mod text;

verus! {

/// Number of wrong guesses allowed in one round.
pub const LIVES: u8 = 7;

/// The length of the longest line of a line sequence.
pub open spec fn spec_max_line_len(ls: Seq<Seq<char>>) -> int
    decreases ls.len(),
{
    if ls.len() == 0 {
        0
    } else if ls.last().len() >= spec_max_line_len(ls.drop_last()) {
        ls.last().len() as int
    } else {
        spec_max_line_len(ls.drop_last())
    }
}

/// The columns and lines of the smallest grid that can display the
/// multi-line string `s`.
pub fn dimensions(s: &str) -> (r: (usize, usize))
    ensures
        r.0 == spec_max_line_len(text::spec_split_lines(s@)),
        r.1 == text::spec_split_lines(s@).len(),
{
    let cs = text::str_to_chars(s);
    let ls = text::split_lines(&cs);
    let n = ls.len();
    let mut col: usize = 0;
    let mut i: usize = 0;
    while i < n
        invariant
            i <= n,
            n == ls@.len(),
            ls.deep_view() == text::spec_split_lines(s@),
            n == text::spec_split_lines(s@).len(),
            col == spec_max_line_len(text::spec_split_lines(s@).take(i as int)),
        decreases n - i,
    {
        proof {
            let gls = text::spec_split_lines(s@);
            assert(gls.take(i + 1 as int).drop_last() =~= gls.take(i as int));
            assert(gls.take(i + 1 as int).last() == gls[i as int]);
            assert(ls@[i as int]@ == gls[i as int]);
        }
        let c = ls[i].len();
        if c >= col {
            col = c;
        }
        i += 1;
    }
    proof {
        assert(text::spec_split_lines(s@).take(n as int) =~= text::spec_split_lines(s@));
    }
    (col, n)
}

} // verus!
