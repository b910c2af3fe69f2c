//! The ASCII-art image: parsing pixels from configuration text (structured
//! block or legacy `|` lines), ordering them for progressive disclosure —
//! sorted by distance from the origin for small images, shuffled for big
//! ones, artist signatures always last — and computing how many pixels are
//! visible at each stage of the game.
use crate::dictionary::CONF_LINE_IDENTIFIER__CONTROL;
use crate::dictionary::CONF_LINE_IDENTIFIER__IMAGE;
use crate::dictionary::ConfigParseError;
use crate::game::Game;
use crate::secret::count_hidden;
use crate::random::random_index;
use crate::text::chars_to_string;
use crate::text::spec_split_lines;
use crate::text::spec_strip_bom;
use crate::text::spec_trim;
use crate::text::split_lines;
use crate::text::str_to_chars;
use crate::text::strip_bom;
use crate::text::trim_bounds;
use crate::text::vec_subrange;
use crate::yaml::yaml_image_of;
use crate::yaml::yaml_parse_image;
use vstd::arithmetic::div_mod::lemma_div_is_ordered;
use vstd::arithmetic::div_mod::lemma_div_multiples_vanish;
use vstd::prelude::*;

verus! {

/// Threshold from which on an image counts as "big" and is disclosed in
/// shuffled rather than sorted order.
pub const BIG_IMAGE: usize = 60;

/// A game mode defining how the ASCII-art image is disclosed progressively.
#[derive(Clone, Copy, Debug, PartialEq, Eq)]
pub enum RewardingScheme {
    /// The image is disclosed piecemeal after each wrong guess; meant for a
    /// traditional gallows image supplied in the configuration file.
    UnhideWhenLostLife,
    /// Default: the image is disclosed piecemeal after each right guess.
    UnhideWhenGuessedChar,
}

/// One character of the ASCII-art image.
#[derive(Eq, PartialEq, Debug, Copy, Clone)]
pub struct ImChar {
    pub point: (u8, u8),
    pub code: char,
}

/// An ASCII-art image: pixels in disclosure order, the canvas size, how many
/// pixels are currently visible, and the disclosure scheme.
#[derive(Debug, PartialEq)]
pub struct Image {
    pub ichars: Vec<ImChar>,
    pub dimension: (u16, u16),
    pub visible_points: usize,
    pub rewarding_scheme: RewardingScheme,
}

fn mk_pixel(x: u8, y: u8, code: char) -> (r: ImChar)
    ensures
        r == (ImChar { point: (x, y), code }),
{
    ImChar { point: (x, y), code }
}

/// The squared distance of a pixel from the canvas origin (top left).
pub open spec fn spec_dist(p: ImChar) -> int {
    p.point.0 * p.point.0 + p.point.1 * p.point.1
}

/// The disclosure order of two pixels: ascending distance from the origin,
/// ties broken by column, then row.
pub open spec fn spec_pix_le(a: ImChar, b: ImChar) -> bool {
    ||| spec_dist(a) < spec_dist(b)
    ||| (spec_dist(a) == spec_dist(b) && (a.point.0 < b.point.0 || (a.point.0 == b.point.0
        && a.point.1 <= b.point.1)))
}

/// Whether `s` is in non-decreasing disclosure order.
pub open spec fn spec_sorted(s: Seq<ImChar>) -> bool {
    forall|i: int, j: int| 0 <= i < j < s.len() ==> spec_pix_le(s[i], s[j])
}

fn pix_le(a: &ImChar, b: &ImChar) -> (r: bool)
    ensures
        r == spec_pix_le(*a, *b),
{
    let xa = a.point.0 as u32;
    let ya = a.point.1 as u32;
    let xb = b.point.0 as u32;
    let yb = b.point.1 as u32;
    proof {
        assert(xa * xa <= 65025 && ya * ya <= 65025 && xb * xb <= 65025 && yb * yb <= 65025)
            by (nonlinear_arith)
            requires
                xa <= 255,
                ya <= 255,
                xb <= 255,
                yb <= 255,
        ;
    }
    let da = xa * xa + ya * ya;
    let db = xb * xb + yb * yb;
    da < db || (da == db && (a.point.0 < b.point.0 || (a.point.0 == b.point.0 && a.point.1
        <= b.point.1)))
}

/// The sorted disclosure order of `v`: same pixels, non-decreasing order.
fn sort_pixels(v: &Vec<ImChar>) -> (r: Vec<ImChar>)
    ensures
        r@.len() == v@.len(),
        r@.to_multiset() == v@.to_multiset(),
        spec_sorted(r@),
{
    let n = v.len();
    let mut r: Vec<ImChar> = Vec::new();
    proof {
        assert(v@.take(0) =~= Seq::<ImChar>::empty());
        assert(r@.to_multiset() =~= Seq::<ImChar>::empty().to_multiset());
    }
    let mut i: usize = 0;
    while i < n
        invariant
            i <= n,
            n == v@.len(),
            r@.len() == i,
            r@.to_multiset() == v@.take(i as int).to_multiset(),
            spec_sorted(r@),
        decreases n - i,
    {
        let x = v[i];
        let m = r.len();
        let mut k: usize = 0;
        while k < m && pix_le(&r[k], &x)
            invariant
                k <= m,
                m == r@.len(),
                forall|j: int| 0 <= j < k ==> spec_pix_le(r@[j], x),
            decreases m - k,
        {
            k += 1;
        }
        proof {
            if k < m {
                assert(!spec_pix_le(r@[k as int], x));
                assert(spec_pix_le(x, r@[k as int]));
            }
        }
        let ghost old_r = r@;
        r.insert(k, x);
        proof {
            assert(r@ == old_r.insert(k as int, x));
            vstd::seq_lib::to_multiset_insert(old_r, k as int, x);
            vstd::seq_lib::to_multiset_build(v@.take(i as int), v@[i as int]);
            assert(v@.take(i as int).push(v@[i as int]) =~= v@.take(i + 1 as int));
            assert forall|p: int, q: int| 0 <= p < q < r@.len() implies spec_pix_le(
                r@[p],
                r@[q],
            ) by {
                if q < k {
                    assert(r@[p] == old_r[p] && r@[q] == old_r[q]);
                } else if p < k && q == k {
                    assert(r@[p] == old_r[p]);
                } else if p < k && q > k {
                    assert(r@[p] == old_r[p] && r@[q] == old_r[q - 1]);
                } else if p == k {
                    assert(r@[q] == old_r[q - 1]);
                    assert(spec_pix_le(x, old_r[k as int]));
                    assert(spec_pix_le(old_r[k as int], old_r[q - 1]) || k as int == q - 1);
                } else {
                    assert(r@[p] == old_r[p - 1] && r@[q] == old_r[q - 1]);
                }
            }
        }
        i += 1;
    }
    proof {
        assert(v@.take(n as int) =~= v@);
    }
    r
}

/// Relies on rand's `SliceRandom::shuffle` with `thread_rng`: a permutation
/// of the pixels, in place. The order depends on the random source, so only
/// the contents are promised.
#[verifier::external_body]
fn shuffle_pixels(v: &mut Vec<ImChar>)
    ensures
        final(v)@.len() == old(v)@.len(),
        final(v)@.to_multiset() == old(v)@.to_multiset(),
{
    rand::seq::SliceRandom::shuffle(v.as_mut_slice(), &mut rand::thread_rng());
}

/// Whether the disclosure formula's arithmetic on an image of `l` pixels
/// and a denominator of `c` stays within the machine's integer range.
fn fits_budget(l: usize, c: usize) -> (r: bool)
    ensures
        r == (5 * (l as int) * (c as int) + (l as int) <= usize::MAX as int),
{
    if l == 0 {
        proof {
            assert(5 * (l as int) * (c as int) == 0) by (nonlinear_arith)
                requires
                    l == 0,
            ;
        }
        return true;
    }
    let lw = l as u128;
    let cw = c as u128;
    let max = usize::MAX as u128;
    let fl = 5u128 * lw;
    let q = (max - lw) / fl;
    let r = cw <= q;
    proof {
        let li = l as int;
        let ci = c as int;
        let t = usize::MAX as int - li;
        let fli = 5 * li;
        assert(q == t / fli);
        if fli * ci <= t {
            lemma_div_is_ordered(fli * ci, t, fli);
            lemma_div_multiples_vanish(ci, fli);
            assert(fli * ci / fli == ci);
        }
        if ci <= t / fli {
            assert(fli * ci <= fli * (t / fli)) by (nonlinear_arith)
                requires
                    ci <= t / fli,
                    fli >= 0,
            ;
            vstd::arithmetic::div_mod::lemma_fundamental_div_mod(t, fli);
            vstd::arithmetic::div_mod::lemma_remainder(t, fli);
            assert(fli * (t / fli) <= t);
        }
        assert(r == (fli * ci + li <= usize::MAX as int));
        assert(fli * ci == 5 * li * ci) by (nonlinear_arith)
            requires
                fli == 5 * li,
        ;
    }
    r
}

/// The number of pixels visible for a game-progress fraction of `n` parts
/// remaining out of `d`: one sixth of the image is always visible and the
/// remaining five sixths scale linearly with progress.
pub open spec fn spec_points(l: int, n: int, d: int) -> int {
    ((5 * l * (d - n)) / d + l) / 6
}

/// The visible-points formula stays within the image and meets its two
/// boundary values: everything visible when nothing remains, the one-sixth
/// floor when everything remains.
pub proof fn lemma_points_bounds(l: int, n: int, d: int)
    requires
        0 <= l,
        0 <= n <= d,
        0 < d,
    ensures
        0 <= spec_points(l, n, d) <= l,
        n == 0 ==> spec_points(l, n, d) == l,
        n == d ==> spec_points(l, n, d) == l / 6,
{
    assert(0 <= 5 * l * (d - n)) by (nonlinear_arith)
        requires
            0 <= l,
            n <= d,
    ;
    assert(5 * l * (d - n) <= (5 * l) * d) by (nonlinear_arith)
        requires
            0 <= l,
            0 <= n <= d,
    ;
    lemma_div_is_ordered(5 * l * (d - n), (5 * l) * d, d);
    assert((5 * l) * d == d * (5 * l)) by (nonlinear_arith);
    lemma_div_multiples_vanish(5 * l, d);
    assert((5 * l) * d / d == 5 * l);
    assert(5 * l * (d - n) / d + l <= 6 * l);
    lemma_div_is_ordered(5 * l * (d - n) / d + l, 6 * l, 6);
    lemma_div_multiples_vanish(l, 6);
    assert(spec_points(l, n, d) <= l);
    assert(0 <= 5 * l * (d - n) / d) by {
        vstd::arithmetic::div_mod::lemma_div_pos_is_pos(5 * l * (d - n), d);
    }
    if n == 0 {
        assert(5 * l * (d - 0) == (5 * l) * d);
        assert(spec_points(l, 0, d) == (5 * l + l) / 6);
        assert(5 * l + l == 6 * l);
    }
    if n == d {
        assert(5 * l * (d - n) == 0) by (nonlinear_arith)
            requires
                n == d,
        ;
        assert((0int) / d == 0) by {
            vstd::arithmetic::div_mod::lemma_basic_div(0, d);
        }
    }
}

/// Whether `pat` occurs in `l` at position `i`.
pub open spec fn spec_match_at(l: Seq<char>, pat: Seq<char>, i: int) -> bool {
    0 <= i && i + pat.len() <= l.len() && l.subrange(i, i + pat.len()) == pat
}

/// The first position at which `pat` occurs in `l`, or `-1` when it occurs
/// nowhere.
pub open spec fn spec_find_sub(l: Seq<char>, pat: Seq<char>) -> int
    decreases l.len(),
{
    if pat.len() == 0 {
        0
    } else if pat.len() > l.len() {
        -1
    } else if l.subrange(0, pat.len() as int) == pat {
        0
    } else {
        let r = spec_find_sub(l.drop_first(), pat);
        if r < 0 {
            -1
        } else {
            1 + r
        }
    }
}

pub proof fn lemma_find_sub(l: Seq<char>, pat: Seq<char>)
    ensures
        spec_find_sub(l, pat) >= 0 ==> spec_match_at(l, pat, spec_find_sub(l, pat)),
        forall|j: int| 0 <= j < spec_find_sub(l, pat) ==> !spec_match_at(l, pat, j),
        spec_find_sub(l, pat) < 0 ==> forall|j: int| !spec_match_at(l, pat, j),
    decreases l.len(),
{
    let m = pat.len() as int;
    if pat.len() == 0 {
        assert(l.subrange(0, 0) =~= pat);
        assert(spec_match_at(l, pat, 0));
    } else if pat.len() > l.len() {
        assert forall|j: int| !spec_match_at(l, pat, j) by {}
    } else if l.subrange(0, m) == pat {
    } else {
        lemma_find_sub(l.drop_first(), pat);
        assert forall|j: int| 1 <= j && j + m <= l.len() implies spec_match_at(l, pat, j)
            == spec_match_at(l.drop_first(), pat, j - 1) by {
            assert(l.subrange(j, j + m) =~= l.drop_first().subrange(j - 1, j - 1 + m));
        }
        let r = spec_find_sub(l.drop_first(), pat);
        if r < 0 {
            assert forall|j: int| !spec_match_at(l, pat, j) by {
                if 1 <= j && j + m <= l.len() {
                    assert(!spec_match_at(l.drop_first(), pat, j - 1));
                }
            }
        } else {
            assert(spec_match_at(l.drop_first(), pat, r));
            assert(l.subrange(r + 1, r + 1 + m) =~= l.drop_first().subrange(r, r + m));
            assert(spec_match_at(l, pat, r + 1));
            assert forall|j: int| 0 <= j < r + 1 implies !spec_match_at(l, pat, j) by {
                if 1 <= j {
                    assert(!spec_match_at(l.drop_first(), pat, j - 1));
                }
            }
        }
    }
}

/// `n` spaces.
pub open spec fn spec_spaces(n: int) -> Seq<char> {
    Seq::new(
        if n < 0 {
            0
        } else {
            n as nat
        },
        |i: int| ' ',
    )
}

/// `l` with every occurrence of `pat` blanked out by spaces of the same
/// length, scanning left to right, as std's `str::replace` does.
pub open spec fn spec_replace_spaces(l: Seq<char>, pat: Seq<char>) -> Seq<char>
    decreases l.len(),
{
    if pat.len() == 0 {
        l
    } else {
        let i = spec_find_sub(l, pat);
        if i < 0 || i + pat.len() > l.len() {
            l
        } else {
            l.take(i) + spec_spaces(pat.len() as int) + spec_replace_spaces(
                l.skip(i + pat.len()),
                pat,
            )
        }
    }
}

/// `l` with every catalogue token blanked out, applied in catalogue order.
pub open spec fn spec_clean_line(l: Seq<char>, toks: Seq<Seq<char>>) -> Seq<char>
    decreases toks.len(),
{
    if toks.len() == 0 {
        l
    } else {
        spec_clean_line(spec_replace_spaces(l, toks[0]), toks.drop_first())
    }
}

/// The signature remnant of a line: the characters the blanking removed, at
/// their original positions, spaces elsewhere.
pub open spec fn spec_sig_line(orig: Seq<char>, cleaned: Seq<char>) -> Seq<char> {
    Seq::new(
        orig.len(),
        |i: int|
            if 0 <= i < cleaned.len() && orig[i] == cleaned[i] {
                ' '
            } else {
                orig[i]
            },
    )
}

/// The first occurrence of `pat` in `l`, executable.
fn find_sub(l: &Vec<char>, pat: &Vec<char>) -> (r: Option<usize>)
    requires
        pat@.len() >= 1,
    ensures
        match r {
            Some(i) => spec_find_sub(l@, pat@) == i,
            None => spec_find_sub(l@, pat@) < 0,
        },
{
    proof {
        lemma_find_sub(l@, pat@);
    }
    let n = l.len();
    let m = pat.len();
    if m > n {
        return None;
    }
    let mut i: usize = 0;
    while i <= n - m
        invariant
            1 <= m <= n,
            n == l@.len(),
            m == pat@.len(),
            i <= n - m + 1,
            forall|j: int| 0 <= j < i ==> !spec_match_at(l@, pat@, j),
        decreases n - m + 1 - i,
    {
        let seg = vec_subrange(l, i, i + m);
        if chars_eq(&seg, pat) {
            proof {
                assert(spec_match_at(l@, pat@, i as int));
                lemma_find_sub(l@, pat@);
                let r = spec_find_sub(l@, pat@);
                if r < 0 {
                    assert(!spec_match_at(l@, pat@, i as int));
                } else if r < i {
                    assert(!spec_match_at(l@, pat@, r));
                }
            }
            return Some(i);
        }
        i += 1;
    }
    proof {
        let r = spec_find_sub(l@, pat@);
        if r >= 0 {
            assert(spec_match_at(l@, pat@, r));
            assert(r + m <= n);
            assert(!spec_match_at(l@, pat@, r));
        }
    }
    None
}

/// `l` with every occurrence of `pat` blanked out by spaces, executable.
fn replace_spaces(l: &Vec<char>, pat: &Vec<char>) -> (r: Vec<char>)
    requires
        pat@.len() >= 1,
    ensures
        r@ == spec_replace_spaces(l@, pat@),
{
    let m = pat.len();
    let mut out: Vec<char> = Vec::new();
    let mut cur: Vec<char> = vec_subrange(l, 0, l.len());
    proof {
        assert(cur@ =~= l@);
        assert(out@ + spec_replace_spaces(cur@, pat@) =~= spec_replace_spaces(l@, pat@));
    }
    loop
        invariant
            m == pat@.len(),
            m >= 1,
            spec_replace_spaces(l@, pat@) == out@ + spec_replace_spaces(cur@, pat@),
        decreases cur@.len(),
    {
        match find_sub(&cur, pat) {
            Some(i) => {
                proof {
                    lemma_find_sub(cur@, pat@);
                    assert(spec_match_at(cur@, pat@, i as int));
                    assert(i + m <= cur@.len());
                }
                let mut prefix = vec_subrange(&cur, 0, i);
                let ghost out0 = out@;
                out.append(&mut prefix);
                let mut k: usize = 0;
                while k < m
                    invariant
                        k <= m,
                        i + m <= cur@.len(),
                        out@ == out0 + cur@.take(i as int) + spec_spaces(k as int),
                    decreases m - k,
                {
                    out.push(' ');
                    proof {
                        assert(out@ =~= out0 + cur@.take(i as int) + spec_spaces(k + 1 as int));
                    }
                    k += 1;
                }
                let cur_len = cur.len();
                proof {
                    assert(i + m <= cur_len);
                }
                let split = i + m;
                let rest = vec_subrange(&cur, split, cur_len);
                proof {
                    assert(rest@ =~= cur@.skip(i + m));
                    assert(spec_replace_spaces(cur@, pat@) == cur@.take(i as int) + spec_spaces(
                        m as int,
                    ) + spec_replace_spaces(cur@.skip(i + m), pat@));
                    assert(out@ + spec_replace_spaces(rest@, pat@) =~= (out0 + (cur@.take(i as int)
                        + spec_spaces(m as int) + spec_replace_spaces(cur@.skip(i + m), pat@))));
                }
                cur = rest;
            },
            None => {
                let mut tail = cur;
                let ghost tailv = tail@;
                out.append(&mut tail);
                proof {
                    assert(spec_replace_spaces(tailv, pat@) == tailv);
                }
                return out;
            },
        }
    }
}

/// `l` with every catalogue token blanked out, executable.
fn clean_line(l: &Vec<char>, toks: &Vec<Vec<char>>) -> (r: Vec<char>)
    requires
        forall|i: int|
            0 <= i < toks.deep_view().len() ==> (#[trigger] toks.deep_view()[i]).len() >= 1,
    ensures
        r@ == spec_clean_line(l@, toks.deep_view()),
{
    let n = toks.len();
    let mut cur: Vec<char> = vec_subrange(l, 0, l.len());
    proof {
        assert(cur@ =~= l@);
        assert(toks.deep_view().skip(0) =~= toks.deep_view());
    }
    let mut i: usize = 0;
    while i < n
        invariant
            i <= n,
            n == toks@.len(),
            n == toks.deep_view().len(),
            forall|j: int|
                0 <= j < toks.deep_view().len() ==> (#[trigger] toks.deep_view()[j]).len() >= 1,
            spec_clean_line(l@, toks.deep_view()) == spec_clean_line(
                cur@,
                toks.deep_view().skip(i as int),
            ),
        decreases n - i,
    {
        proof {
            let ts = toks.deep_view().skip(i as int);
            assert(ts[0] == toks.deep_view()[i as int]);
            assert(ts.drop_first() =~= toks.deep_view().skip(i + 1 as int));
            assert(toks@[i as int]@ == toks.deep_view()[i as int]);
        }
        let next = replace_spaces(&cur, &toks[i]);
        cur = next;
        i += 1;
    }
    proof {
        assert(toks.deep_view().skip(n as int) =~= Seq::<Seq<char>>::empty());
    }
    cur
}

/// The signature remnant of a line, executable.
fn sig_line(orig: &Vec<char>, cleaned: &Vec<char>) -> (r: Vec<char>)
    ensures
        r@ == spec_sig_line(orig@, cleaned@),
{
    let n = orig.len();
    let mut out: Vec<char> = Vec::new();
    let mut i: usize = 0;
    while i < n
        invariant
            i <= n,
            n == orig@.len(),
            out@.len() == i,
            forall|j: int| 0 <= j < i ==> out@[j] == spec_sig_line(orig@, cleaned@)[j],
        decreases n - i,
    {
        let c = if i < cleaned.len() && orig[i] == cleaned[i] {
            ' '
        } else {
            orig[i]
        };
        out.push(c);
        i += 1;
    }
    proof {
        assert(out@ =~= spec_sig_line(orig@, cleaned@));
    }
    out
}

/// The configuration keyword selecting the traditional disclosure scheme.
pub open spec fn spec_traditional_kw() -> Seq<char> {
    seq![
        't',
        'r',
        'a',
        'd',
        'i',
        't',
        'i',
        'o',
        'n',
        'a',
        'l',
        '-',
        'r',
        'e',
        'w',
        'a',
        'r',
        'd',
        'i',
        'n',
        'g',
    ]
}

/// The configuration keyword selecting the success disclosure scheme.
pub open spec fn spec_success_kw() -> Seq<char> {
    seq!['s', 'u', 'c', 'c', 'e', 's', 's', '-', 'r', 'e', 'w', 'a', 'r', 'd', 'i', 'n', 'g']
}

/// Whether a line is a game-modifier line (opens with the control tag).
pub open spec fn spec_is_control(l: Seq<char>) -> bool {
    l.len() > 0 && l[0] == CONF_LINE_IDENTIFIER__CONTROL
}

/// Whether a game-modifier line carries neither recognized keyword.
pub open spec fn spec_directive_bad(l: Seq<char>) -> bool {
    spec_is_control(l) && spec_trim(l.drop_first()) != spec_traditional_kw() && spec_trim(
        l.drop_first(),
    ) != spec_success_kw()
}

/// The disclosure scheme the game-modifier lines of `ls` select: the last
/// recognized keyword wins, the default is success-rewarding.
pub open spec fn spec_scheme_of_lines(ls: Seq<Seq<char>>) -> RewardingScheme
    decreases ls.len(),
{
    if ls.len() == 0 {
        RewardingScheme::UnhideWhenGuessedChar
    } else {
        let l = ls.last();
        if spec_is_control(l) && spec_trim(l.drop_first()) == spec_traditional_kw() {
            RewardingScheme::UnhideWhenLostLife
        } else if spec_is_control(l) && spec_trim(l.drop_first()) == spec_success_kw() {
            RewardingScheme::UnhideWhenGuessedChar
        } else {
            spec_scheme_of_lines(ls.drop_last())
        }
    }
}

/// The error the legacy image scan reports: the first unrecognized
/// game-modifier line, cited with its one-based number and its text.
pub open spec fn spec_game_modifier_error(ls: Seq<Seq<char>>, e: ConfigParseError) -> bool {
    match e {
        ConfigParseError::GameModifier { line_number, line } => {
            &&& 1 <= line_number <= ls.len()
            &&& spec_directive_bad(ls[line_number - 1])
            &&& line@ == ls[line_number - 1]
            &&& forall|j: int| 0 <= j < line_number - 1 ==> !spec_directive_bad(ls[j])
        },
        _ => false,
    }
}

/// A pixel coordinate stored in a byte, as the scan truncates it.
pub open spec fn spec_u8_wrap(x: int) -> u8 {
    (x % 256) as u8
}

/// The pixels one content line contributes at row `y`: one per non-space
/// character, at its column.
pub open spec fn spec_line_pixels(l: Seq<char>, y: int) -> Seq<ImChar>
    decreases l.len(),
{
    if l.len() == 0 {
        Seq::empty()
    } else {
        spec_line_pixels(l.drop_last(), y) + if l.last() == ' ' {
            Seq::<ImChar>::empty()
        } else {
            seq![ImChar { point: (spec_u8_wrap(l.len() - 1), spec_u8_wrap(y)), code: l.last() }]
        }
    }
}

/// The pixels of a sequence of content lines, rows numbered from zero.
pub open spec fn spec_lines_pixels(ls: Seq<Seq<char>>) -> Seq<ImChar>
    decreases ls.len(),
{
    if ls.len() == 0 {
        Seq::empty()
    } else {
        spec_lines_pixels(ls.drop_last()) + spec_line_pixels(ls.last(), ls.len() - 1)
    }
}

/// The content lines of the legacy image: the lines opening with the image
/// tag, the tag stripped.
pub open spec fn spec_image_lines(ls: Seq<Seq<char>>) -> Seq<Seq<char>>
    decreases ls.len(),
{
    if ls.len() == 0 {
        Seq::empty()
    } else {
        spec_image_lines(ls.drop_last()) + if ls.last().len() > 0 && ls.last()[0]
            == CONF_LINE_IDENTIFIER__IMAGE {
            seq![ls.last().drop_first()]
        } else {
            Seq::<Seq<char>>::empty()
        }
    }
}

/// The pixels of a configuration text under the legacy image grammar.
pub open spec fn spec_proprietary_pixels(ls: Seq<Seq<char>>) -> Seq<ImChar> {
    spec_lines_pixels(spec_image_lines(ls))
}

/// The canvas of a pixel list: one more than the largest column and row, or
/// empty for no pixels at all.
pub open spec fn spec_max_x(px: Seq<ImChar>) -> int
    decreases px.len(),
{
    if px.len() == 0 {
        -1
    } else if px.last().point.0 >= spec_max_x(px.drop_last()) {
        px.last().point.0 as int
    } else {
        spec_max_x(px.drop_last())
    }
}

pub open spec fn spec_max_y(px: Seq<ImChar>) -> int
    decreases px.len(),
{
    if px.len() == 0 {
        -1
    } else if px.last().point.1 >= spec_max_y(px.drop_last()) {
        px.last().point.1 as int
    } else {
        spec_max_y(px.drop_last())
    }
}

pub open spec fn spec_pix_dims(px: Seq<ImChar>) -> (u16, u16) {
    if px.len() == 0 {
        (0u16, 0u16)
    } else {
        ((spec_max_x(px) + 1) as u16, (spec_max_y(px) + 1) as u16)
    }
}

proof fn lemma_max_bounds(px: Seq<ImChar>)
    ensures
        -1 <= spec_max_x(px) <= 255,
        -1 <= spec_max_y(px) <= 255,
        forall|i: int|
            0 <= i < px.len() ==> (#[trigger] px[i]).point.0 <= spec_max_x(px) && px[i].point.1
                <= spec_max_y(px),
    decreases px.len(),
{
    if px.len() > 0 {
        lemma_max_bounds(px.drop_last());
        assert forall|i: int| 0 <= i < px.len() implies (#[trigger] px[i]).point.0 <= spec_max_x(
            px,
        ) && px[i].point.1 <= spec_max_y(px) by {
            if i < px.len() - 1 {
                assert(px.drop_last()[i] == px[i]);
            }
        }
    }
}

/// What an image built from the pixel list `px` under scheme `sch` holds:
/// the same pixels, sorted for a small image, fully visible, on the canvas
/// the pixels span.
pub open spec fn spec_image_from_pixels(im: Image, px: Seq<ImChar>, sch: RewardingScheme) -> bool {
    &&& im.ichars@.len() == px.len()
    &&& im.ichars@.to_multiset() == px.to_multiset()
    &&& (px.len() <= BIG_IMAGE ==> spec_sorted(im.ichars@))
    &&& im.dimension == spec_pix_dims(px)
    &&& im.visible_points == px.len()
    &&& im.rewarding_scheme == sch
    &&& im.wf()
}

/// What parsing a configuration text under the legacy image grammar yields:
/// the first unrecognized game-modifier error, or the error for an image of
/// no pixels, or the image itself.
pub open spec fn spec_proprietary_result(t: Seq<char>, r: Result<Image, ConfigParseError>) -> bool {
    let ls = spec_split_lines(t);
    let px = spec_proprietary_pixels(ls);
    match r {
        Ok(im) => (forall|j: int| 0 <= j < ls.len() ==> !spec_directive_bad(ls[j])) && px.len() > 0
            && spec_image_from_pixels(im, px, spec_scheme_of_lines(ls)),
        Err(e) => match e {
            ConfigParseError::GameModifier { .. } => spec_game_modifier_error(ls, e),
            ConfigParseError::NoImageData => (forall|j: int|
                0 <= j < ls.len() ==> !spec_directive_bad(ls[j])) && px.len() == 0,
            _ => false,
        },
    }
}

/// Compares `v` against the keyword characters of `pat`.
fn chars_eq(v: &Vec<char>, pat: &Vec<char>) -> (r: bool)
    ensures
        r == (v@ == pat@),
{
    if v.len() != pat.len() {
        proof {
            assert(v@ != pat@);
        }
        return false;
    }
    let n = v.len();
    let mut i: usize = 0;
    while i < n
        invariant
            i <= n,
            n == v@.len() == pat@.len(),
            forall|j: int| 0 <= j < i ==> v@[j] == pat@[j],
        decreases n - i,
    {
        if v[i] != pat[i] {
            return false;
        }
        i += 1;
    }
    proof {
        assert(v@ =~= pat@);
    }
    true
}

/// The trimmed text after a line's first character, for directive matching.
fn directive_text(l: &Vec<char>) -> (r: Vec<char>)
    requires
        l@.len() > 0,
    ensures
        r@ == spec_trim(l@.drop_first()),
{
    let tail = vec_subrange(l, 1, l.len());
    proof {
        assert(tail@ =~= l@.drop_first());
    }
    let (a, b) = trim_bounds(&tail);
    vec_subrange(&tail, a, b)
}

/// The pixels of one content line at row `y`, appended to `out`.
fn push_line_pixels(l: &Vec<char>, y: usize, out: &mut Vec<ImChar>)
    ensures
        final(out)@ == old(out)@ + spec_line_pixels(l@, y as int),
{
    let n = l.len();
    let mut x: usize = 0;
    proof {
        assert(old(out)@ + spec_line_pixels(l@.take(0), y as int) =~= old(out)@);
    }
    while x < n
        invariant
            x <= n,
            n == l@.len(),
            out@ == old(out)@ + spec_line_pixels(l@.take(x as int), y as int),
        decreases n - x,
    {
        proof {
            assert(l@.take(x + 1 as int).drop_last() =~= l@.take(x as int));
            assert(l@.take(x + 1 as int).last() == l@[x as int]);
        }
        let c = l[x];
        if c != ' ' {
            let px = (x % 256) as u8;
            let py = (y % 256) as u8;
            proof {
                assert(px == spec_u8_wrap(x as int));
                assert(py == spec_u8_wrap(y as int));
            }
            let ghost prev = out@;
            out.push(mk_pixel(px, py, c));
            proof {
                assert(out@ =~= prev + seq![
                    ImChar {
                        point: (spec_u8_wrap(x as int), spec_u8_wrap(y as int)),
                        code: l@[x as int],
                    },
                ]);
                assert(out@ =~= old(out)@ + spec_line_pixels(l@.take(x + 1 as int), y as int));
            }
        } else {
            proof {
                assert(spec_line_pixels(l@.take(x + 1 as int), y as int) =~= spec_line_pixels(
                    l@.take(x as int),
                    y as int,
                ));
            }
        }
        x += 1;
    }
    proof {
        assert(l@.take(n as int) =~= l@);
    }
}

/// The canvas spanned by `px`, with the facts `wf` needs.
fn pix_dims(px: &Vec<ImChar>) -> (r: (u16, u16))
    ensures
        r == spec_pix_dims(px@),
        r.0 <= 256 && r.1 <= 256,
        forall|i: int|
            0 <= i < px@.len() ==> ((#[trigger] px@[i]).point.0 < r.0 && px@[i].point.1 < r.1),
    decreases px@.len(),
{
    proof {
        lemma_max_bounds(px@);
    }
    if px.len() == 0 {
        return (0, 0);
    }
    let n = px.len();
    let mut mx: u8 = 0;
    let mut my: u8 = 0;
    let mut i: usize = 0;
    proof {
        assert(spec_max_x(px@.take(0)) == -1 && spec_max_y(px@.take(0)) == -1);
    }
    while i < n
        invariant
            i <= n,
            n == px@.len(),
            i == 0 ==> mx == 0 && my == 0,
            i > 0 ==> mx as int == spec_max_x(px@.take(i as int)),
            i > 0 ==> my as int == spec_max_y(px@.take(i as int)),
        decreases n - i,
    {
        proof {
            assert(px@.take(i + 1 as int).drop_last() =~= px@.take(i as int));
            assert(px@.take(i + 1 as int).last() == px@[i as int]);
            lemma_max_bounds(px@.take(i as int));
        }
        let p = px[i];
        if i == 0 || p.point.0 >= mx {
            mx = p.point.0;
        }
        if i == 0 || p.point.1 >= my {
            my = p.point.1;
        }
        i += 1;
    }
    proof {
        assert(px@.take(n as int) =~= px@);
    }
    ((mx as u16) + 1, (my as u16) + 1)
}

/// A copy of a pixel vector.
fn vec_copy(v: &Vec<ImChar>) -> (r: Vec<ImChar>)
    ensures
        r@ == v@,
{
    let n = v.len();
    let mut r: Vec<ImChar> = Vec::new();
    let mut i: usize = 0;
    while i < n
        invariant
            i <= n,
            n == v@.len(),
            r@ == v@.take(i as int),
        decreases n - i,
    {
        r.push(v[i]);
        proof {
            assert(r@ =~= v@.take(i + 1 as int));
        }
        i += 1;
    }
    proof {
        assert(v@.take(n as int) =~= v@);
    }
    r
}

/// Pixels drawn from the same multiset stay on the same canvas.
proof fn lemma_pixels_within(a: Seq<ImChar>, b: Seq<ImChar>, w: int, h: int)
    requires
        a.to_multiset() == b.to_multiset(),
        forall|j: int| 0 <= j < b.len() ==> ((#[trigger] b[j]).point.0 < w && b[j].point.1 < h),
    ensures
        forall|i: int| 0 <= i < a.len() ==> ((#[trigger] a[i]).point.0 < w && a[i].point.1 < h),
{
    broadcast use vstd::seq_lib::group_to_multiset_ensures;

    assert forall|i: int| 0 <= i < a.len() implies ((#[trigger] a[i]).point.0 < w && a[i].point.1
        < h) by {
        assert(a.contains(a[i]));
        assert(a.to_multiset().count(a[i]) > 0);
        assert(b.to_multiset().count(a[i]) > 0);
        assert(b.contains(a[i]));
        let j = choose|j: int| 0 <= j < b.len() && b[j] == a[i];
        assert(b[j].point.0 < w && b[j].point.1 < h);
    }
}

impl Image {
    /// Orders `px` for disclosure — sorted for a small image, shuffled for a
    /// big one — and builds the fully visible image on the spanned canvas.
    fn from_pixels(px: Vec<ImChar>, rewarding_scheme: RewardingScheme) -> (r: Image)
        ensures
            spec_image_from_pixels(r, px@, rewarding_scheme),
    {
        let ghost orig = px@;
        let dimension = pix_dims(&px);
        let v_len = px.len();
        if v_len <= BIG_IMAGE {
            let ichars = sort_pixels(&px);
            proof {
                lemma_pixels_within(ichars@, orig, dimension.0 as int, dimension.1 as int);
            }
            Image { ichars, dimension, visible_points: v_len, rewarding_scheme }
        } else {
            let mut shuffled = px;
            shuffle_pixels(&mut shuffled);
            proof {
                lemma_pixels_within(shuffled@, orig, dimension.0 as int, dimension.1 as int);
            }
            Image { ichars: shuffled, dimension, visible_points: v_len, rewarding_scheme }
        }
    }

    /// Parses image data in the legacy grammar: game-modifier lines select
    /// the disclosure scheme (an unrecognized one is the error), lines
    /// opening with the image tag contribute their non-space characters as
    /// pixels, and an image of no pixels at all is an error.
    pub fn from_proprietary(string: &str) -> (r: Result<Image, ConfigParseError>)
        ensures
            spec_proprietary_result(string@, r),
    {
        let cs = str_to_chars(string);
        let ls = split_lines(&cs);
        let ghost gls = spec_split_lines(string@);
        proof {
            assert(ls.deep_view() == gls);
        }
        let n = ls.len();
        let mut rewarding_scheme = RewardingScheme::UnhideWhenGuessedChar;
        let trad_kw = str_to_chars("traditional-rewarding");
        let succ_kw = str_to_chars("success-rewarding");
        proof {
            reveal_strlit("traditional-rewarding");
            reveal_strlit("success-rewarding");
            assert(trad_kw@ =~= spec_traditional_kw());
            assert(succ_kw@ =~= spec_success_kw());
        }
        let mut i: usize = 0;
        while i < n
            invariant
                i <= n,
                n == gls.len(),
                gls == spec_split_lines(string@),
                ls.deep_view() == gls,
                ls@.len() == n,
                trad_kw@ == spec_traditional_kw(),
                succ_kw@ == spec_success_kw(),
                rewarding_scheme == spec_scheme_of_lines(gls.take(i as int)),
                forall|j: int| 0 <= j < i ==> !spec_directive_bad(gls[j]),
            decreases n - i,
        {
            let l = &ls[i];
            proof {
                assert(l@ == gls[i as int]);
                assert(gls.take(i + 1 as int).drop_last() =~= gls.take(i as int));
                assert(gls.take(i + 1 as int).last() == gls[i as int]);
            }
            if l.len() > 0 && l[0] == CONF_LINE_IDENTIFIER__CONTROL {
                let text = directive_text(l);
                if chars_eq(&text, &trad_kw) {
                    rewarding_scheme = RewardingScheme::UnhideWhenLostLife;
                } else if chars_eq(&text, &succ_kw) {
                    rewarding_scheme = RewardingScheme::UnhideWhenGuessedChar;
                } else {
                    let line = crate::text::chars_to_string(l);
                    return Err(
                        ConfigParseError::GameModifier { line_number: i + 1, line },
                    );
                }
            }
            i += 1;
        }
        proof {
            assert(gls.take(n as int) =~= gls);
        }
        let mut pixels: Vec<ImChar> = Vec::new();
        let mut y: usize = 0;
        let mut i2: usize = 0;
        proof {
            assert(spec_image_lines(gls.take(0)) =~= Seq::<Seq<char>>::empty());
            assert(pixels@ =~= Seq::<ImChar>::empty() + spec_lines_pixels(
                spec_image_lines(gls.take(0)),
            ));
        }
        while i2 < n
            invariant
                i2 <= n,
                y <= i2,
                n == gls.len(),
                ls.deep_view() == gls,
                ls@.len() == n,
                y == spec_image_lines(gls.take(i2 as int)).len(),
                pixels@ == spec_lines_pixels(spec_image_lines(gls.take(i2 as int))),
            decreases n - i2,
        {
            let l = &ls[i2];
            proof {
                assert(l@ == gls[i2 as int]);
                assert(gls.take(i2 + 1 as int).drop_last() =~= gls.take(i2 as int));
                assert(gls.take(i2 + 1 as int).last() == gls[i2 as int]);
            }
            if l.len() > 0 && l[0] == CONF_LINE_IDENTIFIER__IMAGE {
                let content = vec_subrange(l, 1, l.len());
                proof {
                    assert(content@ =~= l@.drop_first());
                    assert(spec_image_lines(gls.take(i2 + 1 as int)) =~= spec_image_lines(
                        gls.take(i2 as int),
                    ).push(l@.drop_first()));
                    let prev = spec_image_lines(gls.take(i2 as int));
                    assert(prev.push(l@.drop_first()).drop_last() =~= prev);
                    assert(prev.push(l@.drop_first()).last() == l@.drop_first());
                }
                push_line_pixels(&content, y, &mut pixels);
                y += 1;
            } else {
                proof {
                    assert(spec_image_lines(gls.take(i2 + 1 as int)) =~= spec_image_lines(
                        gls.take(i2 as int),
                    ));
                }
            }
            i2 += 1;
        }
        proof {
            assert(gls.take(n as int) =~= gls);
        }
        if pixels.is_empty() {
            return Err(ConfigParseError::NoImageData);
        }
        Ok(Self::from_pixels(pixels, rewarding_scheme))
    }

    /// Builds an image from a plain, non-escaped, multi-line art text: the
    /// known signature tokens are blanked out before pixel extraction and
    /// their characters appended as the last pixels to be disclosed.
    pub fn from(image: &str, rewarding_scheme: RewardingScheme) -> (r: Result<
        Image,
        ConfigParseError,
    >)
        ensures
            spec_from_result(image@, rewarding_scheme, r),
    {
        let cs = str_to_chars(image);
        let ls = split_lines(&cs);
        let toks = crate::ascii_art::signature_tokens();
        let ghost gls = spec_split_lines(image@);
        let ghost gtoks = crate::ascii_art::spec_signature_tokens();
        proof {
            assert(ls.deep_view() == gls);
            assert(toks.deep_view() == gtoks);
        }
        let n = ls.len();
        let mut art: Vec<ImChar> = Vec::new();
        let mut sig: Vec<ImChar> = Vec::new();
        proof {
            assert(art@ =~= spec_art_pixels(gls.take(0), gtoks));
            assert(sig@ =~= spec_sig_pixels(gls.take(0), gtoks));
        }
        let mut i: usize = 0;
        while i < n
            invariant
                i <= n,
                n == gls.len(),
                ls.deep_view() == gls,
                ls@.len() == n,
                toks.deep_view() == gtoks,
                forall|j: int|
                    0 <= j < gtoks.len() ==> (#[trigger] gtoks[j]).len() >= 1,
                art@ == spec_art_pixels(gls.take(i as int), gtoks),
                sig@ == spec_sig_pixels(gls.take(i as int), gtoks),
            decreases n - i,
        {
            let l = &ls[i];
            proof {
                assert(l@ == gls[i as int]);
                assert(gls.take(i + 1 as int).drop_last() =~= gls.take(i as int));
                assert(gls.take(i + 1 as int).last() == gls[i as int]);
            }
            let cleaned = clean_line(l, &toks);
            push_line_pixels(&cleaned, i, &mut art);
            let remnant = sig_line(l, &cleaned);
            push_line_pixels(&remnant, i, &mut sig);
            i += 1;
        }
        proof {
            assert(gls.take(n as int) =~= gls);
        }
        if art.is_empty() && sig.is_empty() {
            return Err(ConfigParseError::NoImageData);
        }
        let mut all0: Vec<ImChar> = Vec::new();
        let mut art_copy = vec_copy(&art);
        all0.append(&mut art_copy);
        let mut sig_copy = vec_copy(&sig);
        all0.append(&mut sig_copy);
        proof {
            assert(all0@ =~= art@ + sig@);
        }
        let dimension = pix_dims(&all0);
        let art_len = art.len();
        let ghost art_view = art@;
        let ghost sig_view = sig@;
        let mut ichars = if art_len <= BIG_IMAGE {
            sort_pixels(&art)
        } else {
            let mut shuffled = art;
            shuffle_pixels(&mut shuffled);
            shuffled
        };
        let ghost ordered = ichars@;
        ichars.append(&mut sig);
        proof {
            assert(ichars@.skip(art_len as int) =~= sig_view);
            assert(ichars@.take(art_len as int) =~= ordered);
            vstd::seq_lib::lemma_multiset_commutative(ordered, sig_view);
            vstd::seq_lib::lemma_multiset_commutative(art_view, sig_view);
            assert(ordered + sig_view =~= ichars@);
            assert(art_view + sig_view =~= all0@);
            assert(ichars@.to_multiset() == all0@.to_multiset());
            lemma_pixels_within(ichars@, all0@, dimension.0 as int, dimension.1 as int);
        }
        let visible_points = ichars.len();
        Ok(Image { ichars, dimension, visible_points, rewarding_scheme })
    }

    /// Builds an image from structured configuration text: the deserializer
    /// yields the optional `image` block and `traditional` flag; no block at
    /// all is the no-image-data error.
    pub fn from_yaml(input: &str) -> (r: Result<Image, ConfigParseError>)
        ensures
            spec_from_yaml_result(spec_strip_bom(input@), r),
    {
        let cs0 = str_to_chars(input);
        let cs = strip_bom(&cs0);
        let t = chars_to_string(&cs);
        match yaml_parse_image(t.as_str()) {
            Err(m) => Err(ConfigParseError::NotInYamlFormat { message: m }),
            Ok((None, _)) => Err(ConfigParseError::NoImageData),
            Ok((Some(img), traditional)) => {
                let scheme = match traditional {
                    Some(true) => RewardingScheme::UnhideWhenLostLife,
                    _ => RewardingScheme::UnhideWhenGuessedChar,
                };
                Self::from(img.as_str(), scheme)
            },
        }
    }

    /// Builds an image from configuration text in either grammar: first the
    /// structured one, then the legacy one; when both fail, the structured
    /// grammar's error is surfaced.
    pub fn from_formatted(input: &str) -> (r: Result<Image, ConfigParseError>)
        ensures
            spec_yaml_image_ok(spec_strip_bom(input@)) ==> spec_from_yaml_result(
                spec_strip_bom(input@),
                r,
            ),
            !spec_yaml_image_ok(spec_strip_bom(input@)) && spec_proprietary_ok(input@)
                ==> spec_proprietary_result(input@, r),
            !spec_yaml_image_ok(spec_strip_bom(input@)) && !spec_proprietary_ok(input@)
                ==> spec_yaml_image_error(spec_strip_bom(input@), r),
    {
        match Self::from_yaml(input) {
            Ok(im) => Ok(im),
            Err(e) => match Self::from_proprietary(input) {
                Ok(im) => Ok(im),
                Err(_) => Err(e),
            },
        }
    }

    /// Parses image data in the legacy grammar, falling back to a random
    /// built-in image when the text holds no image lines at all; the only
    /// error left is an unrecognized game-modifier line.
    pub fn new(string: &str) -> (r: Result<Image, ConfigParseError>)
        ensures
            !spec_proprietary_empty(string@) ==> spec_proprietary_result(string@, r),
            spec_proprietary_empty(string@) ==> (r matches Ok(im) && spec_built_in_image(im)),
            match r {
                Err(e) => spec_game_modifier_error(spec_split_lines(string@), e),
                Ok(_) => true,
            },
    {
        match Self::from_proprietary(string) {
            Ok(im) => Ok(im),
            Err(e) => match e {
                ConfigParseError::NoImageData => Ok(Self::random_built_in()),
                other => Err(other),
            },
        }
    }

    /// Builds one of the built-in gallery images, drawn at random. The draw
    /// cannot fail: every gallery piece is non-empty art, and were one ever
    /// not, a single-pixel placeholder stands in.
    pub fn random_built_in() -> (im: Image)
        ensures
            spec_built_in_image(im),
    {
        let i = random_index(crate::ascii_art::BUILTIN_IMAGE_COUNT);
        let art = crate::ascii_art::builtin_image(i);
        match Self::from(art, RewardingScheme::UnhideWhenGuessedChar) {
            Ok(im) => im,
            Err(_) => {
                let mut ichars: Vec<ImChar> = Vec::new();
                ichars.push(mk_pixel(0, 0, 'o'));
                Image {
                    ichars,
                    dimension: (1, 1),
                    visible_points: 1,
                    rewarding_scheme: RewardingScheme::UnhideWhenGuessedChar,
                }
            },
        }
    }
}

/// The regular-art pixels of an image text: the pixels of each line after
/// the signature tokens are blanked out.
pub open spec fn spec_art_pixels(ls: Seq<Seq<char>>, toks: Seq<Seq<char>>) -> Seq<ImChar>
    decreases ls.len(),
{
    if ls.len() == 0 {
        Seq::empty()
    } else {
        spec_art_pixels(ls.drop_last(), toks) + spec_line_pixels(
            spec_clean_line(ls.last(), toks),
            ls.len() - 1,
        )
    }
}

/// The signature pixels of an image text: the blanked-out characters, at
/// their original positions.
pub open spec fn spec_sig_pixels(ls: Seq<Seq<char>>, toks: Seq<Seq<char>>) -> Seq<ImChar>
    decreases ls.len(),
{
    if ls.len() == 0 {
        Seq::empty()
    } else {
        spec_sig_pixels(ls.drop_last(), toks) + spec_line_pixels(
            spec_sig_line(ls.last(), spec_clean_line(ls.last(), toks)),
            ls.len() - 1,
        )
    }
}

/// What building an image from a plain multi-line art text yields: the
/// regular-art pixels first — sorted for a small image, shuffled for a big
/// one — then every signature pixel, all visible, on the canvas the whole
/// spans; or the error for an image of no pixels at all.
pub open spec fn spec_from_result(
    t: Seq<char>,
    sch: RewardingScheme,
    r: Result<Image, ConfigParseError>,
) -> bool {
    let ls = spec_split_lines(t);
    let toks = crate::ascii_art::spec_signature_tokens();
    let art = spec_art_pixels(ls, toks);
    let sig = spec_sig_pixels(ls, toks);
    match r {
        Err(e) => e == ConfigParseError::NoImageData && art.len() + sig.len() == 0,
        Ok(im) => {
            &&& art.len() + sig.len() > 0
            &&& im.ichars@.len() == art.len() + sig.len()
            &&& im.ichars@.skip(art.len() as int) == sig
            &&& im.ichars@.take(art.len() as int).to_multiset() == art.to_multiset()
            &&& (art.len() <= BIG_IMAGE ==> spec_sorted(im.ichars@.take(art.len() as int)))
            &&& im.dimension == spec_pix_dims(art + sig)
            &&& im.visible_points == im.ichars@.len()
            &&& im.rewarding_scheme == sch
            &&& im.wf()
        },
    }
}

/// How a guarded disclosure update takes an image from `pre` to `post`:
/// only the visible count moves, it is recomputed exactly when the
/// formula's arithmetic fits the machine (`updated`), and under the
/// success-rewarding scheme a spent life or nothing to guess leaves it
/// alone.
pub open spec fn spec_try_update_post(pre: Image, g: Game, post: Image, updated: bool) -> bool {
    &&& post.ichars == pre.ichars
    &&& post.dimension == pre.dimension
    &&& post.rewarding_scheme == pre.rewarding_scheme
    &&& updated == match pre.rewarding_scheme {
        RewardingScheme::UnhideWhenGuessedChar => 5 * pre.ichars@.len() * g.secret.chars_to_guess
            + pre.ichars@.len() <= usize::MAX,
        RewardingScheme::UnhideWhenLostLife => g.lifes <= crate::LIVES && 5 * pre.ichars@.len() * (
        crate::LIVES as int) + pre.ichars@.len() <= usize::MAX,
    }
    &&& (!updated ==> post.visible_points == pre.visible_points)
    &&& (updated ==> match pre.rewarding_scheme {
        RewardingScheme::UnhideWhenGuessedChar => {
            if g.lifes != 0 && g.secret.chars_to_guess > 0 {
                post.visible_points == spec_points(
                    pre.ichars@.len() as int,
                    count_hidden(g.secret@) as int,
                    g.secret.chars_to_guess as int,
                )
            } else {
                post.visible_points == pre.visible_points
            }
        },
        RewardingScheme::UnhideWhenLostLife => post.visible_points == spec_points(
            pre.ichars@.len() as int,
            g.lifes as int,
            crate::LIVES as int,
        ),
    })
}

/// Signature pixels always occupy the tail of the disclosure order: in an
/// image whose pixel list ends in its signature pixels — as every image
/// built with signature extraction does — each disclosure count that
/// reaches into that tail shows exactly a prefix of the signatures, and a
/// full count shows them all.
pub proof fn lemma_signature_tail(im: Image, sig: Seq<ImChar>, vc: int)
    requires
        sig.len() <= im.ichars@.len(),
        im.ichars@.skip(im.ichars@.len() - sig.len()) == sig,
        im.ichars@.len() - sig.len() <= vc <= im.ichars@.len(),
    ensures
        im.ichars@.take(vc).skip(im.ichars@.len() - sig.len()) == sig.take(
            vc - (im.ichars@.len() - sig.len()),
        ),
{
    let a = im.ichars@.len() - sig.len();
    assert(im.ichars@.take(vc).skip(a) =~= sig.take(vc - a)) by {
        assert forall|j: int| 0 <= j < vc - a implies im.ichars@.take(vc).skip(a)[j] == sig.take(
            vc - a,
        )[j] by {
            assert(im.ichars@.take(vc).skip(a)[j] == im.ichars@[a + j]);
            assert(sig[j] == im.ichars@.skip(a)[j]);
        }
    }
}

/// A pixel list in disclosure order is in non-decreasing distance from the
/// origin: small images radiate outward from the top-left corner.
pub proof fn lemma_sorted_by_distance(s: Seq<ImChar>)
    requires
        spec_sorted(s),
    ensures
        forall|i: int, j: int| 0 <= i <= j < s.len() ==> spec_dist(s[i]) <= spec_dist(s[j]),
{
    assert forall|i: int, j: int| 0 <= i <= j < s.len() implies spec_dist(s[i]) <= spec_dist(
        s[j],
    ) by {
        if i < j {
            assert(spec_pix_le(s[i], s[j]));
        }
    }
}

/// The empty canvas grid: spaces, with a line break closing each row.
pub open spec fn spec_grid_base(w: int, h: int) -> Seq<char> {
    Seq::new(
        ((w + 1) * h) as nat,
        |k: int|
            if k % (w + 1) == w {
                '\n'
            } else {
                ' '
            },
    )
}

/// The grid with the pixels of `px` placed at their positions, in order.
pub open spec fn spec_place(base: Seq<char>, px: Seq<ImChar>, w: int) -> Seq<char>
    decreases px.len(),
{
    if px.len() == 0 {
        base
    } else {
        spec_place(base, px.drop_last(), w).update(
            px.last().point.1 * (w + 1) + px.last().point.0,
            px.last().code,
        )
    }
}

/// The rendering of an image: its visible pixels on the canvas grid.
pub open spec fn spec_image_render(im: Image) -> Seq<char> {
    spec_place(
        spec_grid_base(im.dimension.0 as int, im.dimension.1 as int),
        im.ichars@.take(im.visible_points as int),
        im.dimension.0 as int,
    )
}

/// The disclosure scheme an optional `traditional` flag selects.
pub open spec fn spec_scheme_of_flag(traditional: Option<bool>) -> RewardingScheme {
    match traditional {
        Some(true) => RewardingScheme::UnhideWhenLostLife,
        _ => RewardingScheme::UnhideWhenGuessedChar,
    }
}

/// What building an image from structured configuration text yields, the
/// text already normalized: the deserializer's failure, the absence of an
/// image block, or the built image.
pub open spec fn spec_from_yaml_result(t: Seq<char>, r: Result<Image, ConfigParseError>) -> bool {
    match yaml_image_of(t) {
        Err(m) => r matches Err(ConfigParseError::NotInYamlFormat { message }) && message@ == m,
        Ok((None, _)) => r matches Err(ConfigParseError::NoImageData),
        Ok((Some(img), traditional)) => spec_from_result(img, spec_scheme_of_flag(traditional), r),
    }
}

/// Whether the structured image path yields an image: an image block is
/// present and holds at least one pixel.
pub open spec fn spec_yaml_image_ok(t: Seq<char>) -> bool {
    match yaml_image_of(t) {
        Ok((Some(img), traditional)) => {
            let ls = spec_split_lines(img);
            let toks = crate::ascii_art::spec_signature_tokens();
            spec_art_pixels(ls, toks).len() + spec_sig_pixels(ls, toks).len() > 0
        },
        _ => false,
    }
}

/// The error of the structured image path, for when it is surfaced.
pub open spec fn spec_yaml_image_error(t: Seq<char>, r: Result<Image, ConfigParseError>) -> bool {
    match yaml_image_of(t) {
        Err(m) => r matches Err(ConfigParseError::NotInYamlFormat { message }) && message@ == m,
        Ok(_) => r matches Err(ConfigParseError::NoImageData),
    }
}

/// Whether the legacy image path yields an image: every game-modifier line
/// is recognized and the image lines hold at least one pixel.
pub open spec fn spec_proprietary_ok(t: Seq<char>) -> bool {
    let ls = spec_split_lines(t);
    (forall|j: int| 0 <= j < ls.len() ==> !spec_directive_bad(ls[j]))
        && spec_proprietary_pixels(ls).len() > 0
}

/// Whether the legacy image path finds well-formed text but no pixel at all
/// — the case that falls back to the built-in gallery.
pub open spec fn spec_proprietary_empty(t: Seq<char>) -> bool {
    let ls = spec_split_lines(t);
    (forall|j: int| 0 <= j < ls.len() ==> !spec_directive_bad(ls[j]))
        && spec_proprietary_pixels(ls).len() == 0
}

/// What drawing a built-in image yields: a fully visible, non-empty,
/// well-formed image under the default scheme.
pub open spec fn spec_built_in_image(im: Image) -> bool {
    &&& im.wf()
    &&& im.rewarding_scheme == RewardingScheme::UnhideWhenGuessedChar
    &&& im.visible_points == im.ichars@.len()
    &&& im.ichars@.len() > 0
}

impl Image {
    /// Every pixel lies on the canvas, the canvas is at most 256 characters
    /// each way, and no more pixels are visible than exist.
    pub open spec fn wf(&self) -> bool {
        &&& self.visible_points <= self.ichars@.len()
        &&& self.dimension.0 <= 256
        &&& self.dimension.1 <= 256
        &&& forall|i: int|
            0 <= i < self.ichars@.len() ==> ((#[trigger] self.ichars@[i]).point.0
                < self.dimension.0 && self.ichars@[i].point.1 < self.dimension.1)
    }

    /// Sets how much of the image is disclosed the next time it is rendered:
    /// `fraction` is (parts of the game remaining, total parts). A zero
    /// denominator is silently ignored.
    pub fn disclose(&mut self, fraction: (usize, usize))
        requires
            old(self).wf(),
            fraction.1 > 0 ==> fraction.0 <= fraction.1,
            fraction.1 > 0 ==> 5 * old(self).ichars@.len() * fraction.1 + old(self).ichars@.len()
                <= usize::MAX,
        ensures
            final(self).ichars == old(self).ichars,
            final(self).dimension == old(self).dimension,
            final(self).rewarding_scheme == old(self).rewarding_scheme,
            fraction.1 == 0 ==> final(self).visible_points == old(self).visible_points,
            fraction.1 > 0 ==> final(self).visible_points == spec_points(
                old(self).ichars@.len() as int,
                fraction.0 as int,
                fraction.1 as int,
            ),
            final(self).wf(),
    {
        let l = self.ichars.len();
        let (n, d) = fraction;
        if d > 0 {
            proof {
                let li = l as int;
                let ni = n as int;
                let di = d as int;
                assert(5 * li <= 5 * li * di) by (nonlinear_arith)
                    requires
                        0 <= li,
                        1 <= di,
                ;
                assert(5 * li * (di - ni) <= 5 * li * di) by (nonlinear_arith)
                    requires
                        0 <= li,
                        0 <= ni <= di,
                ;
                assert(0 <= 5 * li * (di - ni)) by (nonlinear_arith)
                    requires
                        0 <= li,
                        ni <= di,
                ;
                vstd::arithmetic::div_mod::lemma_div_nonincreasing(5 * li * (di - ni), di);
                lemma_points_bounds(li, ni, di);
            }
            let points = (5 * l * (d - n) / d + l) / 6;
            self.visible_points = points;
        }
    }

    /// Discloses parts of the image according to the course of the play: by
    /// characters still hidden under the success-rewarding scheme (skipped
    /// once all lives are gone, where full disclosure has already happened),
    /// by lives remaining under the traditional scheme.
    pub fn update(&mut self, game: &Game)
        requires
            old(self).wf(),
            game.wf(),
            old(self).rewarding_scheme == RewardingScheme::UnhideWhenGuessedChar ==> 5 * old(
                self,
            ).ichars@.len() * game.secret.chars_to_guess + old(self).ichars@.len() <= usize::MAX,
            old(self).rewarding_scheme == RewardingScheme::UnhideWhenLostLife ==> game.lifes
                <= crate::LIVES && 5 * old(self).ichars@.len() * (crate::LIVES as int) + old(
                self,
            ).ichars@.len() <= usize::MAX,
        ensures
            final(self).ichars == old(self).ichars,
            final(self).dimension == old(self).dimension,
            final(self).rewarding_scheme == old(self).rewarding_scheme,
            final(self).wf(),
            match old(self).rewarding_scheme {
                RewardingScheme::UnhideWhenGuessedChar => {
                    if game.lifes != 0 && game.secret.chars_to_guess > 0 {
                        final(self).visible_points == spec_points(
                            old(self).ichars@.len() as int,
                            count_hidden(game.secret@) as int,
                            game.secret.chars_to_guess as int,
                        )
                    } else {
                        final(self).visible_points == old(self).visible_points
                    }
                },
                RewardingScheme::UnhideWhenLostLife => final(self).visible_points == spec_points(
                    old(self).ichars@.len() as int,
                    game.lifes as int,
                    crate::LIVES as int,
                ),
            },
    {
        match self.rewarding_scheme {
            RewardingScheme::UnhideWhenGuessedChar => {
                if game.lifes != 0 {
                    let hidden = game.secret.hidden_chars();
                    self.disclose((hidden, game.secret.chars_to_guess));
                }
            },
            RewardingScheme::UnhideWhenLostLife => {
                self.disclose((game.lifes as usize, crate::LIVES as usize));
            },
        }
    }

    /// `update`, guarded: applies it only where its arithmetic bounds hold,
    /// and reports whether it did. Callers that cannot bound the image and
    /// secret sizes use this.
    pub fn try_update(&mut self, game: &Game) -> (updated: bool)
        requires
            old(self).wf(),
            game.wf(),
        ensures
            final(self).wf(),
            spec_try_update_post(*old(self), *game, *final(self), updated),
    {
        let l = self.ichars.len();
        let fits_guessed = fits_budget(l, game.secret.chars_to_guess);
        let fits_lives = game.lifes <= crate::LIVES && fits_budget(l, crate::LIVES as usize);
        let is_guessed = match self.rewarding_scheme {
            RewardingScheme::UnhideWhenGuessedChar => true,
            RewardingScheme::UnhideWhenLostLife => false,
        };
        if is_guessed && fits_guessed {
            self.update(game);
            true
        } else if !is_guessed && fits_lives {
            self.update(game);
            true
        } else {
            false
        }
    }

    /// Lays the visible pixels out on the canvas grid: one extra column per
    /// row holds the line break, spaces fill the rest.
    pub fn render(&self) -> (r: String)
        requires
            self.wf(),
        ensures
            r@ == spec_image_render(*self),
    {
        let w = self.dimension.0 as usize;
        let h = self.dimension.1 as usize;
        proof {
            assert((w + 1) * h <= 257 * 256) by (nonlinear_arith)
                requires
                    w <= 256,
                    h <= 256,
            ;
        }
        let total = (w + 1) * h;
        let mut grid: Vec<char> = Vec::new();
        let mut k: usize = 0;
        while k < total
            invariant
                k <= total,
                w <= 256,
                h <= 256,
                total == (w + 1) * h,
                grid@.len() == k,
                forall|j: int|
                    0 <= j < k ==> grid@[j] == spec_grid_base(w as int, h as int)[j],
            decreases total - k,
        {
            if k % (w + 1) == w {
                grid.push('\n');
            } else {
                grid.push(' ');
            }
            k += 1;
        }
        proof {
            assert(grid@ =~= spec_grid_base(w as int, h as int));
        }
        let ghost base = spec_grid_base(w as int, h as int);
        let vis = self.visible_points;
        let mut i: usize = 0;
        proof {
            assert(self.ichars@.take(0) =~= Seq::<ImChar>::empty());
        }
        while i < vis
            invariant
                i <= vis,
                self.wf(),
                vis == self.visible_points,
                w == self.dimension.0 as usize,
                h == self.dimension.1 as usize,
                w <= 256,
                h <= 256,
                total == (w + 1) * h,
                base == spec_grid_base(w as int, h as int),
                grid@.len() == total,
                grid@ == spec_place(base, self.ichars@.take(i as int), w as int),
            decreases vis - i,
        {
            proof {
                assert(self.ichars@.take(i + 1 as int).drop_last() =~= self.ichars@.take(
                    i as int,
                ));
                assert(self.ichars@.take(i + 1 as int).last() == self.ichars@[i as int]);
            }
            let p = self.ichars[i];
            let x = p.point.0 as usize;
            let y = p.point.1 as usize;
            proof {
                assert(x < w && y < h);
                assert(y * (w + 1) + x < h * (w + 1)) by (nonlinear_arith)
                    requires
                        x < w + 1,
                        y < h,
                ;
                assert(h * (w + 1) == (w + 1) * h) by (nonlinear_arith);
            }
            let idx = y * (w + 1) + x;
            grid[idx] = p.code;
            i += 1;
        }
        proof {
            assert(self.ichars@.take(vis as int) == self.ichars@.take(self.visible_points as int));
        }
        chars_to_string(&grid)
    }
}

} // verus!
