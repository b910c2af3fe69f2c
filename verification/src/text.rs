//! Character and line utilities shared by the parsers: the white-space
//! classification, line splitting in the style of std's `str::lines`, and
//! trimming, each with an exact specification.
use vstd::prelude::*;
use vstd::string::*;

verus! {

/// The Unicode `White_Space` code points, the set that std's
/// `char::is_whitespace` documents.
pub open spec fn spec_is_whitespace(c: char) -> bool {
    (c as u32) == 0x20 || (0x09 <= (c as u32) && (c as u32) <= 0x0d) || (c as u32) == 0x85 || (
    c as u32) == 0xa0 || (c as u32) == 0x1680 || (0x2000 <= (c as u32) && (c as u32) <= 0x200a) || (
    c as u32) == 0x2028 || (c as u32) == 0x2029 || (c as u32) == 0x202f || (c as u32) == 0x205f || (
    c as u32) == 0x3000
}

pub fn is_whitespace_char(c: char) -> (r: bool)
    ensures
        r == spec_is_whitespace(c),
{
    let u = c as u32;
    u == 0x20 || (0x09 <= u && u <= 0x0d) || u == 0x85 || u == 0xa0 || u == 0x1680 || (0x2000 <= u
        && u <= 0x200a) || u == 0x2028 || u == 0x2029 || u == 0x202f || u == 0x205f || u == 0x3000
}

/// The collating code of a character when ASCII letters are folded to lower
/// case, as std's `char::eq_ignore_ascii_case` compares them.
pub open spec fn spec_lower_code(c: char) -> int {
    if 0x41 <= (c as u32) && (c as u32) <= 0x5a {
        (c as u32) + 0x20
    } else {
        (c as u32) as int
    }
}

/// Case-insensitive match on the ASCII letters, exact elsewhere.
pub open spec fn spec_chars_match(a: char, b: char) -> bool {
    spec_lower_code(a) == spec_lower_code(b)
}

pub fn chars_match(a: char, b: char) -> (r: bool)
    ensures
        r == spec_chars_match(a, b),
{
    let ua = a as u32;
    let ub = b as u32;
    let la = if 0x41 <= ua && ua <= 0x5a {
        ua + 0x20
    } else {
        ua
    };
    let lb = if 0x41 <= ub && ub <= 0x5a {
        ub + 0x20
    } else {
        ub
    };
    la == lb
}

/// The characters of a string slice, in order.
pub fn str_to_chars(s: &str) -> (r: Vec<char>)
    ensures
        r@ == s@,
{
    let n = s.unicode_len();
    let mut v: Vec<char> = Vec::new();
    let mut i: usize = 0;
    while i < n
        invariant
            i <= n,
            n == s@.len(),
            v@ == s@.take(i as int),
        decreases n - i,
    {
        let c = s.get_char(i);
        v.push(c);
        assert(v@ =~= s@.take(i + 1 as int));
        i += 1;
    }
    assert(v@ =~= s@);
    v
}

/// Relies on std's `FromIterator` for `String`: collecting characters yields
/// the string of exactly those characters.
#[verifier::external_body]
pub fn chars_to_string(v: &Vec<char>) -> (r: String)
    ensures
        r@ == v@,
{
    v.iter().collect()
}

/// The index of the first occurrence of `c` in `s`, or `s.len()` when there
/// is none.
pub open spec fn spec_find_char(s: Seq<char>, c: char) -> int
    decreases s.len(),
{
    if s.len() == 0 {
        0
    } else if s[0] == c {
        0
    } else {
        1 + spec_find_char(s.drop_first(), c)
    }
}

pub proof fn lemma_find_char(s: Seq<char>, c: char)
    ensures
        0 <= spec_find_char(s, c) <= s.len(),
        spec_find_char(s, c) < s.len() ==> s[spec_find_char(s, c)] == c,
        forall|j: int| 0 <= j < spec_find_char(s, c) ==> s[j] != c,
    decreases s.len(),
{
    if s.len() != 0 && s[0] != c {
        lemma_find_char(s.drop_first(), c);
        assert forall|j: int| 0 <= j < spec_find_char(s, c) implies s[j] != c by {
            if j > 0 {
                assert(s.drop_first()[j - 1] == s[j]);
            }
        }
    }
}

/// The first index at or after which `c` occurs nowhere in `s` determines
/// `spec_find_char` exactly.
pub proof fn lemma_find_char_at(s: Seq<char>, c: char, k: int)
    requires
        0 <= k <= s.len(),
        forall|j: int| 0 <= j < k ==> s[j] != c,
        k < s.len() ==> s[k] == c,
    ensures
        spec_find_char(s, c) == k,
    decreases s.len(),
{
    if s.len() != 0 && s[0] != c {
        assert(k > 0);
        assert forall|j: int| 0 <= j < k - 1 implies s.drop_first()[j] != c by {
            assert(s.drop_first()[j] == s[j + 1]);
        }
        assert(k - 1 < s.drop_first().len() ==> s.drop_first()[k - 1] == c);
        lemma_find_char_at(s.drop_first(), c, k - 1);
    }
}

/// A line with a single trailing carriage return removed, as std's
/// `str::lines` yields it.
pub open spec fn spec_strip_cr(l: Seq<char>) -> Seq<char> {
    if l.len() > 0 && l.last() == '\r' {
        l.drop_last()
    } else {
        l
    }
}

/// The lines of a text: split at `'\n'`, one trailing `'\r'` removed from
/// each piece, and no empty final piece after a terminating newline. This is
/// how std's `str::lines` cuts a text.
pub open spec fn spec_split_lines(s: Seq<char>) -> Seq<Seq<char>>
    decreases s.len(),
{
    if s.len() == 0 {
        Seq::empty()
    } else {
        let i = spec_find_char(s, '\n');
        if 0 <= i && i < s.len() {
            seq![spec_strip_cr(s.take(i))] + spec_split_lines(s.skip(i + 1))
        } else {
            seq![spec_strip_cr(s)]
        }
    }
}

/// The characters of `v` from `a` (inclusive) to `b` (exclusive).
pub fn vec_subrange(v: &Vec<char>, a: usize, b: usize) -> (r: Vec<char>)
    requires
        a <= b <= v@.len(),
    ensures
        r@ == v@.subrange(a as int, b as int),
{
    let mut r: Vec<char> = Vec::new();
    let mut i: usize = a;
    while i < b
        invariant
            a <= i <= b <= v@.len(),
            r@ == v@.subrange(a as int, i as int),
        decreases b - i,
    {
        r.push(v[i]);
        assert(r@ =~= v@.subrange(a as int, i + 1 as int));
        i += 1;
    }
    r
}

/// One line piece of `split_lines`: the characters from `a` to `b` with a
/// single trailing `'\r'` removed.
fn cut_line(v: &Vec<char>, a: usize, b: usize) -> (r: Vec<char>)
    requires
        a <= b <= v@.len(),
    ensures
        r@ == spec_strip_cr(v@.subrange(a as int, b as int)),
{
    let b1 = if b > a && v[b - 1] == '\r' {
        b - 1
    } else {
        b
    };
    vec_subrange(v, a, b1)
}

/// The lines of `s`, as `spec_split_lines` cuts them.
pub fn split_lines(s: &Vec<char>) -> (r: Vec<Vec<char>>)
    ensures
        r.deep_view() == spec_split_lines(s@),
{
    let n = s.len();
    let mut out: Vec<Vec<char>> = Vec::new();
    let mut start: usize = 0;
    let mut i: usize = 0;
    proof {
        assert(out.deep_view() =~~= Seq::<Seq<char>>::empty());
        assert(s@.skip(0) =~= s@);
        assert(Seq::<Seq<char>>::empty() + spec_split_lines(s@) =~= spec_split_lines(s@));
    }
    while i < n
        invariant
            start <= i <= n,
            n == s@.len(),
            forall|j: int| start <= j < i ==> s@[j] != '\n',
            spec_split_lines(s@) == out.deep_view() + spec_split_lines(s@.skip(start as int)),
        decreases n - i,
    {
        if s[i] == '\n' {
            let line = cut_line(s, start, i);
            proof {
                let t = s@.skip(start as int);
                assert forall|j: int| 0 <= j < i - start implies t[j] != '\n' by {
                    assert(t[j] == s@[start + j]);
                }
                assert(t[i - start] == '\n');
                lemma_find_char_at(t, '\n', i - start);
                assert(t.take(i - start) =~= s@.subrange(start as int, i as int));
                assert(t.skip(i - start + 1) =~= s@.skip(i + 1 as int));
                assert(spec_split_lines(t) == seq![spec_strip_cr(t.take(i - start))]
                    + spec_split_lines(s@.skip(i + 1 as int)));
            }
            let ghost old_out = out.deep_view();
            out.push(line);
            proof {
                assert(out.deep_view() =~~= old_out + seq![line@]);
                assert(out.deep_view() + spec_split_lines(s@.skip(i + 1 as int)) =~= (old_out + (
                seq![line@] + spec_split_lines(s@.skip(i + 1 as int)))));
            }
            start = i + 1;
        }
        i += 1;
    }
    if start < n {
        let line = cut_line(s, start, n);
        proof {
            let t = s@.skip(start as int);
            assert forall|j: int| 0 <= j < t.len() implies t[j] != '\n' by {
                assert(t[j] == s@[start + j]);
            }
            lemma_find_char_at(t, '\n', t.len() as int);
            assert(t =~= s@.subrange(start as int, n as int));
            assert(spec_split_lines(t) == seq![spec_strip_cr(t)]);
        }
        let ghost old_out = out.deep_view();
        out.push(line);
        proof {
            assert(out.deep_view() =~~= old_out + seq![line@]);
        }
    } else {
        proof {
            assert(spec_split_lines(s@.skip(start as int)) == Seq::<Seq<char>>::empty());
        }
    }
    proof {
        assert(out.deep_view() =~= out.deep_view() + Seq::<Seq<char>>::empty());
    }
    out
}

/// `s` with its leading white space removed.
pub open spec fn spec_trim_start(s: Seq<char>) -> Seq<char>
    decreases s.len(),
{
    if s.len() > 0 && spec_is_whitespace(s[0]) {
        spec_trim_start(s.drop_first())
    } else {
        s
    }
}

/// `s` with its trailing white space removed.
pub open spec fn spec_trim_end(s: Seq<char>) -> Seq<char>
    decreases s.len(),
{
    if s.len() > 0 && spec_is_whitespace(s.last()) {
        spec_trim_end(s.drop_last())
    } else {
        s
    }
}

/// `s` with white space removed from both ends, as std's `str::trim`.
pub open spec fn spec_trim(s: Seq<char>) -> Seq<char> {
    spec_trim_end(spec_trim_start(s))
}

pub proof fn lemma_trim_start_skip(s: Seq<char>, a: int)
    requires
        0 <= a <= s.len(),
        forall|j: int| 0 <= j < a ==> spec_is_whitespace(s[j]),
        a < s.len() ==> !spec_is_whitespace(s[a]),
    ensures
        spec_trim_start(s) == s.skip(a),
    decreases s.len(),
{
    if s.len() > 0 && spec_is_whitespace(s[0]) {
        assert(a > 0);
        let t = s.drop_first();
        assert forall|j: int| 0 <= j < a - 1 implies spec_is_whitespace(t[j]) by {
            assert(t[j] == s[j + 1]);
        }
        assert(a - 1 < t.len() ==> !spec_is_whitespace(t[a - 1]));
        lemma_trim_start_skip(t, a - 1);
        assert(t.skip(a - 1) =~= s.skip(a));
    } else {
        assert(s.skip(0) =~= s);
    }
}

pub proof fn lemma_trim_end_take(s: Seq<char>, b: int)
    requires
        0 <= b <= s.len(),
        forall|j: int| b <= j < s.len() ==> spec_is_whitespace(s[j]),
        b > 0 ==> !spec_is_whitespace(s[b - 1]),
    ensures
        spec_trim_end(s) == s.take(b),
    decreases s.len(),
{
    if s.len() > 0 && spec_is_whitespace(s.last()) {
        assert(b < s.len());
        let t = s.drop_last();
        lemma_trim_end_take(t, b);
        assert(t.take(b) =~= s.take(b));
    } else {
        assert(s.take(s.len() as int) =~= s);
    }
}

/// The bounds of the non-white-space middle of `s`: the result `(a, b)`
/// satisfies `spec_trim(s@) == s@.subrange(a, b)`.
pub fn trim_bounds(s: &Vec<char>) -> (r: (usize, usize))
    ensures
        r.0 <= r.1 <= s@.len(),
        spec_trim(s@) == s@.subrange(r.0 as int, r.1 as int),
        spec_trim_start(s@) == s@.skip(r.0 as int),
{
    let n = s.len();
    let mut a: usize = 0;
    while a < n && is_whitespace_char(s[a])
        invariant
            a <= n,
            n == s@.len(),
            forall|j: int| 0 <= j < a ==> spec_is_whitespace(s@[j]),
        decreases n - a,
    {
        a += 1;
    }
    proof {
        lemma_trim_start_skip(s@, a as int);
    }
    let mut b: usize = n;
    while b > a && is_whitespace_char(s[b - 1])
        invariant
            a <= b <= n,
            n == s@.len(),
            forall|j: int| b <= j < n ==> spec_is_whitespace(s@[j]),
        decreases b,
    {
        b -= 1;
    }
    proof {
        let t = s@.skip(a as int);
        assert forall|j: int| b - a <= j < t.len() implies spec_is_whitespace(t[j]) by {
            assert(t[j] == s@[a + j]);
        }
        if b - a > 0 {
            assert(t[b - a - 1] == s@[b - 1 as int]);
        }
        lemma_trim_end_take(t, b - a);
        assert(t.take(b - a) =~= s@.subrange(a as int, b as int));
        if a == 0 {
            assert forall|j: int| b <= j < s@.len() implies spec_is_whitespace(s@[j]) by {}
            lemma_trim_end_take(s@, b as int);
        }
    }
    (a, b)
}

/// The end of `s` without its trailing white space: the bound `b` satisfies
/// `spec_trim_end(s@) == s@.take(b)`.
pub fn trim_end_bound(s: &Vec<char>) -> (b: usize)
    ensures
        b <= s@.len(),
        spec_trim_end(s@) == s@.take(b as int),
{
    let n = s.len();
    let mut b: usize = n;
    while b > 0 && is_whitespace_char(s[b - 1])
        invariant
            b <= n,
            n == s@.len(),
            forall|j: int| b <= j < n ==> spec_is_whitespace(s@[j]),
        decreases b,
    {
        b -= 1;
    }
    proof {
        lemma_trim_end_take(s@, b as int);
    }
    b
}

/// What std's `char::is_alphanumeric` answers: membership in the Unicode
/// `Alphabetic` class or one of the number classes `Nd`, `Nl`, `No`. A fixed
/// function of the character alone.
pub uninterp spec fn spec_is_alphanumeric(c: char) -> bool;

/// Relies on std's `char::is_alphanumeric` for the Unicode alphanumeric
/// classes, which are too large to spell out. Within ASCII the classes are
/// documented exactly: the letters and digits are alphanumeric, and the
/// control characters, space and punctuation are not.
#[verifier::external_body]
pub fn is_alphanumeric_char(c: char) -> (r: bool)
    ensures
        r == spec_is_alphanumeric(c),
        (0x30 <= (c as u32) && (c as u32) <= 0x39) || (0x41 <= (c as u32) && (c as u32) <= 0x5a)
            || (0x61 <= (c as u32) && (c as u32) <= 0x7a) ==> r,
        (c as u32) < 0x30 || (0x3a <= (c as u32) && (c as u32) <= 0x40) || (0x5b <= (c as u32) && (
        c as u32) <= 0x60) || (0x7b <= (c as u32) && (c as u32) <= 0x7f) ==> !r,
{
    c.is_alphanumeric()
}

/// The decimal digit character for `d`.
pub open spec fn spec_digit(d: int) -> char {
    ((48 + d) as u8) as char
}

/// The decimal rendering of a non-negative number, most significant digit
/// first, without leading zeros.
pub open spec fn spec_decimal(n: int) -> Seq<char>
    decreases n,
{
    if n < 10 {
        seq![spec_digit(n)]
    } else {
        spec_decimal(n / 10).push(spec_digit(n % 10))
    }
}

/// The digit character for a value below ten.
pub fn digit_char(d: u8) -> (r: char)
    requires
        d < 10,
    ensures
        r == spec_digit(d as int),
{
    (48 + d) as char
}

/// The decimal digits of a number, executable.
pub fn usize_decimal(n: usize) -> (r: Vec<char>)
    ensures
        r@ == spec_decimal(n as int),
    decreases n,
{
    if n < 10 {
        let mut r: Vec<char> = Vec::new();
        r.push(digit_char(n as u8));
        proof {
            assert(r@ =~= spec_decimal(n as int));
        }
        r
    } else {
        let mut r = usize_decimal(n / 10);
        r.push(digit_char((n % 10) as u8));
        r
    }
}

/// `s` with every leading byte-order mark removed, the normalisation both
/// configuration grammars apply first.
pub open spec fn spec_strip_bom(s: Seq<char>) -> Seq<char>
    decreases s.len(),
{
    if s.len() > 0 && s[0] == '\u{feff}' {
        spec_strip_bom(s.drop_first())
    } else {
        s
    }
}

pub fn strip_bom(s: &Vec<char>) -> (r: Vec<char>)
    ensures
        r@ == spec_strip_bom(s@),
{
    let n = s.len();
    let mut a: usize = 0;
    while a < n && s[a] == '\u{feff}'
        invariant
            a <= n,
            n == s@.len(),
            forall|j: int| 0 <= j < a ==> s@[j] == '\u{feff}',
        decreases n - a,
    {
        a += 1;
    }
    proof {
        lemma_strip_bom_skip(s@, a as int);
    }
    vec_subrange(s, a, n)
}

proof fn lemma_strip_bom_skip(s: Seq<char>, a: int)
    requires
        0 <= a <= s.len(),
        forall|j: int| 0 <= j < a ==> s[j] == '\u{feff}',
        a < s.len() ==> s[a] != '\u{feff}',
    ensures
        spec_strip_bom(s) == s.skip(a),
    decreases s.len(),
{
    if s.len() > 0 && s[0] == '\u{feff}' {
        assert(a > 0);
        let t = s.drop_first();
        assert forall|j: int| 0 <= j < a - 1 implies t[j] == '\u{feff}' by {
            assert(t[j] == s[j + 1]);
        }
        assert(a - 1 < t.len() ==> t[a - 1] != '\u{feff}');
        lemma_strip_bom_skip(t, a - 1);
        assert(t.skip(a - 1) =~= s.skip(a));
    } else {
        assert(s.skip(0) =~= s);
    }
}

} // verus!
