//! Reading scene text: lines, words and numbers in a run of bytes.
use crate::math::scalar::{narrow, scalar_of, Scalar, SCALE};
use vstd::prelude::*;
use vstd::string::StringSliceAdditionalSpecFns;

verus! {

/// Whether a byte separates words: a blank, or one of the five controls from
/// the tabulator to the carriage return.
pub open spec fn is_space(b: u8) -> bool {
    b == 32 || (9 <= b && b <= 13)
}

/// Whether a byte is a decimal digit.
pub open spec fn is_digit(b: u8) -> bool {
    48 <= b && b <= 57
}

/// Where the line that holds `pos` ends: at the next line feed, or at the
/// end of the text.
pub open spec fn spec_line_end(s: Seq<u8>, pos: int) -> int
    decreases s.len() - pos,
{
    if 0 <= pos < s.len() && s[pos] != 10 {
        spec_line_end(s, pos + 1)
    } else {
        pos
    }
}

/// The first place from `pos` on, before `end`, that holds no separator; `end`
/// where there is none.
pub open spec fn skip_spaces(s: Seq<u8>, pos: int, end: int) -> int
    decreases end - pos,
{
    if 0 <= pos < end && pos < s.len() && is_space(s[pos]) {
        skip_spaces(s, pos + 1, end)
    } else {
        pos
    }
}

/// The first place from `pos` on, before `end`, that holds a separator; `end`
/// where there is none.
pub open spec fn word_end(s: Seq<u8>, pos: int, end: int) -> int
    decreases end - pos,
{
    if 0 <= pos < end && pos < s.len() && !is_space(s[pos]) {
        word_end(s, pos + 1, end)
    } else {
        pos
    }
}

/// The next word between `pos` and `end`: where it starts and where it
/// stops. `None` where only separators are left.
pub open spec fn spec_next_word(s: Seq<u8>, pos: int, end: int) -> Option<(int, int)> {
    let start: int = skip_spaces(s, pos, end);
    if start < end {
        Some((start, word_end(s, start, end)))
    } else {
        None
    }
}

/// Whether every byte is a digit.
pub open spec fn all_digits(s: Seq<u8>) -> bool {
    forall|i: int| 0 <= i < s.len() ==> is_digit(#[trigger] s[i])
}

/// The number that a run of digits writes.
pub open spec fn digits_value(s: Seq<u8>) -> int
    decreases s.len(),
{
    if s.len() == 0 {
        0
    } else {
        10 * digits_value(s.drop_last()) + (s.last() - 48)
    }
}

/// The first place from `pos` on, before `end`, that holds a full stop; `end`
/// where there is none.
pub open spec fn stop_at(s: Seq<u8>, pos: int, end: int) -> int
    decreases end - pos,
{
    if 0 <= pos < end && pos < s.len() && s[pos] != 46 {
        stop_at(s, pos + 1, end)
    } else {
        pos
    }
}

/// What the digit at place `i` of a fraction adds where one unit of that
/// place is `weight` millionths; nothing where the fraction is shorter.
pub open spec fn place(f: Seq<u8>, i: int, weight: int) -> int {
    if i < f.len() {
        (f[i] - 48) * weight
    } else {
        0
    }
}

/// The millionths that the digits after the full stop write: the first six
/// count, the others are dropped.
pub open spec fn fraction_value(f: Seq<u8>) -> int {
    place(f, 0, 100_000) + place(f, 1, 10_000) + place(f, 2, 1_000) + place(f, 3, 100) + place(
        f,
        4,
        10,
    ) + place(f, 5, 1)
}

/// The number that a word writes: an optional sign, digits, and optionally a
/// full stop and more digits, with a digit on at least one side of it. The
/// number is rounded toward zero to millionths and saturated. `None` for
/// every other word: these are all the numerals that are read. A numeral
/// with an exponent, such as `1e5`, and the words `inf`, `infinity` and
/// `nan` are no numbers here, for nothing in millionths stands for what
/// they write.
pub open spec fn spec_number(w: Seq<u8>) -> Option<Scalar> {
    let signed: bool = w.len() > 0 && (w[0] == 45 || w[0] == 43);
    let from: int = if signed {
        1
    } else {
        0
    };
    let stop: int = stop_at(w, from, w.len() as int);
    let whole: Seq<u8> = w.subrange(from, stop);
    let fraction: Seq<u8> = if stop < w.len() {
        w.subrange(stop + 1, w.len() as int)
    } else {
        Seq::<u8>::empty()
    };
    if all_digits(whole) && all_digits(fraction) && whole.len() + fraction.len() > 0 {
        let size: int = digits_value(whole) * SCALE + fraction_value(fraction);
        Some(
            scalar_of(
                if w[0] == 45 {
                    -size
                } else {
                    size
                },
            ),
        )
    } else {
        None
    }
}

/// The count that a word writes: an optional plus sign and at least one
/// digit, writing a number that a `u32` holds. `None` for every other word.
pub open spec fn spec_count(w: Seq<u8>) -> Option<u32> {
    let from: int = if w.len() > 0 && w[0] == 43 {
        1
    } else {
        0
    };
    let digits: Seq<u8> = w.subrange(from, w.len() as int);
    if all_digits(digits) && digits.len() > 0 && digits_value(digits) <= u32::MAX {
        Some(digits_value(digits) as u32)
    } else {
        None
    }
}

/// Where the line that holds `pos` ends.
pub fn line_end(s: &[u8], pos: usize) -> (end: usize)
    requires
        pos <= s@.len(),
    ensures
        end == spec_line_end(s@, pos as int),
        pos <= end <= s@.len(),
{
    let mut i: usize = pos;
    while i < s.len() && s[i] != 10
        invariant
            pos <= i <= s@.len(),
            spec_line_end(s@, pos as int) == spec_line_end(s@, i as int),
        decreases s@.len() - i,
    {
        i = i + 1;
    }
    i
}

/// The next word between `pos` and `end`.
pub fn next_word(s: &[u8], pos: usize, end: usize) -> (r: Option<(usize, usize)>)
    requires
        pos <= end <= s@.len(),
    ensures
        match r {
            Some((a, b)) => spec_next_word(s@, pos as int, end as int) == Some(
                (a as int, b as int),
            ) && pos <= a < b <= end,
            None => spec_next_word(s@, pos as int, end as int) is None,
        },
{
    let mut a: usize = pos;
    while a < end && (s[a] == 32 || (9 <= s[a] && s[a] <= 13))
        invariant
            pos <= a <= end <= s@.len(),
            skip_spaces(s@, pos as int, end as int) == skip_spaces(s@, a as int, end as int),
        decreases end - a,
    {
        a = a + 1;
    }
    if a >= end {
        return None;
    }
    let mut b: usize = a + 1;
    while b < end && !(s[b] == 32 || (9 <= s[b] && s[b] <= 13))
        invariant
            a < b <= end <= s@.len(),
            word_end(s@, a as int, end as int) == word_end(s@, b as int, end as int),
        decreases end - b,
    {
        b = b + 1;
    }
    Some((a, b))
}

/// Whether the bytes from `a` to `b` spell `word`.
pub fn spells(s: &[u8], a: usize, b: usize, word: &str) -> (r: bool)
    requires
        a <= b <= s@.len(),
    ensures
        r == (s@.subrange(a as int, b as int) == word.spec_bytes()),
{
    let w: &[u8] = word.as_bytes();
    if w.len() != b - a {
        return false;
    }
    let mut i: usize = 0;
    while i < w.len()
        invariant
            a <= b <= s@.len(),
            w@.len() == b - a,
            i <= w@.len(),
            w@ == word.spec_bytes(),
            forall|k: int| 0 <= k < i ==> s@[a + k] == w@[k],
        decreases w@.len() - i,
    {
        if s[a + i] != w[i] {
            proof {
                assert(s@.subrange(a as int, b as int)[i as int] == s@[a + i]);
            }
            return false;
        }
        i = i + 1;
    }
    proof {
        assert(s@.subrange(a as int, b as int) =~= w@);
    }
    true
}

/// A full stop is not looked for before `pos` nor after `end`, and no byte
/// before the place found is one.
pub proof fn lemma_stop_at(s: Seq<u8>, pos: int, end: int)
    requires
        0 <= pos <= end <= s.len(),
    ensures
        pos <= stop_at(s, pos, end) <= end,
        stop_at(s, pos, end) < end ==> s[stop_at(s, pos, end)] == 46,
        forall|i: int| pos <= i < stop_at(s, pos, end) ==> s[i] != 46,
    decreases end - pos,
{
    if pos < end && s[pos] != 46 {
        lemma_stop_at(s, pos + 1, end);
    }
}

/// The value of a run of digits with one more digit behind it.
pub proof fn lemma_digits_push(s: Seq<u8>, from: int, to: int)
    requires
        0 <= from <= to < s.len(),
    ensures
        digits_value(s.subrange(from, to + 1)) == 10 * digits_value(s.subrange(from, to)) + (s[to]
            - 48),
{
    assert(s.subrange(from, to + 1).drop_last() =~= s.subrange(from, to));
}

/// The largest whole part that is kept as it is; a larger one saturates
/// whatever follows it.
pub const WHOLE_CAP: u64 = 10_000_000_000_000;

fn digit_at(s: &[u8], start: usize, k: usize, end: usize, weight: u64) -> (r: u64)
    requires
        start <= end <= s@.len(),
        weight <= 100_000,
        forall|i: int| start <= i < end ==> is_digit(#[trigger] s@[i]),
    ensures
        k < end - start ==> r == (s@[start + k] - 48) * weight,
        k >= end - start ==> r == 0,
        r <= 9 * weight,
{
    if k < end - start {
        assert(is_digit(s@[start + k]));
        let d: u64 = (s[start + k] - 48) as u64;
        assert(d * weight <= 9 * weight) by (nonlinear_arith)
            requires
                d <= 9,
        ;
        d * weight
    } else {
        0
    }
}

/// The number that the bytes from `a` to `b` write, if they write one.
pub fn number(s: &[u8], a: usize, b: usize) -> (r: Option<Scalar>)
    requires
        a <= b <= s@.len(),
    ensures
        r == spec_number(s@.subrange(a as int, b as int)),
{
    let ghost w: Seq<u8> = s@.subrange(a as int, b as int);
    let negative: bool = a < b && s[a] == 45;
    let from: usize = if a < b && (s[a] == 45 || s[a] == 43) {
        a + 1
    } else {
        a
    };
    let ghost stop: int = stop_at(w, from - a, w.len() as int);
    proof {
        lemma_stop_at(w, from - a, w.len() as int);
        if a < b {
            assert(w[0] == s@[a as int]);
        }
    }
    let mut i: usize = from;
    let mut whole: u64 = 0;
    while i < b && s[i] != 46
        invariant
            a <= from <= i <= b <= s@.len(),
            w == s@.subrange(a as int, b as int),
            stop == stop_at(w, from - a, w.len() as int),
            i - a <= stop <= w.len(),
            stop < w.len() ==> w[stop] == 46,
            from - a == if w.len() > 0 && (w[0] == 45 || w[0] == 43) {
                1int
            } else {
                0int
            },
            all_digits(w.subrange(from - a, i - a)),
            0 <= digits_value(w.subrange(from - a, i - a)),
            digits_value(w.subrange(from - a, i - a)) < WHOLE_CAP ==> whole == digits_value(
                w.subrange(from - a, i - a),
            ),
            digits_value(w.subrange(from - a, i - a)) >= WHOLE_CAP ==> whole >= WHOLE_CAP,
            whole <= 10 * WHOLE_CAP + 9,
        decreases b - i,
    {
        let c: u8 = s[i];
        proof {
            assert(w[i - a] == c);
            assert(i - a < stop);
        }
        if !(48 <= c && c <= 57) {
            proof {
                let run: Seq<u8> = w.subrange(from - a, stop);
                assert(run[i - from] == c);
                assert(!is_digit(run[i - from]));
                assert(!all_digits(run));
            }
            return None;
        }
        proof {
            lemma_digits_push(w, from - a, i - a);
            assert forall|k: int| 0 <= k < i + 1 - from implies is_digit(
                #[trigger] w.subrange(from - a, i + 1 - a)[k],
            ) by {
                if k < i - from {
                    assert(w.subrange(from - a, i - a)[k] == w.subrange(from - a, i + 1 - a)[k]);
                }
            }
        }
        if whole < WHOLE_CAP {
            whole = whole * 10 + (c - 48) as u64;
        }
        i = i + 1;
    }
    proof {
        if i < b {
            assert(w[i - a] == 46);
        }
        assert(stop == i - a);
    }
    let ghost run: Seq<u8> = w.subrange(from - a, stop);
    let ghost fraction: Seq<u8> = if stop < w.len() {
        w.subrange(stop + 1, w.len() as int)
    } else {
        Seq::<u8>::empty()
    };
    let start: usize = if i < b {
        i + 1
    } else {
        b
    };
    let mut j: usize = start;
    while j < b
        invariant
            a <= start <= j <= b <= s@.len(),
            w == s@.subrange(a as int, b as int),
            fraction =~= w.subrange(start - a, w.len() as int),
            stop == stop_at(w, from - a, w.len() as int),
            fraction == if stop < w.len() {
                w.subrange(stop + 1, w.len() as int)
            } else {
                Seq::<u8>::empty()
            },
            from - a == if w.len() > 0 && (w[0] == 45 || w[0] == 43) {
                1int
            } else {
                0int
            },
            forall|k: int| start <= k < j ==> is_digit(#[trigger] s@[k]),
        decreases b - j,
    {
        let c: u8 = s[j];
        if !(48 <= c && c <= 57) {
            proof {
                assert(fraction[j - start] == c);
                assert(!is_digit(fraction[j - start]));
                assert(!all_digits(fraction));
            }
            return None;
        }
        j = j + 1;
    }
    proof {
        assert forall|k: int| 0 <= k < fraction.len() implies is_digit(#[trigger] fraction[k]) by {
            assert(fraction[k] == s@[start + k]);
        }
        assert(all_digits(fraction));
    }
    if (i - from) + (b - start) == 0 {
        return None;
    }
    let part: u64 = digit_at(s, start, 0, b, 100_000) + digit_at(s, start, 1, b, 10_000)
        + digit_at(s, start, 2, b, 1_000) + digit_at(s, start, 3, b, 100) + digit_at(
        s,
        start,
        4,
        b,
        10,
    ) + digit_at(s, start, 5, b, 1);
    proof {
        assert(forall|k: int| 0 <= k < fraction.len() ==> fraction[k] == s@[start + k]);
        assert(part == fraction_value(fraction));
        assert(whole * SCALE >= WHOLE_CAP * SCALE ==> whole * SCALE + part > i64::MAX);
        assert(digits_value(run) >= WHOLE_CAP ==> digits_value(run) * SCALE + part > i64::MAX)
            by (nonlinear_arith)
            requires
                part >= 0,
                SCALE == 1_000_000,
                WHOLE_CAP == 10_000_000_000_000,
        ;
        assert(negative == (w[0] == 45 && w.len() > 0));
    }
    let size: i128 = (whole as i128) * (SCALE as i128) + part as i128;
    if negative {
        Some(narrow(-size))
    } else {
        proof {
            if w[0] == 45 {
                assert(w.len() == 0);
            }
        }
        Some(narrow(size))
    }
}

/// The count that the bytes from `a` to `b` write, if they write one.
pub fn count(s: &[u8], a: usize, b: usize) -> (r: Option<u32>)
    requires
        a <= b <= s@.len(),
    ensures
        r == spec_count(s@.subrange(a as int, b as int)),
{
    let ghost w: Seq<u8> = s@.subrange(a as int, b as int);
    let from: usize = if a < b && s[a] == 43 {
        a + 1
    } else {
        a
    };
    let ghost digits: Seq<u8> = w.subrange(from - a, w.len() as int);
    proof {
        if a < b {
            assert(w[0] == s@[a as int]);
        }
    }
    let mut i: usize = from;
    let mut value: u64 = 0;
    while i < b
        invariant
            a <= from <= i <= b <= s@.len(),
            w == s@.subrange(a as int, b as int),
            digits == w.subrange(from - a, w.len() as int),
            from - a == if w.len() > 0 && w[0] == 43 {
                1int
            } else {
                0int
            },
            all_digits(w.subrange(from - a, i - a)),
            0 <= digits_value(w.subrange(from - a, i - a)),
            digits_value(w.subrange(from - a, i - a)) <= u32::MAX ==> value == digits_value(
                w.subrange(from - a, i - a),
            ),
            digits_value(w.subrange(from - a, i - a)) > u32::MAX ==> value > u32::MAX,
            value <= 10 * u32::MAX + 9,
        decreases b - i,
    {
        let c: u8 = s[i];
        proof {
            assert(w[i - a] == c);
        }
        if !(48 <= c && c <= 57) {
            proof {
                assert(digits[i - from] == c);
                assert(!is_digit(digits[i - from]));
                assert(!all_digits(digits));
            }
            return None;
        }
        proof {
            lemma_digits_push(w, from - a, i - a);
            assert forall|k: int| 0 <= k < i + 1 - from implies is_digit(
                #[trigger] w.subrange(from - a, i + 1 - a)[k],
            ) by {
                if k < i - from {
                    assert(w.subrange(from - a, i - a)[k] == w.subrange(from - a, i + 1 - a)[k]);
                }
            }
        }
        if value <= u32::MAX as u64 {
            value = value * 10 + (c - 48) as u64;
        }
        i = i + 1;
    }
    proof {
        assert(w.subrange(from - a, i - a) =~= digits);
    }
    if i == from || value > u32::MAX as u64 {
        None
    } else {
        Some(value as u32)
    }
}

} // verus!
