//! Positional numerals: writing a code point in base 2 or 16 with a minimum
//! width, and reading one back.
use vstd::prelude::*;

verus! {

/// The largest Unicode code point.
pub const MAX_CODE_POINT: u32 = 0x10FFFF;

/// The character that writes digit `d` (lowercase letters above nine).
pub open spec fn digit_char(d: nat) -> char {
    seq!['0', '1', '2', '3', '4', '5', '6', '7', '8', '9', 'a', 'b', 'c', 'd', 'e', 'f'][d as int]
}

/// The digit a character stands for, in any base up to 36; letters of
/// either case count from ten.
pub open spec fn digit_value(c: char) -> Option<nat> {
    let u = c as int;
    if 0x30 <= u <= 0x39 {
        Some((u - 0x30) as nat)
    } else if 0x61 <= u <= 0x7a {
        Some((u - 0x61 + 10) as nat)
    } else if 0x41 <= u <= 0x5a {
        Some((u - 0x41 + 10) as nat)
    } else {
        None
    }
}

pub open spec fn is_digit(c: char, base: nat) -> bool {
    digit_value(c) matches Some(d) && d < base
}

pub open spec fn all_digits(s: Seq<char>, base: nat) -> bool {
    forall|i: int| 0 <= i < s.len() ==> is_digit(#[trigger] s[i], base)
}

/// The number that a string of digits denotes, most significant first.
pub open spec fn value_of(s: Seq<char>, base: nat) -> nat
    decreases s.len(),
{
    if s.len() == 0 {
        0
    } else {
        value_of(s.drop_last(), base) * base + digit_value(s.last())->0
    }
}

/// What a token reads as: an optional `+`, then one or more digits of the
/// base.
pub open spec fn token_value(t: Seq<char>, base: nat) -> Option<nat> {
    let d = if t.len() > 0 && t[0] == '+' {
        t.drop_first()
    } else {
        t
    };
    if d.len() > 0 && all_digits(d, base) {
        Some(value_of(d, base))
    } else {
        None
    }
}

/// `v` in base `base`, zero-padded on the left to at least `width` digits;
/// zero with width zero is the empty numeral.
pub open spec fn numeral(v: nat, base: nat, width: nat) -> Seq<char>
    decreases v + width,
    via numeral_decreases
{
    if base < 2 || (v == 0 && width == 0) {
        Seq::empty()
    } else {
        numeral(v / base, base, if width == 0 { 0 } else { (width - 1) as nat }).push(
            digit_char(v % base),
        )
    }
}

#[via_fn]
proof fn numeral_decreases(v: nat, base: nat, width: nat) {
    if !(base < 2 || (v == 0 && width == 0)) {
        assert(v / base <= v) by (nonlinear_arith)
            requires
                base >= 2,
        ;
        if v > 0 {
            assert(v / base < v) by (nonlinear_arith)
                requires
                    base >= 2,
                    v > 0,
            ;
        }
    }
}

/// The character for digit `d`.
fn digit_of(d: u32) -> (c: char)
    requires
        d < 16,
    ensures
        c == digit_char(d as nat),
{
    match d {
        0 => '0',
        1 => '1',
        2 => '2',
        3 => '3',
        4 => '4',
        5 => '5',
        6 => '6',
        7 => '7',
        8 => '8',
        9 => '9',
        10 => 'a',
        11 => 'b',
        12 => 'c',
        13 => 'd',
        14 => 'e',
        _ => 'f',
    }
}

/// The digit that `c` stands for, if it is one.
pub fn digit_value_of(c: char) -> (r: Option<u32>)
    ensures
        r matches Some(d) ==> digit_value(c) == Some(d as nat),
        r is None ==> digit_value(c) is None,
{
    let u = c as u32;
    if 0x30 <= u && u <= 0x39 {
        Some(u - 0x30)
    } else if 0x61 <= u && u <= 0x7a {
        Some(u - 0x61 + 10)
    } else if 0x41 <= u && u <= 0x5a {
        Some(u - 0x41 + 10)
    } else {
        None
    }
}

/// Writes `v` in base `base`, with at least `width` digits.
pub fn format_radix(v: u32, base: u32, width: usize) -> (r: Vec<char>)
    requires
        2 <= base <= 16,
    ensures
        r@ == numeral(v as nat, base as nat, width as nat),
    decreases v + width,
{
    if v == 0 && width == 0 {
        return Vec::new();
    }
    let rest: usize = if width == 0 {
        0
    } else {
        width - 1
    };
    proof {
        if v > 0 {
            assert(v / base < v) by (nonlinear_arith)
                requires
                    base >= 2,
                    v > 0,
            ;
        }
        assert(v / base <= v) by (nonlinear_arith)
            requires
                base >= 2,
        ;
    }
    let mut r = format_radix(v / base, base, rest);
    r.push(digit_of(v % base));
    r
}

proof fn lemma_value_step(s: Seq<char>, k: int, base: nat)
    requires
        0 <= k < s.len(),
    ensures
        value_of(s.subrange(0, k + 1), base) == value_of(s.subrange(0, k), base) * base
            + digit_value(s[k])->0,
{
    assert(s.subrange(0, k + 1).drop_last() =~= s.subrange(0, k));
}

/// A string of digits denotes at least what any of its prefixes does.
proof fn lemma_value_prefix(s: Seq<char>, k: int, base: nat)
    requires
        0 <= k <= s.len(),
        base >= 1,
        all_digits(s, base),
    ensures
        value_of(s.subrange(0, k), base) <= value_of(s, base),
    decreases s.len(),
{
    if k < s.len() {
        let p = s.drop_last();
        assert(all_digits(p, base)) by {
            assert forall|i: int| 0 <= i < p.len() implies is_digit(#[trigger] p[i], base) by {
                assert(p[i] == s[i]);
            }
        }
        lemma_value_prefix(p, k, base);
        assert(p.subrange(0, k) =~= s.subrange(0, k));
        let a = value_of(p, base);
        assert(a <= a * base) by (nonlinear_arith)
            requires
                base >= 1,
        ;
    } else {
        assert(s.subrange(0, k) =~= s);
    }
}

/// Reads the token `t[start..end]` in base `base` as a number no larger than
/// the largest code point.
pub fn parse_radix(t: &Vec<char>, start: usize, end: usize, base: u32) -> (r: Option<u32>)
    requires
        start <= end <= t@.len(),
        2 <= base <= 36,
    ensures
        ({
            match token_value(t@.subrange(start as int, end as int), base as nat) {
                Some(v) => if v <= MAX_CODE_POINT {
                    r == Some(v as u32)
                } else {
                    r is None
                },
                None => r is None,
            }
        }),
{
    let ghost tok = t@.subrange(start as int, end as int);
    let mut i: usize = start;
    if i < end && t[i] == '+' {
        i = i + 1;
    }
    let ghost ds = i as int;
    let ghost d = t@.subrange(ds, end as int);
    assert(d =~= (if tok.len() > 0 && tok[0] == '+' { tok.drop_first() } else { tok }));
    if i == end {
        return None;
    }
    let mut acc: u32 = 0;
    while i < end
        invariant
            0 <= ds <= i <= end <= t@.len(),
            d == t@.subrange(ds, end as int),
            d.len() > 0,
            tok == t@.subrange(start as int, end as int),
            d == (if tok.len() > 0 && tok[0] == '+' { tok.drop_first() } else { tok }),
            2 <= base <= 36,
            acc <= MAX_CODE_POINT,
            all_digits(d.subrange(0, i - ds), base as nat),
            acc as nat == value_of(d.subrange(0, i - ds), base as nat),
        decreases end - i,
    {
        let ghost k: int = i - ds;
        assert(d[k] == t@[i as int]);
        let dv = match digit_value_of(t[i]) {
            Some(x) => x,
            None => {
                assert(!is_digit(d[k], base as nat));
                return None;
            },
        };
        if dv >= base {
            assert(!is_digit(d[k], base as nat));
            return None;
        }
        proof {
            lemma_value_step(d, k, base as nat);
            assert(acc * base + dv <= 0x10FFFF * 36 + 35) by (nonlinear_arith)
                requires
                    acc <= 0x10FFFF,
                    base <= 36,
                    dv < base,
            ;
        }
        let next = acc * base + dv;
        assert(all_digits(d.subrange(0, k + 1), base as nat)) by {
            let p = d.subrange(0, k + 1);
            assert forall|j: int| 0 <= j < p.len() implies is_digit(#[trigger] p[j], base as nat) by {
                if j < k {
                    assert(p[j] == d.subrange(0, k)[j]);
                }
            }
        }
        if next > MAX_CODE_POINT {
            proof {
                if all_digits(d, base as nat) {
                    lemma_value_prefix(d, k + 1, base as nat);
                }
            }
            return None;
        }
        acc = next;
        i = i + 1;
    }
    assert(d.subrange(0, i - ds) =~= d);
    Some(acc)
}

} // verus!
