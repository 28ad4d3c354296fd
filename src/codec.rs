//! Encoding text as numerals in a base, decoding numerals back to text, and
//! the law that decoding undoes encoding.
use vstd::prelude::*;

use crate::radix::{
    all_digits, digit_char, digit_value, format_radix, is_digit, numeral, parse_radix,
    token_value, value_of,
};
use crate::text::{
    char_from_code, chars_of, is_scalar, is_space, is_space_char, lemma_word_len_bound, string_of,
    word_len, words,
};

verus! {

/// The characters of `s`, each written as its code point in base `base`
/// with at least `width` digits, separated by single spaces.
pub open spec fn encoded(s: Seq<char>, base: nat, width: nat) -> Seq<char>
    decreases s.len(),
{
    if s.len() == 0 {
        Seq::empty()
    } else if s.len() == 1 {
        numeral(s[0] as u32 as nat, base, width)
    } else {
        encoded(s.drop_last(), base, width) + seq![' '] + numeral(s.last() as u32 as nat, base, width)
    }
}

pub open spec fn hex_encoded(s: Seq<char>) -> Seq<char> {
    encoded(s, 16, 2)
}

pub open spec fn binary_encoded(s: Seq<char>) -> Seq<char> {
    encoded(s, 2, 8)
}

/// The code point that a token stands for: its value, when that is a
/// Unicode scalar value.
pub open spec fn token_code(t: Seq<char>, base: nat) -> Option<nat> {
    match token_value(t, base) {
        Some(v) => if is_scalar(v) {
            Some(v)
        } else {
            None
        },
        None => None,
    }
}

/// Every whitespace-separated token of `s` stands for a character.
pub open spec fn decodable(s: Seq<char>, base: nat) -> bool {
    forall|i: int| 0 <= i < words(s).len() ==> (#[trigger] token_code(words(s)[i], base)) is Some
}

/// `r` holds, one for each token of `s`, the character it stands for.
pub open spec fn decodes_to(s: Seq<char>, base: nat, r: Seq<char>) -> bool {
    &&& r.len() == words(s).len()
    &&& forall|i: int| 0 <= i < r.len() ==> token_code(words(s)[i], base) == Some(#[trigger] r[i] as u32 as nat)
}

/// A token that does not stand for a character.
#[derive(Debug, Clone, Copy, PartialEq, Eq)]
pub enum DecodeError {
    InvalidEncoding,
}

/// Writes each character of `text` as its code point in base `n`, zero-padded
/// to `width` digits, separated by single spaces.
pub fn encode_ascii_nary(text: &str, n: u32, width: usize) -> (r: String)
    requires
        2 <= n <= 16,
    ensures
        r@ == encoded(text@, n as nat, width as nat),
{
    let chars = chars_of(text);
    let mut out: Vec<char> = Vec::new();
    let mut i: usize = 0;
    while i < chars.len()
        invariant
            i <= chars@.len(),
            chars@ == text@,
            2 <= n <= 16,
            out@ == encoded(chars@.subrange(0, i as int), n as nat, width as nat),
        decreases chars@.len() - i,
    {
        if i > 0 {
            out.push(' ');
        }
        let mut digits = format_radix(chars[i] as u32, n, width);
        out.append(&mut digits);
        proof {
            let p = chars@.subrange(0, i + 1);
            assert(p.drop_last() =~= chars@.subrange(0, i as int));
            if i == 0 {
                assert(out@ =~= numeral(chars@[0] as u32 as nat, n as nat, width as nat));
            }
        }
        i = i + 1;
    }
    assert(chars@.subrange(0, i as int) =~= chars@);
    string_of(&out)
}

proof fn lemma_word_len_exact(u: Seq<char>, k: int)
    requires
        0 <= k <= u.len(),
        forall|m: int| 0 <= m < k ==> !is_space(#[trigger] u[m]),
        k == u.len() || is_space(u[k]),
    ensures
        word_len(u) == k,
    decreases k,
{
    if k > 0 {
        let v = u.drop_first();
        assert forall|m: int| 0 <= m < k - 1 implies !is_space(#[trigger] v[m]) by {
            assert(v[m] == u[m + 1]);
        }
        lemma_word_len_exact(v, k - 1);
    }
}

/// The word that starts at `i` and ends before `j` comes first among the
/// words from `i` on.
proof fn lemma_word_at(s: Seq<char>, i: int, j: int)
    requires
        0 <= i < j <= s.len(),
        forall|m: int| i <= m < j ==> !is_space(#[trigger] s[m]),
        j == s.len() || is_space(s[j]),
    ensures
        words(s.subrange(i, s.len() as int)) == seq![s.subrange(i, j)] + words(
            s.subrange(j, s.len() as int),
        ),
{
    let u = s.subrange(i, s.len() as int);
    assert forall|m: int| 0 <= m < j - i implies !is_space(#[trigger] u[m]) by {
        assert(u[m] == s[i + m]);
    }
    lemma_word_len_exact(u, j - i);
    assert(u.subrange(0, j - i) =~= s.subrange(i, j));
    assert(u.subrange(j - i, u.len() as int) =~= s.subrange(j, s.len() as int));
}

/// Reads each whitespace-separated token of `text` as a number in base `n`
/// (an optional `+`, then digits of either case) and yields the characters
/// with those code points, in order.
pub fn decode_ascii_nary(text: &str, n: u32) -> (r: Result<String, DecodeError>)
    requires
        2 <= n <= 36,
    ensures
        r is Ok <==> decodable(text@, n as nat),
        r matches Ok(s) ==> decodes_to(text@, n as nat, s@),
{
    let chars = chars_of(text);
    let len = chars.len();
    let mut out: Vec<char> = Vec::new();
    let ghost done: Seq<Seq<char>> = Seq::empty();
    let mut i: usize = 0;
    assert(chars@.subrange(0, len as int) =~= chars@);
    while i < len
        invariant
            i <= len == chars@.len(),
            chars@ == text@,
            2 <= n <= 36,
            words(chars@) == done + words(chars@.subrange(i as int, len as int)),
            out@.len() == done.len(),
            forall|k: int|
                0 <= k < done.len() ==> token_code(#[trigger] done[k], n as nat) == Some(
                    out@[k] as u32 as nat,
                ),
        decreases len - i,
    {
        if is_space_char(chars[i]) {
            assert(chars@.subrange(i as int, len as int).drop_first() =~= chars@.subrange(
                i + 1,
                len as int,
            ));
            i = i + 1;
        } else {
            let mut j: usize = i + 1;
            while j < len && !is_space_char(chars[j])
                invariant
                    i < j <= len == chars@.len(),
                    !is_space(chars@[i as int]),
                    forall|m: int| i <= m < j ==> !is_space(#[trigger] chars@[m]),
                decreases len - j,
            {
                j = j + 1;
            }
            let ghost w = chars@.subrange(i as int, j as int);
            proof {
                lemma_word_at(chars@, i as int, j as int);
                assert(words(chars@) == (done + seq![w]) + words(
                    chars@.subrange(j as int, len as int),
                ));
                assert(words(chars@)[done.len() as int] == w);
            }
            let c = match parse_radix(&chars, i, j, n) {
                Some(v) => char_from_code(v),
                None => None,
            };
            match c {
                Some(c) => {
                    assert(token_code(w, n as nat) == Some(c as u32 as nat));
                    out.push(c);
                    proof {
                        done = done.push(w);
                    }
                },
                None => {
                    assert(token_code(words(chars@)[done.len() as int], n as nat) is None);
                    return Err(DecodeError::InvalidEncoding);
                },
            }
            i = j;
        }
    }
    assert(words(chars@.subrange(len as int, len as int)) =~= Seq::<Seq<char>>::empty());
    assert(words(chars@) =~= done);
    Ok(string_of(&out))
}

proof fn lemma_digit_char(d: nat)
    requires
        d < 16,
    ensures
        digit_value(digit_char(d)) == Some(d),
        !is_space(digit_char(d)),
        digit_char(d) != '+',
{
    let ds = seq!['0', '1', '2', '3', '4', '5', '6', '7', '8', '9', 'a', 'b', 'c', 'd', 'e', 'f'];
    assert(digit_char(d) == ds[d as int]);
}

/// A numeral is made of digits of its base, none of them whitespace or `+`,
/// and reads back as the number it writes.
proof fn lemma_numeral(v: nat, base: nat, width: nat)
    requires
        2 <= base <= 16,
    ensures
        all_digits(numeral(v, base, width), base),
        forall|i: int|
            0 <= i < numeral(v, base, width).len() ==> !is_space(
                #[trigger] numeral(v, base, width)[i],
            ) && numeral(v, base, width)[i] != '+',
        value_of(numeral(v, base, width), base) == v,
        width >= 1 ==> numeral(v, base, width).len() >= 1,
    decreases v + width,
{
    let s = numeral(v, base, width);
    if !(v == 0 && width == 0) {
        let rest: nat = if width == 0 {
            0
        } else {
            (width - 1) as nat
        };
        assert(v / base <= v) by (nonlinear_arith)
            requires
                base >= 2,
        ;
        if v > 0 {
            assert(v / base < v) by (nonlinear_arith)
                requires
                    base >= 2,
                    v > 0,
            ;
        }
        let p = numeral(v / base, base, rest);
        lemma_numeral(v / base, base, rest);
        lemma_digit_char(v % base);
        assert(s == p.push(digit_char(v % base)));
        assert(s.drop_last() =~= p);
        assert forall|i: int| 0 <= i < s.len() implies is_digit(#[trigger] s[i], base) && !is_space(
            s[i],
        ) && s[i] != '+' by {
            if i < p.len() {
                assert(s[i] == p[i]);
            }
        }
        assert(v == (v / base) * base + v % base) by (nonlinear_arith)
            requires
                base >= 2,
        ;
    }
}

/// A whitespace-free token is its own single word.
proof fn lemma_words_single(w: Seq<char>)
    requires
        w.len() >= 1,
        forall|i: int| 0 <= i < w.len() ==> !is_space(#[trigger] w[i]),
    ensures
        words(w) == seq![w],
{
    lemma_word_len_exact(w, w.len() as int);
    assert(w.subrange(0, w.len() as int) =~= w);
    assert(words(w.subrange(w.len() as int, w.len() as int)) =~= Seq::<Seq<char>>::empty());
    assert(words(w) =~= seq![w]);
}

proof fn lemma_word_len_sep(x: Seq<char>, y: Seq<char>)
    ensures
        word_len(x + seq![' '] + y) == word_len(x),
    decreases x.len(),
{
    let z = x + seq![' '] + y;
    if x.len() > 0 && !is_space(x[0]) {
        assert(z.drop_first() =~= x.drop_first() + seq![' '] + y);
        lemma_word_len_sep(x.drop_first(), y);
    }
}

/// A space between two texts splits their words cleanly.
proof fn lemma_words_sep(x: Seq<char>, y: Seq<char>)
    ensures
        words(x + seq![' '] + y) == words(x) + words(y),
    decreases x.len(),
{
    let z = x + seq![' '] + y;
    if x.len() == 0 {
        assert(z.drop_first() =~= y);
        assert(words(x) + words(y) =~= words(y));
    } else if is_space(x[0]) {
        assert(z.drop_first() =~= x.drop_first() + seq![' '] + y);
        lemma_words_sep(x.drop_first(), y);
    } else {
        lemma_word_len_sep(x, y);
        lemma_word_len_bound(x);
        let k = word_len(x) as int;
        let xr = x.subrange(k, x.len() as int);
        assert(z.subrange(0, k) =~= x.subrange(0, k));
        assert(z.subrange(k, z.len() as int) =~= xr + seq![' '] + y);
        lemma_words_sep(xr, y);
        assert(words(z) =~= words(x) + words(y));
    }
}

/// The words of an encoded text are the numerals of its characters.
proof fn lemma_words_encoded(t: Seq<char>, base: nat, width: nat)
    requires
        2 <= base <= 16,
        width >= 1,
    ensures
        words(encoded(t, base, width)) == t.map_values(
            |c: char| numeral(c as u32 as nat, base, width),
        ),
    decreases t.len(),
{
    let f = |c: char| numeral(c as u32 as nat, base, width);
    if t.len() == 0 {
        assert(words(encoded(t, base, width)) =~= t.map_values(f));
    } else {
        let last = f(t.last());
        lemma_numeral(t.last() as u32 as nat, base, width);
        lemma_words_single(last);
        if t.len() == 1 {
            assert(t.map_values(f) =~= seq![last]);
        } else {
            let p = t.drop_last();
            lemma_words_encoded(p, base, width);
            lemma_words_sep(encoded(p, base, width), last);
            assert(t.map_values(f) =~= p.map_values(f) + seq![last]);
        }
    }
}

proof fn lemma_char_is_scalar(c: char)
    ensures
        is_scalar(c as u32 as nat),
{
}

/// Decoding undoes encoding, for every text and every base and width the
/// codecs use.
proof fn lemma_round_trip(t: Seq<char>, base: nat, width: nat)
    requires
        2 <= base <= 16,
        width >= 1,
    ensures
        decodable(encoded(t, base, width), base),
        decodes_to(encoded(t, base, width), base, t),
{
    let e = encoded(t, base, width);
    lemma_words_encoded(t, base, width);
    assert forall|i: int| 0 <= i < words(e).len() implies token_code(words(e)[i], base) == Some(
        t[i] as u32 as nat,
    ) by {
        let w = numeral(t[i] as u32 as nat, base, width);
        assert(words(e)[i] == w);
        lemma_numeral(t[i] as u32 as nat, base, width);
        assert(w[0] != '+');
        assert(token_value(w, base) == Some(t[i] as u32 as nat));
        lemma_char_is_scalar(t[i]);
    }
}

/// Hex-decoding the hex encoding of any text gives the text back; in
/// particular this holds of every printable ASCII text.
pub proof fn lemma_hex_round_trip(t: Seq<char>)
    ensures
        decodable(hex_encoded(t), 16),
        decodes_to(hex_encoded(t), 16, t),
{
    lemma_round_trip(t, 16, 2);
}

/// Binary-decoding the binary encoding of any text gives the text back; in
/// particular this holds of every printable ASCII text.
pub proof fn lemma_binary_round_trip(t: Seq<char>)
    ensures
        decodable(binary_encoded(t), 2),
        decodes_to(binary_encoded(t), 2, t),
{
    lemma_round_trip(t, 2, 8);
}

} // verus!
