//! Numbers as the interpreter carries them.
//!
//! A [`Number`] is an IEEE 754 binary64 value, a [`Single`] a binary32 value,
//! each held by its bit pattern. The interpreter classifies them and reads
//! small integers out of them; it never does arithmetic on them. This module
//! also recognises the decimal literals that denote a binary64 value, and
//! reads and writes signed decimal integers.

use vstd::prelude::*;

verus! {

/// An IEEE 754 binary64 value, held by its bit pattern.
#[derive(Clone, Copy, Debug, PartialEq, Eq, Structural)]
pub struct Number {
    pub bits: u64,
}

/// An IEEE 754 binary32 value, held by its bit pattern.
#[derive(Clone, Copy, Debug, PartialEq, Eq, Structural)]
pub struct Single {
    pub bits: u32,
}

/// The bit pattern of the binary64 value of a small non-negative integer:
/// sign 0, the biased exponent of its highest set bit, and the bits below
/// that one at the top of the fraction field.
pub open spec fn integer_bits(n: u8) -> u64 {
    if n == 0 {
        0
    } else if n < 2 {
        0x3FF0_0000_0000_0000
    } else if n < 4 {
        (0x4000_0000_0000_0000 + (n - 2) * 0x8_0000_0000_0000) as u64
    } else if n < 8 {
        (0x4010_0000_0000_0000 + (n - 4) * 0x4_0000_0000_0000) as u64
    } else if n < 16 {
        (0x4020_0000_0000_0000 + (n - 8) * 0x2_0000_0000_0000) as u64
    } else if n < 32 {
        (0x4030_0000_0000_0000 + (n - 16) * 0x1_0000_0000_0000) as u64
    } else if n < 64 {
        (0x4040_0000_0000_0000 + (n - 32) * 0x8000_0000_0000) as u64
    } else if n < 128 {
        (0x4050_0000_0000_0000 + (n - 64) * 0x4000_0000_0000) as u64
    } else {
        (0x4060_0000_0000_0000 + (n - 128) * 0x2000_0000_0000) as u64
    }
}

/// The bit pattern of negative zero.
pub open spec fn negative_zero_bits() -> u64 {
    0x8000_0000_0000_0000
}

impl Number {
    /// The bits without the sign bit.
    pub open spec fn magnitude(self) -> u64 {
        if self.bits >= 0x8000_0000_0000_0000 {
            (self.bits - 0x8000_0000_0000_0000) as u64
        } else {
            self.bits
        }
    }

    /// Not a number: the exponent field is all ones and the fraction is not zero.
    pub open spec fn is_nan(self) -> bool {
        self.magnitude() > 0x7FF0_0000_0000_0000
    }

    /// Positive or negative infinity.
    pub open spec fn is_infinite(self) -> bool {
        self.magnitude() == 0x7FF0_0000_0000_0000
    }

    /// Zero, subnormal or normal.
    pub open spec fn is_finite(self) -> bool {
        self.magnitude() < 0x7FF0_0000_0000_0000
    }

    /// The value is the integer `n`; zero may carry either sign.
    pub open spec fn is_integer(self, n: u8) -> bool {
        self.bits == integer_bits(n) || (n == 0 && self.bits == negative_zero_bits())
    }

    /// The colour channel that the value denotes: the integer from 0 to 255
    /// that it equals, if it equals one.
    pub open spec fn channel_of(self) -> Option<u8> {
        if exists|n: u8| self.is_integer(n) {
            Some(choose|n: u8| self.is_integer(n))
        } else {
            None
        }
    }

    /// The canonical quiet NaN.
    pub fn nan() -> (r: Number)
        ensures
            r.bits == 0x7FF8_0000_0000_0000,
            r.is_nan(),
    {
        Number { bits: 0x7FF8_0000_0000_0000 }
    }

    /// Positive zero.
    pub fn zero() -> (r: Number)
        ensures
            r.bits == 0,
            r.is_finite(),
    {
        Number { bits: 0 }
    }

    fn abs_bits(&self) -> (m: u64)
        ensures
            m == self.magnitude(),
    {
        if self.bits >= 0x8000_0000_0000_0000 {
            self.bits - 0x8000_0000_0000_0000
        } else {
            self.bits
        }
    }

    /// Tells whether the value is a NaN.
    pub fn nan_value(&self) -> (b: bool)
        ensures
            b == self.is_nan(),
    {
        self.abs_bits() > 0x7FF0_0000_0000_0000
    }

    /// Tells whether the value is an infinity.
    pub fn infinite_value(&self) -> (b: bool)
        ensures
            b == self.is_infinite(),
    {
        self.abs_bits() == 0x7FF0_0000_0000_0000
    }

    /// Tells whether the value is neither a NaN nor an infinity.
    pub fn finite_value(&self) -> (b: bool)
        ensures
            b == self.is_finite(),
    {
        self.abs_bits() < 0x7FF0_0000_0000_0000
    }

    /// The colour channel that the value denotes: the integer in 0..=255 that
    /// it equals, if it equals one.
    pub fn channel(&self) -> (r: Option<u8>)
        ensures
            r matches Some(n) ==> self.is_integer(n),
            r is None ==> forall|n: u8| !self.is_integer(n),
            r == self.channel_of(),
    {
        if self.bits == 0x8000_0000_0000_0000 {
            assert(self.is_integer(0));
            return Some(0);
        }
        let mut n: u8 = 0;
        loop
            invariant
                self.bits != negative_zero_bits(),
                forall|m: u8| m < n ==> !self.is_integer(m),
            decreases 255 - n,
        {
            if bits_of_integer(n) == self.bits {
                assert(self.is_integer(n));
                return Some(n);
            }
            if n == 255 {
                return None;
            }
            n += 1;
        }
    }
}

/// The binary64 bit pattern of a small non-negative integer.
pub fn bits_of_integer(n: u8) -> (r: u64)
    ensures
        r == integer_bits(n),
{
    let m: u64 = n as u64;
    if n == 0 {
        0
    } else if n < 2 {
        0x3FF0_0000_0000_0000
    } else if n < 4 {
        0x4000_0000_0000_0000 + (m - 2) * 0x8_0000_0000_0000
    } else if n < 8 {
        0x4010_0000_0000_0000 + (m - 4) * 0x4_0000_0000_0000
    } else if n < 16 {
        0x4020_0000_0000_0000 + (m - 8) * 0x2_0000_0000_0000
    } else if n < 32 {
        0x4030_0000_0000_0000 + (m - 16) * 0x1_0000_0000_0000
    } else if n < 64 {
        0x4040_0000_0000_0000 + (m - 32) * 0x8000_0000_0000
    } else if n < 128 {
        0x4050_0000_0000_0000 + (m - 64) * 0x4000_0000_0000
    } else {
        0x4060_0000_0000_0000 + (m - 128) * 0x2000_0000_0000
    }
}

/// Different small integers have different bit patterns, and none of them
/// has the pattern of negative zero: a number denotes at most one channel.
pub proof fn lemma_channel_unique(x: Number, m: u8, n: u8)
    requires
        x.is_integer(m),
        x.is_integer(n),
    ensures
        m == n,
{
}

/// The decimal digits.
pub open spec fn is_digit(c: char) -> bool {
    '0' <= c <= '9'
}

/// The end of the longest run of decimal digits in `s` that starts at `from`.
pub open spec fn digit_run(s: Seq<char>, from: int) -> int
    decreases s.len() - from,
{
    if 0 <= from < s.len() && is_digit(s[from]) {
        digit_run(s, from + 1)
    } else {
        from
    }
}

/// The two signs.
pub open spec fn is_sign(c: char) -> bool {
    c == '+' || c == '-'
}

/// The ASCII lower-case form of a character.
pub open spec fn lower(c: char) -> char {
    if 'A' <= c <= 'Z' {
        ((c as u32) + 32) as char
    } else {
        c
    }
}

/// `s` spells `word` (given in lower case), whatever the case of its letters.
pub open spec fn spells(s: Seq<char>, word: Seq<char>) -> bool {
    s.len() == word.len() && forall|i: int| 0 <= i < s.len() ==> lower(#[trigger] s[i]) == word[i]
}

/// `Exp ::= ('e' | 'E') Sign? Digit+`, to the end of the text.
pub open spec fn is_exponent(s: Seq<char>) -> bool {
    &&& s.len() >= 2
    &&& lower(s[0]) == 'e'
    &&& {
        let start: int = if is_sign(s[1]) {
            2
        } else {
            1
        };
        start < s.len() && digit_run(s, start) == s.len()
    }
}

/// `Number ::= (Digit+ | Digit+ '.' Digit* | Digit* '.' Digit+) Exp?`
pub open spec fn is_decimal(s: Seq<char>) -> bool {
    let whole = digit_run(s, 0);
    let dotted = whole < s.len() && s[whole] == '.';
    let end = if dotted {
        digit_run(s, whole + 1)
    } else {
        whole
    };
    let digits = if dotted {
        end - 1
    } else {
        end
    };
    digits >= 1 && (end == s.len() || is_exponent(s.subrange(end, s.len() as int)))
}

/// The texts that denote a binary64 value:
/// `Sign? ('inf' | 'infinity' | 'nan' | Number)`, letters in either case.
pub open spec fn is_number_literal(s: Seq<char>) -> bool {
    let body = if s.len() > 0 && is_sign(s[0]) {
        s.subrange(1, s.len() as int)
    } else {
        s
    };
    ||| spells(body, seq!['i', 'n', 'f'])
    ||| spells(body, seq!['i', 'n', 'f', 'i', 'n', 'i', 't', 'y'])
    ||| spells(body, seq!['n', 'a', 'n'])
    ||| is_decimal(body)
}

/// A run of digits ends within the text, holds digits only, and is not
/// followed by a digit.
pub proof fn lemma_digit_run(s: Seq<char>, from: int)
    requires
        0 <= from <= s.len(),
    ensures
        from <= digit_run(s, from) <= s.len(),
        forall|j: int| from <= j < digit_run(s, from) ==> is_digit(s[j]),
        digit_run(s, from) < s.len() ==> !is_digit(s[digit_run(s, from)]),
    decreases s.len() - from,
{
    if from < s.len() && is_digit(s[from]) {
        lemma_digit_run(s, from + 1);
    }
}

/// A run of digits is the same run in a tail of the text.
pub proof fn lemma_digit_run_shift(s: Seq<char>, cut: int, from: int)
    requires
        0 <= cut <= s.len(),
        0 <= from <= s.len() - cut,
    ensures
        digit_run(s.subrange(cut, s.len() as int), from) + cut == digit_run(s, from + cut),
    decreases s.len() - cut - from,
{
    let t = s.subrange(cut, s.len() as int);
    if from < t.len() && is_digit(t[from]) {
        lemma_digit_run_shift(s, cut, from + 1);
    }
}

fn digit(c: char) -> (b: bool)
    ensures
        b == is_digit(c),
{
    '0' <= c && c <= '9'
}

/// Tells whether `c` is the letter `small` in either case.
fn letter(c: char, small: char, capital: char) -> (b: bool)
    requires
        'a' <= small <= 'z',
        capital as u32 + 32 == small as u32,
    ensures
        b == (lower(c) == small),
{
    c == small || c == capital
}

fn spells_inf(v: &Vec<char>, from: usize) -> (b: bool)
    requires
        from <= v.len(),
    ensures
        b == spells(v@.subrange(from as int, v.len() as int), seq!['i', 'n', 'f']),
{
    let ghost t = v@.subrange(from as int, v.len() as int);
    if v.len() - from != 3 {
        return false;
    }
    assert(t[0] == v@[from as int] && t[1] == v@[from + 1] && t[2] == v@[from + 2]);
    letter(v[from], 'i', 'I') && letter(v[from + 1], 'n', 'N') && letter(v[from + 2], 'f', 'F')
}

fn spells_nan(v: &Vec<char>, from: usize) -> (b: bool)
    requires
        from <= v.len(),
    ensures
        b == spells(v@.subrange(from as int, v.len() as int), seq!['n', 'a', 'n']),
{
    let ghost t = v@.subrange(from as int, v.len() as int);
    if v.len() - from != 3 {
        return false;
    }
    assert(t[0] == v@[from as int] && t[1] == v@[from + 1] && t[2] == v@[from + 2]);
    letter(v[from], 'n', 'N') && letter(v[from + 1], 'a', 'A') && letter(v[from + 2], 'n', 'N')
}

fn spells_infinity(v: &Vec<char>, from: usize) -> (b: bool)
    requires
        from <= v.len(),
    ensures
        b == spells(
            v@.subrange(from as int, v.len() as int),
            seq!['i', 'n', 'f', 'i', 'n', 'i', 't', 'y'],
        ),
{
    let ghost t = v@.subrange(from as int, v.len() as int);
    if v.len() - from != 8 {
        return false;
    }
    assert(forall|j: int| 0 <= j < 8 ==> t[j] == v@[from + j]);
    assert(t[0] == v@[from as int] && t[1] == v@[from + 1] && t[2] == v@[from + 2] && t[3]
        == v@[from + 3]);
    assert(t[4] == v@[from + 4] && t[5] == v@[from + 5] && t[6] == v@[from + 6] && t[7] == v@[from
        + 7]);
    letter(v[from], 'i', 'I') && letter(v[from + 1], 'n', 'N') && letter(v[from + 2], 'f', 'F')
        && letter(v[from + 3], 'i', 'I') && letter(v[from + 4], 'n', 'N') && letter(
        v[from + 5],
        'i',
        'I',
    ) && letter(v[from + 6], 't', 'T') && letter(v[from + 7], 'y', 'Y')
}

/// The end of the run of digits that starts at `from`.
fn skip_digits(v: &Vec<char>, from: usize) -> (end: usize)
    requires
        from <= v.len(),
    ensures
        end == digit_run(v@, from as int),
        from <= end <= v.len(),
{
    let mut i: usize = from;
    while i < v.len() && digit(v[i])
        invariant
            from <= i <= v.len(),
            digit_run(v@, from as int) == digit_run(v@, i as int),
        decreases v.len() - i,
    {
        i += 1;
    }
    i
}

/// Tells whether the text from `from` on is a decimal number.
fn decimal_from(v: &Vec<char>, from: usize) -> (b: bool)
    requires
        from <= v.len(),
    ensures
        b == is_decimal(v@.subrange(from as int, v.len() as int)),
{
    let ghost t = v@.subrange(from as int, v.len() as int);
    let n = v.len();
    let whole = skip_digits(v, from);
    proof {
        lemma_digit_run_shift(v@, from as int, 0);
    }
    let dotted = whole < n && v[whole] == '.';
    let end = if dotted {
        proof {
            lemma_digit_run_shift(v@, from as int, whole + 1 - from);
        }
        skip_digits(v, whole + 1)
    } else {
        whole
    };
    let digits = if dotted {
        end - from - 1
    } else {
        end - from
    };
    if digits < 1 {
        return false;
    }
    if end == n {
        return true;
    }
    let ghost e = t.subrange(end - from, t.len() as int);
    assert(e == v@.subrange(end as int, n as int));
    if n - end < 2 {
        return false;
    }
    assert(e[0] == v@[end as int] && e[1] == v@[end + 1]);
    if !letter(v[end], 'e', 'E') {
        return false;
    }
    let start = if v[end + 1] == '+' || v[end + 1] == '-' {
        end + 2
    } else {
        end + 1
    };
    if start >= n {
        return false;
    }
    proof {
        lemma_digit_run_shift(v@, end as int, start - end);
    }
    skip_digits(v, start) == n
}

/// Tells whether the text denotes a binary64 value.
pub fn number_literal(v: &Vec<char>) -> (b: bool)
    ensures
        b == is_number_literal(v@),
{
    let from: usize = if v.len() > 0 && (v[0] == '+' || v[0] == '-') {
        1
    } else {
        0
    };
    assert(from == 0 ==> v@.subrange(0, v.len() as int) == v@);
    spells_inf(v, from) || spells_infinity(v, from) || spells_nan(v, from) || decimal_from(v, from)
}

/// The value of a text of decimal digits.
pub open spec fn digits_value(s: Seq<char>) -> nat
    decreases s.len(),
{
    if s.len() == 0 {
        0
    } else {
        digits_value(s.drop_last()) * 10 + (s.last() as u32 - '0' as u32) as nat
    }
}

/// `Sign? Digit+`
pub open spec fn is_integer_literal(s: Seq<char>) -> bool {
    let start: int = if s.len() > 0 && is_sign(s[0]) {
        1
    } else {
        0
    };
    start < s.len() && forall|i: int| start <= i < s.len() ==> is_digit(#[trigger] s[i])
}

/// The integer that a literal denotes.
pub open spec fn literal_value(s: Seq<char>) -> int {
    if s.len() > 0 && s[0] == '-' {
        -(digits_value(s.subrange(1, s.len() as int)) as int)
    } else if s.len() > 0 && s[0] == '+' {
        digits_value(s.subrange(1, s.len() as int)) as int
    } else {
        digits_value(s) as int
    }
}

/// What reading a signed 64-bit integer from `s` yields: its value, if `s`
/// is a literal and the value fits.
pub open spec fn integer_of(s: Seq<char>) -> Option<i64> {
    if is_integer_literal(s) && i64::MIN <= literal_value(s) <= i64::MAX {
        Some(literal_value(s) as i64)
    } else {
        None
    }
}

/// The first digits of a text of digits have no greater value than all of them.
pub proof fn lemma_digits_value_grows(s: Seq<char>, n: int)
    requires
        0 <= n <= s.len(),
        forall|i: int| 0 <= i < s.len() ==> is_digit(#[trigger] s[i]),
    ensures
        digits_value(s.take(n)) <= digits_value(s),
    decreases s.len() - n,
{
    if n < s.len() {
        lemma_digits_value_grows(s, n + 1);
        assert(s.take(n + 1).drop_last() == s.take(n));
    } else {
        assert(s.take(n) == s);
    }
}

/// Reads a signed 64-bit decimal integer.
pub fn parse_integer(v: &Vec<char>) -> (r: Option<i64>)
    ensures
        r == integer_of(v@),
{
    let n = v.len();
    let negative = n > 0 && v[0] == '-';
    let start: usize = if n > 0 && (v[0] == '+' || v[0] == '-') {
        1
    } else {
        0
    };
    if start >= n {
        return None;
    }
    let ghost body = v@.subrange(start as int, n as int);
    let limit: u128 = 0x8000_0000_0000_0000;
    let mut acc: u128 = 0;
    let mut i: usize = start;
    while i < n
        invariant
            start <= i <= n == v.len(),
            body == v@.subrange(start as int, n as int),
            forall|j: int| start <= j < i ==> is_digit(#[trigger] v@[j]),
            acc == digits_value(body.take(i - start)),
            acc <= limit == 0x8000_0000_0000_0000,
            start == (if v@.len() > 0 && is_sign(v@[0]) {
                1int
            } else {
                0int
            }),
        decreases n - i,
    {
        if !digit(v[i]) {
            return None;
        }
        let d: u128 = (v[i] as u32 - '0' as u32) as u128;
        assert(body.take(i + 1 - start).drop_last() == body.take(i - start));
        assert(body.take(i + 1 - start).last() == v@[i as int]);
        acc = acc * 10 + d;
        if acc > limit {
            // every further digit keeps the value above the limit
            let mut k: usize = i + 1;
            while k < n
                invariant
                    start <= i < k <= n == v.len(),
                    forall|j: int| start <= j < k ==> is_digit(#[trigger] v@[j]),
                    body == v@.subrange(start as int, n as int),
                    acc == digits_value(body.take(i + 1 - start)),
                    acc > limit == 0x8000_0000_0000_0000,
                    start == (if v@.len() > 0 && is_sign(v@[0]) {
                        1int
                    } else {
                        0int
                    }),
                decreases n - k,
            {
                if !digit(v[k]) {
                    return None;
                }
                k += 1;
            }
            proof {
                assert forall|j: int| 0 <= j < body.len() implies is_digit(#[trigger] body[j]) by {
                    assert(body[j] == v@[j + start]);
                }
                lemma_digits_value_grows(body, i + 1 - start);
                if start == 0 {
                    assert(body == v@);
                }
            }
            return None;
        }
        i += 1;
    }
    proof {
        assert(body.take(n - start) == body);
        if start == 0 {
            assert(body == v@);
        }
    }
    if negative {
        if acc == limit {
            Some(i64::MIN)
        } else {
            Some(-(acc as i64))
        }
    } else if acc == limit {
        None
    } else {
        Some(acc as i64)
    }
}

/// The decimal digits of a natural number, without leading zeros.
pub open spec fn decimal_digits(n: nat) -> Seq<char>
    decreases n,
{
    if n < 10 {
        seq![(n + '0' as u32) as char]
    } else {
        decimal_digits(n / 10).push((n % 10 + '0' as u32) as char)
    }
}

/// The decimal text of an integer, with `-` in front of a negative one.
pub open spec fn decimal_text(i: int) -> Seq<char> {
    if i < 0 {
        seq!['-'] + decimal_digits((-i) as nat)
    } else {
        decimal_digits(i as nat)
    }
}

fn digit_char(d: u64) -> (c: char)
    requires
        d < 10,
    ensures
        c == (d + '0' as u32) as char,
{
    if d == 0 {
        '0'
    } else if d == 1 {
        '1'
    } else if d == 2 {
        '2'
    } else if d == 3 {
        '3'
    } else if d == 4 {
        '4'
    } else if d == 5 {
        '5'
    } else if d == 6 {
        '6'
    } else if d == 7 {
        '7'
    } else if d == 8 {
        '8'
    } else {
        '9'
    }
}

fn push_digits(n: u64, out: &mut Vec<char>)
    ensures
        final(out)@ == old(out)@ + decimal_digits(n as nat),
    decreases n,
{
    if n < 10 {
        out.push(digit_char(n));
        assert(final(out)@ =~= old(out)@ + decimal_digits(n as nat));
    } else {
        push_digits(n / 10, out);
        out.push(digit_char(n % 10));
        assert(out@ =~= old(out)@ + decimal_digits(n as nat));
    }
}

/// Writes an integer in decimal.
pub fn decimal(i: i64) -> (r: Vec<char>)
    ensures
        r@ == decimal_text(i as int),
{
    let mut r: Vec<char> = Vec::new();
    if i < 0 {
        r.push('-');
        let m: u64 = if i == i64::MIN {
            0x8000_0000_0000_0000
        } else {
            (-i) as u64
        };
        push_digits(m, &mut r);
    } else {
        push_digits(i as u64, &mut r);
        assert(r@ =~= decimal_digits(i as nat));
    }
    r
}

proof fn lemma_decimal_digits(n: nat)
    ensures
        decimal_digits(n).len() >= 1,
        forall|i: int| 0 <= i < decimal_digits(n).len() ==> is_digit(#[trigger] decimal_digits(n)[i]),
        digits_value(decimal_digits(n)) == n,
    decreases n,
{
    if n < 10 {
        let s = decimal_digits(n);
        assert(s.drop_last() =~= Seq::<char>::empty());
        assert(digits_value(s.drop_last()) == 0);
    } else {
        lemma_decimal_digits(n / 10);
        let s = decimal_digits(n);
        assert(s.drop_last() =~= decimal_digits(n / 10));
        assert forall|i: int| 0 <= i < s.len() implies is_digit(#[trigger] s[i]) by {
            if i < s.len() - 1 {
                assert(s[i] == decimal_digits(n / 10)[i]);
            }
        }
    }
}

/// An integer that is written and read again is the same: the decimal text
/// of every 64-bit integer is read as that integer.
pub proof fn lemma_decimal_round_trip(i: i64)
    ensures
        integer_of(decimal_text(i as int)) == Some(i),
{
    let s = decimal_text(i as int);
    if i < 0 {
        let n = (-(i as int)) as nat;
        lemma_decimal_digits(n);
        let d = decimal_digits(n);
        assert(s.subrange(1, s.len() as int) =~= d);
        assert forall|k: int| 1 <= k < s.len() implies is_digit(#[trigger] s[k]) by {
            assert(s[k] == d[k - 1]);
        }
        assert(s[0] == '-');
    } else {
        lemma_decimal_digits(i as nat);
        assert(is_digit(s[0]));
    }
}

} // verus!
