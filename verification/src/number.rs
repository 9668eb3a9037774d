//! Decimal numbers in text.

use vstd::prelude::*;

use crate::text::{from_chars, to_chars};

verus! {

/// The digits 0 to 9.
pub open spec fn ascii_digit(c: char) -> bool {
    '0' <= c <= '9'
}

/// Every character of `s` is one of the digits 0 to 9.
pub open spec fn all_digits(s: Seq<char>) -> bool {
    forall|i: int| 0 <= i < s.len() ==> ascii_digit(#[trigger] s[i])
}

/// The number that the decimal digits `s` spell.
pub open spec fn digits_value(s: Seq<char>) -> nat
    decreases s.len(),
{
    if s.len() == 0 {
        0
    } else {
        (digits_value(s.drop_last()) * 10 + (s.last() as u32 - '0' as u32)) as nat
    }
}

/// The digits of `s`: what stands behind the sign, if it has a plus sign.
pub open spec fn unsigned_digits(s: Seq<char>) -> Seq<char> {
    if s.len() > 0 && s[0] == '+' {
        s.skip(1)
    } else {
        s
    }
}

/// The number that `s` spells, if it is one that does not exceed `max`: an
/// optional plus sign and at least one decimal digit.
pub open spec fn unsigned_value(s: Seq<char>, max: nat) -> Option<nat> {
    let d = unsigned_digits(s);
    if d.len() > 0 && all_digits(d) && digits_value(d) <= max {
        Some(digits_value(d))
    } else {
        None
    }
}

/// A longer run of digits spells a number that is at least as large.
proof fn lemma_prefix_value(s: Seq<char>, k: int)
    requires
        0 <= k <= s.len(),
        all_digits(s),
    ensures
        digits_value(s.take(k)) <= digits_value(s),
    decreases s.len() - k,
{
    if k == s.len() {
        assert(s.take(k) =~= s);
    } else {
        lemma_prefix_value(s, k + 1);
        let longer = s.take(k + 1);
        assert(longer.drop_last() =~= s.take(k));
        assert(longer.last() == s[k]);
        assert(ascii_digit(s[k]));
    }
}

/// The number that the characters `from..to` of `v` spell, if it is one that
/// does not exceed `max`.
pub fn parse_range(v: &Vec<char>, from: usize, to: usize, max: u64) -> (r: Option<u64>)
    requires
        from <= to <= v@.len(),
    ensures
        match r {
            Some(n) => unsigned_value(v@.subrange(from as int, to as int), max as nat) == Some(
                n as nat,
            ),
            None => unsigned_value(v@.subrange(from as int, to as int), max as nat) is None,
        },
{
    let ghost s = v@.subrange(from as int, to as int);
    let mut start: usize = from;
    if from < to && v[from] == '+' {
        start = from + 1;
        assert(s.skip(1) =~= v@.subrange(start as int, to as int));
    }
    let ghost d = v@.subrange(start as int, to as int);
    assert(d == unsigned_digits(s)) by {
        if from < to {
            assert(s[0] == v@[from as int]);
        }
    }
    if start == to {
        return None;
    }
    let mut n: u64 = 0;
    let mut i: usize = start;
    assert(d.take(0) =~= Seq::<char>::empty());
    while i < to
        invariant
            from <= start <= i <= to <= v@.len(),
            start < to,
            s == v@.subrange(from as int, to as int),
            d == v@.subrange(start as int, to as int),
            d == unsigned_digits(s),
            n <= max,
            n == digits_value(d.take(i - start)),
            forall|k: int| 0 <= k < i - start ==> ascii_digit(#[trigger] d[k]),
        decreases to - i,
    {
        let c: char = v[i];
        assert(c == d[i - start]);
        if !('0' <= c && c <= '9') {
            return None;
        }
        let digit: u64 = (c as u32 - '0' as u32) as u64;
        proof {
            let longer = d.take(i + 1 - start);
            assert(longer.drop_last() =~= d.take(i - start));
            assert(longer.last() == c);
            if n as int * 10 + digit > max {
                if all_digits(d) {
                    lemma_prefix_value(d, i + 1 - start);
                }
            }
        }
        if n > max / 10 || digit > max - n * 10 {
            return None;
        }
        n = n * 10 + digit;
        i += 1;
    }
    assert(d.take(i - start) =~= d);
    Some(n)
}

/// The number that `s` spells, if it fits in 32 bits.
pub fn parse_u32(s: &str) -> (r: Option<u32>)
    ensures
        match r {
            Some(n) => unsigned_value(s@, u32::MAX as nat) == Some(n as nat),
            None => unsigned_value(s@, u32::MAX as nat) is None,
        },
{
    let v = to_chars(s);
    let n: usize = v.len();
    assert(v@.subrange(0, n as int) =~= s@);
    match parse_range(&v, 0, n, 0xffff_ffff) {
        Some(x) => Some(x as u32),
        None => None,
    }
}

/// The number that `s` spells, if it fits in 16 bits.
pub fn parse_u16(s: &str) -> (r: Option<u16>)
    ensures
        match r {
            Some(n) => unsigned_value(s@, u16::MAX as nat) == Some(n as nat),
            None => unsigned_value(s@, u16::MAX as nat) is None,
        },
{
    let v = to_chars(s);
    let n: usize = v.len();
    assert(v@.subrange(0, n as int) =~= s@);
    match parse_range(&v, 0, n, 0xffff) {
        Some(x) => Some(x as u16),
        None => None,
    }
}

// ---------------------------------------------------------------------------
//  Numbers as text
// ---------------------------------------------------------------------------

/// The character of the digit `d`.
pub open spec fn digit_char(d: nat) -> char {
    ('0' as u32 + d) as char
}

/// `n` in decimal digits, without leading zeros.
pub open spec fn decimal(n: nat) -> Seq<char>
    decreases n,
{
    if n < 10 {
        seq![digit_char(n)]
    } else {
        decimal(n / 10).push(digit_char(n % 10))
    }
}

/// `n` in decimal digits, with a minus sign in front of a negative number.
pub open spec fn signed_decimal(n: int) -> Seq<char> {
    if n < 0 {
        seq!['-'] + decimal((-n) as nat)
    } else {
        decimal(n as nat)
    }
}

/// `n` zeros.
pub open spec fn zeros(n: nat) -> Seq<char> {
    Seq::new(n, |i: int| '0')
}

/// `n` in decimal digits, with zeros in front where it has fewer than `width`.
pub open spec fn padded_decimal(n: nat, width: nat) -> Seq<char> {
    let d = decimal(n);
    if d.len() < width {
        zeros((width - d.len()) as nat) + d
    } else {
        d
    }
}

fn char_of_digit(d: u64) -> (c: char)
    requires
        d < 10,
    ensures
        c == digit_char(d as nat),
{
    match d {
        0 => '0',
        1 => '1',
        2 => '2',
        3 => '3',
        4 => '4',
        5 => '5',
        6 => '6',
        7 => '7',
        8 => '8',
        _ => '9',
    }
}

/// Appends `n` in decimal digits to `v`.
pub fn push_decimal(v: &mut Vec<char>, n: u64)
    ensures
        final(v)@ == old(v)@ + decimal(n as nat),
    decreases n,
{
    if n >= 10 {
        push_decimal(v, n / 10);
    }
    v.push(char_of_digit(n % 10));
    assert(v@ =~= old(v)@ + decimal(n as nat));
}

/// `n` in decimal digits.
pub fn decimal_text(n: u64) -> (s: String)
    ensures
        s@ == decimal(n as nat),
{
    let mut v: Vec<char> = Vec::new();
    push_decimal(&mut v, n);
    let len: usize = v.len();
    assert(v@.subrange(0, len as int) =~= decimal(n as nat));
    from_chars(&v, 0, len)
}

/// `n` in decimal digits, with a minus sign in front of a negative number.
pub fn signed_text(n: i64) -> (s: String)
    ensures
        s@ == signed_decimal(n as int),
{
    let mut v: Vec<char> = Vec::new();
    if n < 0 {
        v.push('-');
        let size: u64 = (-(n as i128)) as u64;
        push_decimal(&mut v, size);
    } else {
        push_decimal(&mut v, n as u64);
    }
    let len: usize = v.len();
    assert(v@ =~= signed_decimal(n as int));
    assert(v@.subrange(0, len as int) =~= v@);
    from_chars(&v, 0, len)
}

/// Appends `n` in at least four decimal digits to `v`.
pub fn push_padded(v: &mut Vec<char>, n: u64)
    ensures
        final(v)@ == old(v)@ + padded_decimal(n as nat, 4),
{
    let mut d: Vec<char> = Vec::new();
    push_decimal(&mut d, n);
    assert(d@ =~= decimal(n as nat));
    let mut missing: usize = if d.len() < 4 { 4 - d.len() } else { 0 };
    let ghost all: nat = missing as nat;
    while missing > 0
        invariant
            missing <= all,
            v@ == old(v)@ + zeros((all - missing) as nat),
        decreases missing,
    {
        v.push('0');
        missing -= 1;
        assert(v@ =~= old(v)@ + zeros((all - missing) as nat));
    }
    assert(v@ == old(v)@ + zeros(all));
    v.append(&mut d);
    assert(v@ =~= old(v)@ + padded_decimal(n as nat, 4));
}

/// The decimal digits of `n` spell `n`.
pub proof fn lemma_decimal_value(n: nat)
    ensures
        decimal(n).len() >= 1,
        all_digits(decimal(n)),
        digits_value(decimal(n)) == n,
    decreases n,
{
    if n < 10 {
        assert(decimal(n).drop_last() =~= Seq::<char>::empty());
        assert(digits_value(Seq::<char>::empty()) == 0);
    } else {
        lemma_decimal_value(n / 10);
        assert(decimal(n).drop_last() =~= decimal(n / 10));
    }
}

/// Zeros in front do not change the number that digits spell.
pub proof fn lemma_leading_zeros(k: nat, d: Seq<char>)
    requires
        all_digits(d),
    ensures
        all_digits(zeros(k) + d),
        digits_value(zeros(k) + d) == digits_value(d),
    decreases k + d.len(),
{
    let s = zeros(k) + d;
    assert forall|i: int| 0 <= i < s.len() implies ascii_digit(#[trigger] s[i]) by {
        if i >= k {
            assert(s[i] == d[i - k]);
        }
    }
    if d.len() > 0 {
        lemma_leading_zeros(k, d.drop_last());
        assert(s.drop_last() =~= zeros(k) + d.drop_last());
        assert(s.last() == d.last());
    } else if k > 0 {
        lemma_leading_zeros((k - 1) as nat, d);
        assert(s.drop_last() =~= zeros((k - 1) as nat) + d);
        assert(s.last() == '0');
    } else {
        assert(s =~= d);
    }
}

/// What is written with leading zeros is read back.
pub proof fn lemma_padded_value(n: nat, width: nat, max: nat)
    requires
        n <= max,
    ensures
        unsigned_value(padded_decimal(n, width), max) == Some(n),
        all_digits(padded_decimal(n, width)),
        padded_decimal(n, width).len() >= 1,
{
    lemma_decimal_value(n);
    let d = decimal(n);
    if d.len() < width {
        lemma_leading_zeros((width - d.len()) as nat, d);
    }
    let s = padded_decimal(n, width);
    assert(ascii_digit(s[0]));
    assert(unsigned_digits(s) == s);
}

// ---------------------------------------------------------------------------
//  Laws
// ---------------------------------------------------------------------------

/// A number is written in the digits 0 to 9, the last one being what is left
/// over by ten, with no zero in front of another digit.
pub proof fn law_decimal(n: nat, d: nat)
    requires
        d < 10,
    ensures
        decimal(d) == seq!["0123456789"@[d as int]],
        n > 0 ==> decimal(10 * n + d) == decimal(n).push("0123456789"@[d as int]),
        n > 0 ==> decimal(n)[0] != '0',
    decreases n,
{
    reveal_strlit("0123456789");
    assert(digit_char(d) == "0123456789"@[d as int]);
    if n > 0 {
        assert((10 * n + d) / 10 == n);
        assert((10 * n + d) % 10 == d);
        if n >= 10 {
            law_decimal(n / 10, 0);
            lemma_decimal_value(n / 10);
        }
    }
}

/// Digits spell a number place by place.
pub proof fn law_digits_value(s: Seq<char>, d: nat)
    requires
        d < 10,
    ensures
        digits_value(s.push("0123456789"@[d as int])) == 10 * digits_value(s) + d,
        digits_value(Seq::<char>::empty()) == 0,
{
    reveal_strlit("0123456789");
    let c = "0123456789"@[d as int];
    assert(c as u32 == '0' as u32 + d);
    assert(s.push(c).drop_last() =~= s);
}

/// A number that is written is read, unless it exceeds the bound; so is one
/// with a plus sign.
pub proof fn law_number_read(n: nat, max: nat)
    ensures
        unsigned_value(decimal(n), max) == if n <= max {
            Some(n)
        } else {
            None
        },
        unsigned_value(seq!['+'] + decimal(n), max) == unsigned_value(decimal(n), max),
{
    lemma_decimal_value(n);
    let d = decimal(n);
    assert(ascii_digit(d[0]));
    assert((seq!['+'] + d).skip(1) =~= d);
}

/// A text without a digit, or with anything but digits behind an optional plus
/// sign, spells no number.
pub proof fn law_no_number(s: Seq<char>, i: int, max: nat)
    requires
        s.len() == 0 || s == seq!['+'] || (0 <= i < s.len() && !('0' <= s[i] <= '9') && !(i == 0
            && s[i] == '+')),
    ensures
        unsigned_value(s, max) is None,
{
    if s == seq!['+'] {
        assert(s.skip(1) =~= Seq::<char>::empty());
    } else if s.len() > 0 {
        if s[0] == '+' {
            assert(s.skip(1)[i - 1] == s[i]);
        }
    }
}

/// Only zeros are put in front of a number, up to the width and no further.
pub proof fn law_padded(n: nat, width: nat)
    ensures
        ({
            let s = padded_decimal(n, width);
            let k = s.len() - decimal(n).len();
            &&& k >= 0
            &&& s.skip(k) == decimal(n)
            &&& forall|i: int| 0 <= i < k ==> #[trigger] s[i] == '0'
            &&& s.len() >= width
            &&& k > 0 ==> s.len() == width
        }),
{
    let s = padded_decimal(n, width);
    assert(s.skip(s.len() - decimal(n).len()) =~= decimal(n));
}

/// A negative number is written as its size behind a minus sign.
pub proof fn law_signed_decimal(n: nat)
    ensures
        signed_decimal(n as int) == decimal(n),
        n > 0 ==> signed_decimal(-n) == seq!['-'] + decimal(n),
{
}

} // verus!
