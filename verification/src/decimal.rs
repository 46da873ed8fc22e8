//! Numbers in decimal notation: how they are written and how they are read.

use vstd::prelude::*;
use crate::text::string_of;

verus! {

/// The character for a digit below ten.
pub open spec fn digit(d: nat) -> char {
    ((48 + d) as u8) as char
}

/// A number in decimal notation, without leading zeros.
pub open spec fn decimal(n: nat) -> Seq<char>
    decreases n,
{
    if n < 10 {
        seq![digit(n)]
    } else {
        decimal(n / 10).push(digit(n % 10))
    }
}

/// Whether the character is one of `0` to `9`.
pub open spec fn is_digit(c: char) -> bool {
    48 <= c as u32 <= 57
}

/// The number that a digit stands for; 0 for any other character.
pub open spec fn digit_value(c: char) -> nat {
    if is_digit(c) {
        (c as u32 - 48) as nat
    } else {
        0
    }
}

/// The number that a run of digits stands for in decimal notation.
pub open spec fn value_of(digits: Seq<char>) -> nat
    decreases digits.len(),
{
    if digits.len() == 0 {
        0
    } else {
        value_of(digits.drop_last()) * 10 + digit_value(digits.last())
    }
}

/// Whether the characters are a number as [`decimal`] writes it: at least
/// one digit, nothing but digits, and no zero in front of another digit.
pub open spec fn canonical_number(digits: Seq<char>) -> bool {
    &&& digits.len() >= 1
    &&& forall|i: int| 0 <= i < digits.len() ==> is_digit(#[trigger] digits[i])
    &&& digits.len() > 1 ==> digits[0] != '0'
}

/// A digit's character stands for that digit, and the other way round.
pub proof fn lemma_digits(c: char, d: nat)
    ensures
        is_digit(c) ==> digit_value(c) < 10 && digit(digit_value(c)) == c,
        d < 10 ==> is_digit(digit(d)) && digit_value(digit(d)) == d,
{
    if is_digit(c) {
        let v = digit_value(c);
        assert(48 + v == c as u32);
        let b = (48 + v) as u8;
        assert(b as char == c);
    }
    if d < 10 {
        let b = (48 + d) as u8;
        assert((b as char) as u32 == b);
    }
}

/// What [`decimal`] writes is canonical, and reads back as the number.
pub proof fn lemma_decimal_reads_back(n: nat)
    ensures
        canonical_number(decimal(n)),
        value_of(decimal(n)) == n,
        n >= 1 ==> decimal(n)[0] != '0',
    decreases n,
{
    lemma_digits('0', n % 10);
    if n < 10 {
        let one = decimal(n);
        assert(one.drop_last() =~= Seq::<char>::empty());
        assert(value_of(one.drop_last()) == 0);
        assert(one.last() == digit(n));
    } else {
        lemma_decimal_reads_back(n / 10);
        let all = decimal(n);
        assert(all.drop_last() =~= decimal(n / 10));
        assert(all.last() == digit(n % 10));
        assert(all[0] == decimal(n / 10)[0]);
    }
}

/// A canonical number is what [`decimal`] writes for its value.
pub proof fn lemma_canonical_is_decimal(digits: Seq<char>)
    requires
        canonical_number(digits),
    ensures
        decimal(value_of(digits)) == digits,
        digits[0] != '0' ==> value_of(digits) >= 1,
    decreases digits.len(),
{
    let front = digits.drop_last();
    let last = digits.last();
    assert(is_digit(digits[digits.len() - 1]));
    lemma_digits(last, 0);
    if digits.len() == 1 {
        assert(front =~= Seq::<char>::empty());
        assert(value_of(front) == 0);
        assert(decimal(value_of(digits)) =~= digits);
    } else {
        assert(front[0] == digits[0]);
        assert forall|i: int| 0 <= i < front.len() implies is_digit(#[trigger] front[i]) by {
            assert(front[i] == digits[i]);
        }
        lemma_canonical_is_decimal(front);
        let v = value_of(digits);
        assert(v / 10 == value_of(front));
        assert(v % 10 == digit_value(last));
        assert(decimal(v) =~= digits);
    }
}

/// A longer run of digits stands for no smaller number than its start.
proof fn lemma_value_grows(digits: Seq<char>, k: int)
    requires
        0 <= k <= digits.len(),
    ensures
        value_of(digits.take(k)) <= value_of(digits),
    decreases digits.len() - k,
{
    if k < digits.len() {
        lemma_value_grows(digits, k + 1);
        assert(digits.take(k + 1).drop_last() =~= digits.take(k));
    } else {
        assert(digits.take(k) =~= digits);
    }
}

pub(crate) fn digit_char(d: u8) -> (c: char)
    requires
        d < 10,
    ensures
        c == digit(d as nat),
{
    (48 + d) as char
}

pub(crate) fn is_digit_char(c: char) -> (res: bool)
    ensures
        res == is_digit(c),
{
    let code = c as u32;
    48 <= code && code <= 57
}

/// Appends `n` in decimal notation.
pub(crate) fn push_decimal(out: &mut Vec<char>, n: u64)
    ensures
        final(out)@ == old(out)@ + decimal(n as nat),
    decreases n,
{
    if n >= 10 {
        push_decimal(out, n / 10);
    }
    let ghost before = out@;
    out.push(digit_char((n % 10) as u8));
    assert(out@ =~= old(out)@ + decimal(n as nat));
}

/// A number in decimal notation.
pub fn decimal_string(n: u64) -> (text: String)
    ensures
        text@ == decimal(n as nat),
{
    let mut out: Vec<char> = Vec::new();
    push_decimal(&mut out, n);
    assert(Seq::<char>::empty() + decimal(n as nat) =~= decimal(n as nat));
    string_of(&out)
}

/// Reads the number that stands in `chars` from `from` up to `to`, if the
/// characters there are a canonical number that fits.
pub(crate) fn parse_number(chars: &Vec<char>, from: usize, to: usize) -> (res: Option<usize>)
    requires
        from <= to <= chars.len(),
    ensures
        match res {
            Some(n) => canonical_number(chars@.subrange(from as int, to as int)) && n == value_of(
                chars@.subrange(from as int, to as int),
            ),
            None => !canonical_number(chars@.subrange(from as int, to as int)) || value_of(
                chars@.subrange(from as int, to as int),
            ) > usize::MAX,
        },
{
    let ghost digits = chars@.subrange(from as int, to as int);
    if from == to {
        return None;
    }
    if to - from > 1 && chars[from] == '0' {
        assert(digits[0] == '0');
        return None;
    }
    let mut n: usize = 0;
    let mut at = from;
    while at < to
        invariant
            from <= at <= to <= chars.len(),
            digits == chars@.subrange(from as int, to as int),
            n == value_of(digits.take(at - from)),
            forall|i: int| 0 <= i < at - from ==> is_digit(#[trigger] digits[i]),
        decreases to - at,
    {
        let c = chars[at];
        let code = c as u32;
        if code < 48 || code > 57 {
            assert(!is_digit(digits[at - from]));
            return None;
        }
        let d = (code - 48) as usize;
        proof {
            assert(digits.take(at - from + 1).drop_last() =~= digits.take(at - from));
            assert(digits.take(at - from + 1).last() == c);
            lemma_value_grows(digits, at - from + 1);
        }
        if n > (usize::MAX - d) / 10 {
            return None;
        }
        n = n * 10 + d;
        at += 1;
    }
    assert(digits.take(at - from) =~= digits);
    Some(n)
}

} // verus!
