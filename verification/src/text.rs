//! Numerals and other text that the library writes.

use vstd::prelude::*;
use vstd::string::*;

verus! {

/// The texts of a sequence of strings.
pub open spec fn texts(strings: Seq<String>) -> Seq<Seq<char>> {
    strings.map_values(|string: String| string@)
}

/// The character of a decimal digit.
pub open spec fn decimal_digit(d: nat) -> char
    recommends
        d < 10,
{
    (0x30 + d) as u8 as char
}

/// The character of a hexadecimal digit, letters in upper case.
pub open spec fn hex_digit(d: nat) -> char
    recommends
        d < 16,
{
    if d < 10 {
        (0x30 + d) as u8 as char
    } else {
        (0x41 + d - 10) as u8 as char
    }
}

/// The decimal numeral of `n`, without leading zeros.
pub open spec fn decimal(n: nat) -> Seq<char>
    decreases n,
{
    if n < 10 {
        seq![decimal_digit(n)]
    } else {
        decimal(n / 10).push(decimal_digit(n % 10))
    }
}

/// The upper-case hexadecimal numeral of `n`, without leading zeros.
pub open spec fn hex_upper(n: nat) -> Seq<char>
    decreases n,
{
    if n < 16 {
        seq![hex_digit(n)]
    } else {
        hex_upper(n / 16).push(hex_digit(n % 16))
    }
}

/// The hexadecimal numeral of `n`, padded with a zero to two digits.
pub open spec fn hex_upper_two(n: nat) -> Seq<char> {
    if n < 16 {
        seq!['0'].add(hex_upper(n))
    } else {
        hex_upper(n)
    }
}

/// `String::push` appends one character to the end of the string.
pub assume_specification[ String::push ](s: &mut String, c: char)
    ensures
        final(s)@ == old(s)@.push(c),
;

/// Appends the decimal numeral of `n`.
pub fn push_decimal(s: &mut String, n: u64)
    ensures
        final(s)@ == old(s)@.add(decimal(n as nat)),
    decreases n,
{
    if n >= 10 {
        push_decimal(s, n / 10);
    }
    let d: u8 = (n % 10) as u8;
    s.push((0x30u8 + d) as char);
    assert(s@ =~= old(s)@.add(decimal(n as nat)));
}

/// Appends the upper-case hexadecimal numeral of `n`.
pub fn push_hex_upper(s: &mut String, n: u64)
    ensures
        final(s)@ == old(s)@.add(hex_upper(n as nat)),
    decreases n,
{
    if n >= 16 {
        push_hex_upper(s, n / 16);
    }
    let d: u8 = (n % 16) as u8;
    let c: char = if d < 10 {
        (0x30u8 + d) as char
    } else {
        (0x41u8 + (d - 10)) as char
    };
    s.push(c);
    assert(s@ =~= old(s)@.add(hex_upper(n as nat)));
}

/// The decimal numeral of `n`.
pub fn decimal_string(n: u64) -> (numeral: String)
    ensures
        numeral@ == decimal(n as nat),
{
    let mut numeral = String::new();
    push_decimal(&mut numeral, n);
    assert(numeral@ =~= decimal(n as nat));
    numeral
}

/// A hexadecimal numeral has at least one digit, and at least two from 16 on.
pub proof fn lemma_hex_upper_len(n: nat)
    ensures
        hex_upper(n).len() >= 1,
        n >= 16 ==> hex_upper(n).len() >= 2,
    decreases n,
{
    if n >= 16 {
        lemma_hex_upper_len(n / 16);
    }
}

/// A hexadecimal numeral of a number that is not zero does not start with a zero.
pub proof fn lemma_hex_upper_leading(n: nat)
    requires
        n > 0,
    ensures
        hex_upper(n)[0] != '0',
    decreases n,
{
    if n >= 16 {
        lemma_hex_upper_leading(n / 16);
        lemma_hex_upper_len(n / 16);
    }
}

/// Different numbers have different hexadecimal numerals.
pub proof fn lemma_hex_upper_injective(n: nat, m: nat)
    requires
        hex_upper(n) == hex_upper(m),
    ensures
        n == m,
    decreases n,
{
    lemma_hex_upper_len(n);
    lemma_hex_upper_len(m);
    if n >= 16 {
        lemma_hex_upper_len(n / 16);
        lemma_hex_upper_len(m / 16);
        let shorter_n = hex_upper(n / 16);
        let shorter_m = hex_upper(m / 16);
        assert(hex_upper(n).last() == hex_digit(n % 16));
        assert(hex_upper(m).last() == hex_digit(m % 16));
        assert(hex_upper(n).drop_last() =~= shorter_n);
        assert(hex_upper(m).drop_last() =~= shorter_m);
        lemma_hex_upper_injective(n / 16, m / 16);
    } else {
        assert(hex_upper(n)[0] == hex_digit(n));
        assert(hex_upper(m)[0] == hex_digit(m));
    }
}

/// Different numbers have different padded hexadecimal numerals.
pub proof fn lemma_hex_upper_two_injective(n: nat, m: nat)
    requires
        hex_upper_two(n) == hex_upper_two(m),
    ensures
        n == m,
{
    lemma_hex_upper_len(n);
    lemma_hex_upper_len(m);
    if n < 16 && m < 16 {
        assert(hex_upper_two(n)[1] == hex_digit(n));
        assert(hex_upper_two(m)[1] == hex_digit(m));
    } else if n >= 16 && m >= 16 {
        lemma_hex_upper_injective(n, m);
    } else if n < 16 {
        lemma_hex_upper_leading(m);
        assert(hex_upper_two(n)[0] == '0');
    } else {
        lemma_hex_upper_leading(n);
        assert(hex_upper_two(m)[0] == '0');
    }
}

} // verus!
