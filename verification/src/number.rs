//! Decimal numbers: reading a `usize` the way `str::parse::<usize>` does,
//! and writing one in decimal.
use vstd::prelude::*;
use crate::text::push_char;

verus! {

pub open spec fn is_digit(c: char) -> bool {
    '0' <= c && c <= '9'
}

pub open spec fn digit_value(c: char) -> nat {
    (c as u32 - '0' as u32) as nat
}

/// Why a string is not a `usize` (`core::num::IntErrorKind`).
#[derive(Clone, Copy, Debug, PartialEq, Eq, Structural)]
pub enum IntError {
    Empty,
    InvalidDigit,
    PosOverflow,
}

/// Reads the digits `d[i..]` onto the value `acc` read so far, stopping at
/// the first character that is not a digit or that would overflow.
pub open spec fn read_digits(d: Seq<char>, i: int, acc: nat) -> Result<nat, IntError>
    decreases d.len() - i,
{
    if i < 0 || i >= d.len() {
        Ok(acc)
    } else if !is_digit(d[i]) {
        Err(IntError::InvalidDigit)
    } else if acc * 10 + digit_value(d[i]) > usize::MAX {
        Err(IntError::PosOverflow)
    } else {
        read_digits(d, i + 1, acc * 10 + digit_value(d[i]))
    }
}

/// What `str::parse::<usize>` gives for `s`: an optional leading `'+'`,
/// then decimal digits; digits are read left to right and the first
/// non-digit or the first overflow decides the error.
pub open spec fn spec_parse_usize(s: Seq<char>) -> Result<nat, IntError> {
    if s.len() == 0 {
        Err(IntError::Empty)
    } else if s[0] == '+' {
        if s.len() == 1 {
            Err(IntError::InvalidDigit)
        } else {
            read_digits(s, 1, 0)
        }
    } else {
        read_digits(s, 0, 0)
    }
}

/// The decimal digits of `n`, most significant first, no leading zeros.
pub open spec fn decimal(n: nat) -> Seq<char>
    decreases n,
{
    if n < 10 {
        seq![(('0' as u32) + n) as char]
    } else {
        decimal(n / 10).push((('0' as u32) + (n % 10)) as char)
    }
}

/// Reads `s` as a `usize` (`str::parse::<usize>`).
pub fn parse_usize(s: &Vec<char>) -> (r: Result<usize, IntError>)
    ensures
        match r {
            Ok(v) => spec_parse_usize(s@) == Ok::<nat, IntError>(v as nat),
            Err(e) => spec_parse_usize(s@) == Err::<nat, IntError>(e),
        },
{
    let n = s.len();
    if n == 0 {
        return Err(IntError::Empty);
    }
    let mut i: usize = 0;
    if s[0] == '+' {
        if n == 1 {
            return Err(IntError::InvalidDigit);
        }
        i = 1;
    }
    let mut acc: usize = 0;
    while i < n
        invariant
            n == s@.len(),
            0 <= i <= n,
            spec_parse_usize(s@) == read_digits(s@, i as int, acc as nat),
        decreases n - i,
    {
        let c = s[i];
        if !('0' <= c && c <= '9') {
            return Err(IntError::InvalidDigit);
        }
        let d = (c as u32 - '0' as u32) as usize;
        if acc > (usize::MAX - d) / 10 {
            assert(acc * 10 + d > usize::MAX) by (nonlinear_arith)
                requires
                    acc > (usize::MAX - d) / 10,
                    d <= 9,
            ;
            return Err(IntError::PosOverflow);
        }
        assert(acc * 10 + d <= usize::MAX) by (nonlinear_arith)
            requires
                acc <= (usize::MAX - d) / 10,
                d <= 9,
        ;
        acc = acc * 10 + d;
        i += 1;
    }
    Ok(acc)
}

/// Appends `n` written in decimal, as `usize`'s `Display` writes it.
pub fn push_decimal(s: &mut String, n: usize)
    ensures
        final(s)@ == old(s)@ + decimal(n as nat),
    decreases n,
{
    if n >= 10 {
        push_decimal(s, n / 10);
    }
    push_char(s, char_of_digit((n % 10) as u32));
}

/// The decimal digit `d` as a character.
fn char_of_digit(d: u32) -> (c: char)
    requires
        d < 10,
    ensures
        c == (('0' as u32) + d) as char,
{
    match d {
        0 => '0',
        1 => '1',
        2 => '2',
        3 => '3',
        4 => '4',
        5 => '5',
        6 => '6',
        7 => '7',
        8 => '8',
        _ => '9',
    }
}

} // verus!
