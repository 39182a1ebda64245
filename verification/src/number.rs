//! Decimal numbers in texts.

use vstd::prelude::*;
use vstd::string::*;

use crate::text::chars_of;

verus! {

/// Why a text is no number.
#[derive(Clone, Copy, Debug, PartialEq, Eq, Structural)]
pub enum NumberFault {
    Empty,
    InvalidDigit,
    TooLarge,
}

pub open spec fn digit_value(c: char) -> Option<nat> {
    if '0' <= c && c <= '9' {
        Some((c as nat - '0' as nat) as nat)
    } else {
        None
    }
}

/// A number whose digits before `i` make up `sofar`.
pub open spec fn number_from(s: Seq<char>, i: int, sofar: nat, max: nat) -> Result<
    nat,
    NumberFault,
>
    decreases s.len() - i,
{
    if i < 0 || i >= s.len() {
        Ok(sofar)
    } else {
        match digit_value(s[i]) {
            None => Err(NumberFault::InvalidDigit),
            Some(d) => if sofar * 10 + d > max {
                Err(NumberFault::TooLarge)
            } else {
                number_from(s, i + 1, sofar * 10 + d, max)
            },
        }
    }
}

/// The number that a text stands for, which may begin with a plus sign.
pub open spec fn number_of(s: Seq<char>, max: nat) -> Result<nat, NumberFault> {
    if s.len() == 0 {
        Err(NumberFault::Empty)
    } else if s[0] == '+' && s.len() > 1 {
        number_from(s, 1, 0, max)
    } else {
        number_from(s, 0, 0, max)
    }
}

/// What came of reading a number.
pub open spec fn number_is(r: Result<u64, NumberFault>, want: Result<nat, NumberFault>) -> bool {
    match r {
        Ok(n) => want == Ok::<nat, NumberFault>(n as nat),
        Err(e) => want == Err::<nat, NumberFault>(e),
    }
}

/// Reads a decimal number of at most `max`.
pub fn parse_number(s: &str, max: u64) -> (r: Result<u64, NumberFault>)
    ensures
        number_is(r, number_of(s@, max as nat)),
{
    let chars = chars_of(s);
    if chars.len() == 0 {
        return Err(NumberFault::Empty);
    }
    let mut i: usize = 0;
    if chars[0] == '+' && chars.len() > 1 {
        i = 1;
    }
    let mut sofar: u64 = 0;
    while i < chars.len()
        invariant
            i <= chars@.len(),
            chars@ == s@,
            sofar <= max,
            number_of(s@, max as nat) == number_from(s@, i as int, sofar as nat, max as nat),
        decreases chars.len() - i,
    {
        let c = chars[i];
        if c < '0' || c > '9' {
            return Err(NumberFault::InvalidDigit);
        }
        let d: u64 = (c as u64) - 48;
        if sofar > max / 10 || d > max - sofar * 10 {
            return Err(NumberFault::TooLarge);
        }
        sofar = sofar * 10 + d;
        i += 1;
    }
    Ok(sofar)
}

pub open spec fn number_fault_text(f: NumberFault) -> Seq<char> {
    match f {
        NumberFault::Empty => "cannot parse integer from empty string"@,
        NumberFault::InvalidDigit => "invalid digit found in string"@,
        NumberFault::TooLarge => "number too large to fit in target type"@,
    }
}

pub fn number_fault(f: NumberFault) -> (r: String)
    ensures
        r@ == number_fault_text(f),
{
    match f {
        NumberFault::Empty => "cannot parse integer from empty string".to_owned(),
        NumberFault::InvalidDigit => "invalid digit found in string".to_owned(),
        NumberFault::TooLarge => "number too large to fit in target type".to_owned(),
    }
}

proof fn one_digit_more(s: Seq<char>, c: char, i: int, sofar: nat, max: nat)
    requires
        0 <= i <= s.len(),
        number_from(s, i, sofar, max) is Ok,
        digit_value(c) is Some,
    ensures
        ({
            let v = number_from(s, i, sofar, max)->Ok_0 * 10 + digit_value(c)->0;
            number_from(s.push(c), i, sofar, max) == (if v > max {
                Err::<nat, NumberFault>(NumberFault::TooLarge)
            } else {
                Ok::<nat, NumberFault>(v)
            })
        }),
    decreases s.len() - i,
{
    let t = s.push(c);
    if i == s.len() {
        assert(t[i] == c);
        reveal_with_fuel(number_from, 2);
    } else {
        assert(t[i] == s[i]);
        one_digit_more(s, c, i + 1, sofar * 10 + digit_value(s[i])->0, max);
    }
}

proof fn too_large_stays(s: Seq<char>, c: char, i: int, sofar: nat, max: nat)
    requires
        0 <= i <= s.len(),
        number_from(s, i, sofar, max) == Err::<nat, NumberFault>(NumberFault::TooLarge),
    ensures
        number_from(s.push(c), i, sofar, max) == Err::<nat, NumberFault>(NumberFault::TooLarge),
    decreases s.len() - i,
{
    let t = s.push(c);
    if i < s.len() {
        assert(t[i] == s[i]);
        if sofar * 10 + digit_value(s[i])->0 <= max {
            too_large_stays(s, c, i + 1, sofar * 10 + digit_value(s[i])->0, max);
        }
    }
}

/// A number that was written in decimal reads back as itself, and is refused as
/// too large exactly where it is above the limit.
pub proof fn written_numbers_read_back(n: nat, max: nat)
    ensures
        number_of(crate::text::decimal(n), max) == (if n > max {
            Err::<nat, NumberFault>(NumberFault::TooLarge)
        } else {
            Ok::<nat, NumberFault>(n)
        }),
{
    decimals_read_back(n, max);
    decimals_are_digits(n);
}

proof fn decimals_are_digits(n: nat)
    ensures
        crate::text::decimal(n).len() > 0,
        digit_value(crate::text::decimal(n)[0]) is Some,
    decreases n,
{
    if n >= 10 {
        decimals_are_digits(n / 10);
    }
}

proof fn decimals_read_back(n: nat, max: nat)
    ensures
        number_from(crate::text::decimal(n), 0, 0, max) == (if n > max {
            Err::<nat, NumberFault>(NumberFault::TooLarge)
        } else {
            Ok::<nat, NumberFault>(n)
        }),
    decreases n,
{
    if n < 10 {
        reveal_with_fuel(number_from, 2);
        assert(digit_value(crate::text::digit(n)) == Some(n));
    } else {
        decimals_read_back(n / 10, max);
        let s = crate::text::decimal(n / 10);
        let c = crate::text::digit(n % 10);
        assert(digit_value(c) == Some(n % 10));
        if n / 10 > max {
            too_large_stays(s, c, 0, 0, max);
        } else {
            one_digit_more(s, c, 0, 0, max);
        }
    }
}

proof fn numbers_stay_small(s: Seq<char>, i: int, sofar: nat, max: nat)
    requires
        sofar <= max,
    ensures
        number_from(s, i, sofar, max) matches Ok(n) ==> n <= max,
    decreases s.len() - i,
{
    if 0 <= i < s.len() {
        match digit_value(s[i]) {
            Some(d) => {
                if sofar * 10 + d <= max {
                    numbers_stay_small(s, i + 1, sofar * 10 + d, max);
                }
            },
            None => {},
        }
    }
}

/// A number that was read is no larger than allowed.
pub proof fn read_numbers_fit(s: Seq<char>, max: nat)
    ensures
        number_of(s, max) matches Ok(n) ==> n <= max,
{
    numbers_stay_small(s, 0, 0, max);
    numbers_stay_small(s, 1, 0, max);
}

} // verus!
