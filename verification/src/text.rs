//! Numbers in sentences.

use vstd::prelude::*;
use vstd::string::StringExecFns;

verus! {

/// The character for one digit, of any base up to sixteen.
pub open spec fn digit(d: int) -> char {
    if d < 10 {
        (48 + d) as char
    } else {
        (87 + d) as char
    }
}

/// `n` in decimal.
pub open spec fn decimal(n: nat) -> Seq<char>
    decreases n,
{
    if n < 10 {
        seq![digit(n as int)]
    } else {
        decimal(n / 10).push(digit((n % 10) as int))
    }
}

/// The low `width` digits of `n` in hexadecimal.
pub open spec fn hexadecimal(n: nat, width: nat) -> Seq<char>
    decreases width,
{
    if width == 0 {
        Seq::empty()
    } else {
        hexadecimal(n / 16, (width - 1) as nat).push(digit((n % 16) as int))
    }
}

/// Append one digit.
fn push_digit(s: &mut String, d: u8)
    requires
        d < 16,
    ensures
        final(s)@ == old(s)@.push(digit(d as int)),
{
    let one: &str = match d {
        0 => "0",
        1 => "1",
        2 => "2",
        3 => "3",
        4 => "4",
        5 => "5",
        6 => "6",
        7 => "7",
        8 => "8",
        9 => "9",
        10 => "a",
        11 => "b",
        12 => "c",
        13 => "d",
        14 => "e",
        _ => "f",
    };
    proof {
        reveal_strlit("0");
        reveal_strlit("1");
        reveal_strlit("2");
        reveal_strlit("3");
        reveal_strlit("4");
        reveal_strlit("5");
        reveal_strlit("6");
        reveal_strlit("7");
        reveal_strlit("8");
        reveal_strlit("9");
        reveal_strlit("a");
        reveal_strlit("b");
        reveal_strlit("c");
        reveal_strlit("d");
        reveal_strlit("e");
        reveal_strlit("f");
        assert(one@ =~= seq![digit(d as int)]);
    }
    s.append(one);
    assert(s@ =~= old(s)@.push(digit(d as int)));
}

/// Append `n` in decimal.
pub fn push_decimal(s: &mut String, n: u128)
    ensures
        final(s)@ == old(s)@ + decimal(n as nat),
    decreases n,
{
    if n >= 10 {
        push_decimal(s, n / 10);
    }
    push_digit(s, (n % 10) as u8);
    assert(s@ =~= old(s)@ + decimal(n as nat));
}

/// Append the low `width` digits of `n` in hexadecimal.
pub fn push_hexadecimal(s: &mut String, n: u64, width: u32)
    ensures
        final(s)@ == old(s)@ + hexadecimal(n as nat, width as nat),
    decreases width,
{
    if width > 0 {
        push_hexadecimal(s, n / 16, width - 1);
        push_digit(s, (n % 16) as u8);
    }
    assert(s@ =~= old(s)@ + hexadecimal(n as nat, width as nat));
}

/// The value of a digit.
pub open spec fn digit_value(c: char) -> int {
    if '0' <= c <= '9' {
        c as int - 48
    } else {
        c as int - 87
    }
}

/// The number that digits of some base say, the first one weighing most.
pub open spec fn number_said(digits: Seq<char>, base: int) -> int
    decreases digits.len(),
{
    if digits.len() == 0 {
        0
    } else {
        number_said(digits.drop_last(), base) * base + digit_value(digits.last())
    }
}

/// A number in decimal says that number, in decimal digits, and does not
/// open with a zero unless it is zero.
pub proof fn law_decimal_says_the_number(n: nat)
    ensures
        number_said(decimal(n), 10) == n,
        decimal(n).len() >= 1,
        n > 0 ==> decimal(n)[0] != '0',
        forall|i: int| 0 <= i < decimal(n).len() ==> '0' <= #[trigger] decimal(n)[i] <= '9',
    decreases n,
{
    if n >= 10 {
        law_decimal_says_the_number(n / 10);
        let front = decimal(n / 10);
        let last = digit((n % 10) as int);
        assert(front.push(last).drop_last() =~= front);
        assert(decimal(n)[0] == front[0]);
    } else {
        assert(decimal(n).drop_last() =~= Seq::<char>::empty());
        reveal_with_fuel(number_said, 2);
    }
}

/// The low digits of a number in hexadecimal say what the number is, less
/// what is above them, and there are as many as asked for.
pub proof fn law_hexadecimal_says_the_low_digits(n: nat, width: nat)
    ensures
        hexadecimal(n, width).len() == width,
        number_said(hexadecimal(n, width), 16) == n as int % vstd::arithmetic::power::pow(
            16,
            width,
        ),
    decreases width,
{
    vstd::arithmetic::power::lemma_pow_positive(16, width);
    if width == 0 {
        vstd::arithmetic::power::lemma_pow0(16);
    } else {
        law_hexadecimal_says_the_low_digits(n / 16, (width - 1) as nat);
        let front = hexadecimal(n / 16, (width - 1) as nat);
        let last = digit((n % 16) as int);
        assert(front.push(last).drop_last() =~= front);
        let p = vstd::arithmetic::power::pow(16, (width - 1) as nat);
        vstd::arithmetic::power::lemma_pow_positive(16, (width - 1) as nat);
        assert(vstd::arithmetic::power::pow(16, width) == 16 * p) by {
            reveal(vstd::arithmetic::power::pow);
        }
        vstd::arithmetic::div_mod::lemma_mod_breakdown(n as int, 16, p);
    }
}

} // verus!
