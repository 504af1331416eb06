//! Decimal notation of lengths.
use vstd::arithmetic::power::pow;
use vstd::prelude::*;
use vstd::string::*;

verus! {

/// The decimal digit of a number below ten.
pub open spec fn digit(d: nat) -> char {
    ('0' as nat + d) as char
}

/// The decimal notation of a number, without leading zeros.
pub open spec fn decimal(n: nat) -> Seq<char>
    decreases n,
{
    if n < 10 {
        seq![digit(n)]
    } else {
        decimal(n / 10).push(digit(n % 10))
    }
}

/// The text of one decimal digit.
fn digit_text(d: usize) -> (text: &'static str)
    requires
        d < 10,
    ensures
        text@ == seq![digit(d as nat)],
{
    proof {
        reveal_strlit("0");
        reveal_strlit("1");
        reveal_strlit("2");
        reveal_strlit("3");
        reveal_strlit("4");
        reveal_strlit("5");
        reveal_strlit("6");
        reveal_strlit("7");
        reveal_strlit("8");
        reveal_strlit("9");
    }
    match d {
        0 => "0",
        1 => "1",
        2 => "2",
        3 => "3",
        4 => "4",
        5 => "5",
        6 => "6",
        7 => "7",
        8 => "8",
        _ => "9",
    }
}

/// Append the decimal notation of `n` to `text`.
pub(crate) fn append_decimal(text: &mut String, n: usize)
    ensures
        final(text)@ == old(text)@ + decimal(n as nat),
    decreases n,
{
    if n >= 10 {
        append_decimal(text, n / 10);
    }
    text.append(digit_text(n % 10));
}

/// The notation is positional: the digit with `i` digits behind it says how many times
/// `10^i` goes into the number, up to tens of it.
pub proof fn law_digits_are_positional(n: nat, i: nat)
    requires
        i < decimal(n).len(),
    ensures
        decimal(n)[decimal(n).len() - 1 - i] as int == '0' as int + (n as int / pow(10, i)) % 10,
    decreases i,
{
    if i == 0 {
        vstd::arithmetic::power::lemma_pow0(10);
        assert(n as int / pow(10, 0) == n as int);
    } else {
        let rest = n / 10;
        law_digits_are_positional(rest, (i - 1) as nat);
        vstd::arithmetic::power::lemma_pow_positive(10, (i - 1) as nat);
        vstd::arithmetic::power::lemma_pow1(10);
        vstd::arithmetic::power::lemma_pow_adds(10, 1, (i - 1) as nat);
        vstd::arithmetic::div_mod::lemma_div_denominator(n as int, 10, pow(10, (i - 1) as nat));
        assert(decimal(n).drop_last() == decimal(rest));
    }
}

/// The notation has no digit too few and, but for zero itself, no leading zero.
pub proof fn law_digits_are_as_many_as_needed(n: nat)
    ensures
        decimal(n).len() > 0,
        n < pow(10, decimal(n).len()),
        n > 0 ==> pow(10, (decimal(n).len() - 1) as nat) <= n,
        n == 0 ==> decimal(n).len() == 1,
    decreases n,
{
    vstd::arithmetic::power::lemma_pow0(10);
    vstd::arithmetic::power::lemma_pow1(10);
    if n >= 10 {
        let rest = n / 10;
        law_digits_are_as_many_as_needed(rest);
        let len = decimal(rest).len();
        assert(decimal(n).len() == len + 1);
        vstd::arithmetic::power::lemma_pow_adds(10, 1, len);
        vstd::arithmetic::power::lemma_pow_adds(10, 1, (len - 1) as nat);
    }
}

} // verus!
