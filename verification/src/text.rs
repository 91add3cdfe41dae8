//! Numbers in words, as the panels show them.

use vstd::prelude::*;
use vstd::string::*;

verus! {

/// The decimal digits of `n`, most significant first, without leading zeros.
pub open spec fn decimal(n: nat) -> Seq<char>
    decreases n,
{
    if n < 10 {
        seq![digit(n)]
    } else {
        decimal(n / 10).push(digit(n % 10))
    }
}

/// The decimal digit for a number below ten.
pub open spec fn digit(d: nat) -> char
    recommends
        d < 10,
{
    "0123456789"@[d as int]
}

/// The decimal digits of `n`, with a zero in front where there is only one.
pub open spec fn two_digits(n: nat) -> Seq<char> {
    if n < 10 {
        "0"@ + decimal(n)
    } else {
        decimal(n)
    }
}

/// The number that a string of decimal digits stands for.
pub open spec fn number(digits: Seq<char>) -> int
    decreases digits.len(),
{
    if digits.len() == 0 {
        0
    } else {
        10 * number(digits.drop_last()) + (digits.last() as int - '0' as int)
    }
}

/// Writes a number in decimal.
pub fn decimal_string(n: usize) -> (text: String)
    ensures
        text@ == decimal(n as nat),
    decreases n,
{
    let d: usize = n % 10;
    proof {
        reveal_strlit("0123456789");
    }
    let last: &str = "0123456789".substring_char(d, d + 1);
    if n < 10 {
        last.to_owned()
    } else {
        let mut text = decimal_string(n / 10);
        text.append(last);
        text
    }
}

/// Writes a number in decimal, with two digits at least.
pub fn two_digit_string(n: usize) -> (text: String)
    ensures
        text@ == two_digits(n as nat),
{
    if n < 10 {
        let mut text = "0".to_owned();
        text.append(decimal_string(n).as_str());
        text
    } else {
        decimal_string(n)
    }
}

/// The digits that are written for a number read as that number.
pub proof fn law_decimal_reads_back(n: nat)
    ensures
        number(decimal(n)) == n,
    decreases n,
{
    reveal_strlit("0123456789");
    reveal_with_fuel(number, 2);
    if n >= 10 {
        law_decimal_reads_back(n / 10);
        assert(decimal(n).drop_last() == decimal(n / 10));
    }
}

/// Two digits at least are written, and they too read as the number.
pub proof fn law_two_digits_read_back(n: nat)
    ensures
        number(two_digits(n)) == n,
        two_digits(n).len() >= 2,
{
    reveal_strlit("0");
    reveal_strlit("0123456789");
    law_decimal_reads_back(n);
    if n < 10 {
        reveal_with_fuel(number, 3);
        assert(two_digits(n).drop_last() == "0"@);
        assert("0"@.drop_last() == Seq::<char>::empty());
    } else {
        assert(decimal(n / 10).len() > 0);
    }
}

/// Every character is a decimal digit.
pub open spec fn all_digits(text: Seq<char>) -> bool {
    forall|i: int| 0 <= i < text.len() ==> '0' <= #[trigger] text[i] <= '9'
}

/// The digits of a number are digits, at least one, and none of them a zero in front.
pub(crate) proof fn lemma_decimal_is_plain(n: nat)
    ensures
        all_digits(decimal(n)),
        decimal(n).len() >= 1,
        n > 0 ==> decimal(n)[0] != '0',
        n < 10 <==> decimal(n).len() == 1,
    decreases n,
{
    reveal_strlit("0123456789");
    if n >= 10 {
        lemma_decimal_is_plain(n / 10);
    }
}

/// What is written for a number is digits that read as that number, with no zero in front
/// but for zero itself.
pub proof fn law_numbers_are_written_plainly(n: usize, text: String)
    requires
        call_ensures(decimal_string, (n,), text),
    ensures
        all_digits(text@),
        number(text@) == n,
        text@.len() >= 1,
        text@.len() > 1 ==> text@[0] != '0',
{
    lemma_decimal_is_plain(n as nat);
    law_decimal_reads_back(n as nat);
}

/// What is written in two digits at least is digits that read as the number, with a zero
/// in front only to make two of one.
pub proof fn law_numbers_are_padded_to_two(n: usize, text: String)
    requires
        call_ensures(two_digit_string, (n,), text),
    ensures
        is_padded(text@, n as int),
{
    lemma_two_digits_are_padded(n as nat);
}

/// The text is the number in digits, two at least, with no zero in front of more.
pub open spec fn is_padded(text: Seq<char>, n: int) -> bool {
    &&& all_digits(text)
    &&& number(text) == n
    &&& text.len() >= 2
    &&& text.len() > 2 ==> text[0] != '0'
}

/// Two digits at least make a padded text.
pub(crate) proof fn lemma_two_digits_are_padded(n: nat)
    ensures
        is_padded(two_digits(n), n as int),
{
    reveal_strlit("0");
    lemma_decimal_is_plain(n);
    law_two_digits_read_back(n);
}

} // verus!
