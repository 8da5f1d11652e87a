//! Amounts of money as whole cents, and their decimal text.

use vstd::prelude::*;
use crate::text::push_char;

verus! {

/// The character of a decimal digit.
pub open spec fn digit_char(d: nat) -> char {
    if d == 0 {
        '0'
    } else if d == 1 {
        '1'
    } else if d == 2 {
        '2'
    } else if d == 3 {
        '3'
    } else if d == 4 {
        '4'
    } else if d == 5 {
        '5'
    } else if d == 6 {
        '6'
    } else if d == 7 {
        '7'
    } else if d == 8 {
        '8'
    } else {
        '9'
    }
}

/// The decimal numeral of `n`, without leading zeros (`0` is "0").
pub open spec fn decimal_text(n: nat) -> Seq<char>
    decreases n,
{
    if n < 10 {
        seq![digit_char(n)]
    } else {
        decimal_text(n / 10).push(digit_char(n % 10))
    }
}

/// An amount with exactly two decimals: 1250 cents is "12.50".
pub open spec fn fixed_text(cents: nat) -> Seq<char> {
    decimal_text(cents / 100) + seq!['.', digit_char(cents % 100 / 10), digit_char(cents % 10)]
}

/// An amount in its shortest decimal form: 1200 cents is "12", 1250 cents is
/// "12.5", 1234 cents is "12.34".
pub open spec fn plain_text(cents: nat) -> Seq<char> {
    if cents % 100 == 0 {
        decimal_text(cents / 100)
    } else if cents % 10 == 0 {
        decimal_text(cents / 100) + seq!['.', digit_char(cents % 100 / 10)]
    } else {
        fixed_text(cents)
    }
}

/// A signed amount with two decimals; a negative one starts with '-'.
pub open spec fn signed_fixed_text(cents: int) -> Seq<char> {
    if cents < 0 {
        seq!['-'] + fixed_text((-cents) as nat)
    } else {
        fixed_text(cents as nat)
    }
}

/// A signed amount of cents: what is left when expenses are taken from
/// income. It is kept as a sign and a magnitude.
#[derive(Clone, Copy, Debug, PartialEq, Eq, Structural)]
pub struct Balance {
    pub negative: bool,
    pub magnitude: u128,
}

impl Balance {
    /// The amount as an integer.
    pub open spec fn value(self) -> int {
        if self.negative {
            -(self.magnitude as int)
        } else {
            self.magnitude as int
        }
    }

    /// Zero is never marked negative, so each amount has one representation.
    pub open spec fn is_canonical(self) -> bool {
        self.negative ==> self.magnitude > 0
    }

    /// The balance of `income` less `expenses`.
    pub fn between(income: u128, expenses: u128) -> (b: Balance)
        ensures
            b.value() == income as int - expenses as int,
            b.is_canonical(),
    {
        if income >= expenses {
            Balance { negative: false, magnitude: income - expenses }
        } else {
            Balance { negative: true, magnitude: expenses - income }
        }
    }

    /// The balance with two decimals; a negative one starts with '-'.
    pub open spec fn text(self) -> Seq<char> {
        if self.negative {
            seq!['-'] + fixed_text(self.magnitude as nat)
        } else {
            fixed_text(self.magnitude as nat)
        }
    }

    /// The balance with two decimals, as it is shown to a reader.
    pub fn to_fixed(&self) -> (s: String)
        ensures
            s@ == self.text(),
            self.is_canonical() ==> s@ == signed_fixed_text(self.value()),
    {
        let mut s = String::new();
        if self.negative {
            push_char(&mut s, '-');
        }
        push_fixed(&mut s, self.magnitude);
        proof {
            assert(s@ =~= self.text());
        }
        s
    }
}

fn digit_of(d: u8) -> (c: char)
    requires
        d < 10,
    ensures
        c == digit_char(d as nat),
{
    if d == 0 {
        '0'
    } else if d == 1 {
        '1'
    } else if d == 2 {
        '2'
    } else if d == 3 {
        '3'
    } else if d == 4 {
        '4'
    } else if d == 5 {
        '5'
    } else if d == 6 {
        '6'
    } else if d == 7 {
        '7'
    } else if d == 8 {
        '8'
    } else {
        '9'
    }
}

/// Appends the decimal numeral of `n` to `out`.
pub fn push_decimal(out: &mut String, n: u128)
    ensures
        final(out)@ == old(out)@ + decimal_text(n as nat),
    decreases n,
{
    if n >= 10 {
        push_decimal(out, n / 10);
    }
    let d: u8 = (n % 10) as u8;
    push_char(out, digit_of(d));
    proof {
        assert(final(out)@ =~= old(out)@ + decimal_text(n as nat));
    }
}

/// Appends `cents` with exactly two decimals to `out`.
pub fn push_fixed(out: &mut String, cents: u128)
    ensures
        final(out)@ == old(out)@ + fixed_text(cents as nat),
{
    push_decimal(out, cents / 100);
    push_char(out, '.');
    push_char(out, digit_of((cents % 100 / 10) as u8));
    push_char(out, digit_of((cents % 10) as u8));
    proof {
        assert(final(out)@ =~= old(out)@ + fixed_text(cents as nat));
    }
}

/// Appends `cents` in its shortest decimal form to `out`.
pub fn push_plain(out: &mut String, cents: u128)
    ensures
        final(out)@ == old(out)@ + plain_text(cents as nat),
{
    if cents % 100 == 0 {
        push_decimal(out, cents / 100);
    } else if cents % 10 == 0 {
        push_decimal(out, cents / 100);
        push_char(out, '.');
        push_char(out, digit_of((cents % 100 / 10) as u8));
        proof {
            assert(final(out)@ =~= old(out)@ + plain_text(cents as nat));
        }
    } else {
        push_fixed(out, cents);
    }
}

/// The text of `cents` with exactly two decimals.
pub fn format_fixed(cents: u128) -> (s: String)
    ensures
        s@ == fixed_text(cents as nat),
{
    let mut s = String::new();
    push_fixed(&mut s, cents);
    proof {
        assert(s@ =~= fixed_text(cents as nat));
    }
    s
}

/// The text of `cents` in its shortest decimal form.
pub fn format_plain(cents: u128) -> (s: String)
    ensures
        s@ == plain_text(cents as nat),
{
    let mut s = String::new();
    push_plain(&mut s, cents);
    proof {
        assert(s@ =~= plain_text(cents as nat));
    }
    s
}

/// The value of a decimal digit; `None` for any other character.
pub open spec fn digit_value(c: char) -> Option<nat> {
    if c == '0' {
        Some(0)
    } else if c == '1' {
        Some(1)
    } else if c == '2' {
        Some(2)
    } else if c == '3' {
        Some(3)
    } else if c == '4' {
        Some(4)
    } else if c == '5' {
        Some(5)
    } else if c == '6' {
        Some(6)
    } else if c == '7' {
        Some(7)
    } else if c == '8' {
        Some(8)
    } else if c == '9' {
        Some(9)
    } else {
        None
    }
}

/// The value of a decimal digit, and 0 for any other character.
pub open spec fn digit_or_zero(c: char) -> nat {
    match digit_value(c) {
        Some(d) => d,
        None => 0,
    }
}

/// Whether `s` holds decimal digits only.
pub open spec fn all_digits(s: Seq<char>) -> bool {
    forall|i: int| 0 <= i < s.len() ==> digit_value(#[trigger] s[i]) is Some
}

/// The number that the decimal digits of `s` write.
pub open spec fn digits_value(s: Seq<char>) -> nat
    decreases s.len(),
{
    if s.len() == 0 {
        0
    } else {
        10 * digits_value(s.drop_last()) + digit_or_zero(s.last())
    }
}

/// The value of the digit `c`, if it is one.
pub(crate) fn value_of_digit(c: char) -> (d: Option<u8>)
    ensures
        d is Some <==> digit_value(c) is Some,
        d is Some ==> d->0 == digit_value(c)->0 && d->0 < 10,
{
    if c == '0' {
        Some(0)
    } else if c == '1' {
        Some(1)
    } else if c == '2' {
        Some(2)
    } else if c == '3' {
        Some(3)
    } else if c == '4' {
        Some(4)
    } else if c == '5' {
        Some(5)
    } else if c == '6' {
        Some(6)
    } else if c == '7' {
        Some(7)
    } else if c == '8' {
        Some(8)
    } else if c == '9' {
        Some(9)
    } else {
        None
    }
}

/// The numeral of `n` is made of digits, and they write `n`.
pub proof fn law_decimal_text_writes_its_number(n: nat)
    ensures
        decimal_text(n).len() >= 1,
        all_digits(decimal_text(n)),
        digits_value(decimal_text(n)) == n,
    decreases n,
{
    if n < 10 {
        assert(decimal_text(n).drop_last() =~= Seq::<char>::empty());
        assert(digits_value(decimal_text(n).drop_last()) == 0);
    } else {
        law_decimal_text_writes_its_number(n / 10);
        assert(decimal_text(n).drop_last() =~= decimal_text(n / 10));
    }
}

} // verus!
