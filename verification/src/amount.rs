//! Reading an amount of money from text: a decimal number, with or without
//! a sign, a point and an exponent, that is a whole number of cents.

use vstd::prelude::*;
use vstd::string::StrSliceExecFns;
use crate::money::{
    all_digits, decimal_text, digit_char, digit_value, digits_value, fixed_text,
    law_decimal_text_writes_its_number, plain_text, value_of_digit,
};

verus! {

/// Ten to the power `k`.
pub open spec fn pow10(k: nat) -> nat
    decreases k,
{
    if k == 0 {
        1
    } else {
        10 * pow10((k - 1) as nat)
    }
}

/// Whether `s` holds the digit 0 only.
pub open spec fn all_zeros(s: Seq<char>) -> bool {
    forall|i: int| 0 <= i < s.len() ==> s[i] == '0'
}

/// The number that `digits` write, times ten to the power `shift`, where
/// that is a whole number: below zero, `shift` cuts digits off the end, and
/// they must all be 0.
pub open spec fn scaled_value(digits: Seq<char>, shift: int) -> Option<nat> {
    if shift >= 0 {
        Some(digits_value(digits) * pow10(shift as nat))
    } else {
        let cut = if -shift >= digits.len() {
            0
        } else {
            digits.len() + shift
        };
        if all_zeros(digits.skip(cut)) {
            Some(digits_value(digits.take(cut)))
        } else {
            None
        }
    }
}

/// Where the digits that start at `from` end: the place of the first
/// character at or after `from` that is no digit, or the end of `s`.
pub open spec fn digit_run(s: Seq<char>, from: int) -> int
    decreases s.len() - from,
{
    if 0 <= from < s.len() && digit_value(s[from]) is Some {
        digit_run(s, from + 1)
    } else {
        from
    }
}

/// A plus or a minus.
pub open spec fn is_sign(c: char) -> bool {
    c == '+' || c == '-'
}

/// A decimal number taken apart: its sign, its digits without the point, and
/// the power of ten by which the digits are to be multiplied.
pub struct NumberText {
    pub negative: bool,
    pub digits: Seq<char>,
    pub exponent: int,
}

/// Takes a decimal number apart. The text is a sign or none; digits with a
/// point before, among or after them, or without one, and at least one
/// digit; then the letter e, small or capital, a sign or none, and one or
/// more digits, or nothing. `None` for any other text.
pub open spec fn number_text(s: Seq<char>) -> Option<NumberText> {
    let n = s.len() as int;
    let start: int = if n > 0 && is_sign(s[0]) {
        1
    } else {
        0
    };
    let int_end = digit_run(s, start);
    let frac_start = if int_end < n && s[int_end] == '.' {
        int_end + 1
    } else {
        int_end
    };
    let frac_end = digit_run(s, frac_start);
    let has_exp = frac_end < n && (s[frac_end] == 'e' || s[frac_end] == 'E');
    let exp_signed = has_exp && frac_end + 1 < n && is_sign(s[frac_end + 1]);
    let exp_start = if exp_signed {
        frac_end + 2
    } else if has_exp {
        frac_end + 1
    } else {
        frac_end
    };
    let exp_end = digit_run(s, exp_start);
    let digits = s.subrange(start, int_end) + s.subrange(frac_start, frac_end);
    let written = digits_value(s.subrange(exp_start, exp_end)) as int;
    let exponent = if exp_signed && s[frac_end + 1] == '-' {
        -written
    } else {
        written
    };
    if digits.len() == 0 || exp_end != n || (has_exp && exp_end == exp_start) {
        None
    } else {
        Some(
            NumberText {
                negative: start == 1 && s[0] == '-',
                digits,
                exponent: exponent - (frac_end - frac_start),
            },
        )
    }
}

/// The amount in cents that `s` writes: a decimal number that is a whole
/// number of cents and is not below zero. A minus before a zero is accepted.
/// `None` for any other text.
pub open spec fn amount_of(s: Seq<char>) -> Option<nat> {
    match number_text(s) {
        Some(t) => match scaled_value(t.digits, t.exponent + 2) {
            Some(v) => if t.negative && v > 0 {
                None
            } else {
                Some(v)
            },
            None => None,
        },
        None => None,
    }
}

/// The value that fits in 64 bits, if there is one.
pub open spec fn in_u64(v: Option<nat>) -> Option<u64> {
    match v {
        Some(v) => if v <= u64::MAX {
            Some(v as u64)
        } else {
            None
        },
        None => None,
    }
}

/// The largest value that `value_of_digits` computes: two to the power 100.
const VALUE_CAP: u128 = 0x10_0000_0000_0000_0000_0000_0000;

/// Zeros write the number zero.
proof fn lemma_zeros_write_zero(d: Seq<char>)
    requires
        all_zeros(d),
    ensures
        digits_value(d) == 0,
    decreases d.len(),
{
    if d.len() > 0 {
        lemma_zeros_write_zero(d.drop_last());
    }
}

/// Digits that are not all 0 write a number of at least one.
proof fn lemma_other_digit_writes_more(d: Seq<char>)
    requires
        all_digits(d),
        !all_zeros(d),
    ensures
        digits_value(d) >= 1,
    decreases d.len(),
{
    if d.len() > 0 {
        if d.last() == '0' {
            assert(!all_zeros(d.drop_last())) by {
                if all_zeros(d.drop_last()) {
                    assert forall|i: int| 0 <= i < d.len() implies d[i] == '0' by {
                        if i < d.len() - 1 {
                            assert(d.drop_last()[i] == d[i]);
                        }
                    }
                }
            }
            assert(all_digits(d.drop_last())) by {
                assert forall|i: int| 0 <= i < d.drop_last().len() implies digit_value(
                    #[trigger] d.drop_last()[i],
                ) is Some by {
                    assert(d.drop_last()[i] == d[i]);
                }
            }
            lemma_other_digit_writes_more(d.drop_last());
        }
    }
}

/// Powers of ten grow with the exponent, and each is above its exponent.
proof fn lemma_pow10_grows(a: nat, b: nat)
    requires
        a <= b,
    ensures
        1 <= pow10(a) <= pow10(b),
        b < pow10(b),
    decreases b,
{
    if b > 0 {
        if a < b {
            lemma_pow10_grows(a, (b - 1) as nat);
        } else {
            lemma_pow10_grows((a - 1) as nat, (b - 1) as nat);
        }
    }
}

/// Finds where the digits that start at `from` end.
fn scan_digits(input: &str, from: usize) -> (end: usize)
    requires
        from <= input@.len(),
    ensures
        end == digit_run(input@, from as int),
        from <= end <= input@.len(),
        forall|j: int| from <= j < end ==> digit_value(input@[j]) is Some,
{
    let n = input.unicode_len();
    let mut i = from;
    while i < n
        invariant
            n == input@.len(),
            from <= i <= n,
            digit_run(input@, from as int) == digit_run(input@, i as int),
            forall|j: int| from <= j < i ==> digit_value(input@[j]) is Some,
        ensures
            from <= i <= n,
            digit_run(input@, from as int) == i,
            forall|j: int| from <= j < i ==> digit_value(input@[j]) is Some,
        decreases n - i,
    {
        if value_of_digit(input.get_char(i)).is_none() {
            break ;
        }
        i += 1;
    }
    i
}

/// Appends the characters of `input` from `from` up to `to` to `out`.
fn append_range(out: &mut Vec<char>, input: &str, from: usize, to: usize)
    requires
        from <= to <= input@.len(),
    ensures
        final(out)@ == old(out)@ + input@.subrange(from as int, to as int),
{
    let mut i = from;
    proof {
        assert(out@ =~= old(out)@ + input@.subrange(from as int, from as int));
    }
    while i < to
        invariant
            from <= i <= to <= input@.len(),
            out@ == old(out)@ + input@.subrange(from as int, i as int),
        decreases to - i,
    {
        out.push(input.get_char(i));
        proof {
            assert(out@ =~= old(out)@ + input@.subrange(from as int, i + 1));
        }
        i += 1;
    }
}

/// The number that the first `upto` digits write, unless it is above
/// `VALUE_CAP`.
fn value_of_digits(digits: &Vec<char>, upto: usize) -> (value: Option<u128>)
    requires
        upto <= digits@.len(),
    ensures
        match value {
            Some(v) => v == digits_value(digits@.take(upto as int)) && v <= VALUE_CAP,
            None => digits_value(digits@.take(upto as int)) > VALUE_CAP,
        },
{
    let mut value: u128 = 0;
    let mut big = false;
    let mut i: usize = 0;
    while i < upto
        invariant
            i <= upto <= digits@.len(),
            !big ==> value == digits_value(digits@.take(i as int)) && value <= VALUE_CAP,
            big ==> digits_value(digits@.take(i as int)) > VALUE_CAP,
        decreases upto - i,
    {
        proof {
            assert(digits@.take(i + 1).drop_last() =~= digits@.take(i as int));
            assert(digits@.take(i + 1).last() == digits@[i as int]);
        }
        if !big {
            let d: u8 = match value_of_digit(digits[i]) {
                Some(d) => d,
                None => 0,
            };
            value = 10 * value + d as u128;
            if value > VALUE_CAP {
                big = true;
            }
        }
        i += 1;
    }
    if big {
        None
    } else {
        Some(value)
    }
}

/// Whether all digits from `from` on are 0.
fn only_zeros(digits: &Vec<char>, from: usize) -> (b: bool)
    requires
        from <= digits@.len(),
    ensures
        b == all_zeros(digits@.skip(from as int)),
{
    let mut j = from;
    while j < digits.len()
        invariant
            from <= j <= digits@.len(),
            forall|k: int| from <= k < j ==> digits@[k] == '0',
        decreases digits@.len() - j,
    {
        if digits[j] != '0' {
            proof {
                assert(digits@.skip(from as int)[j - from] == digits@[j as int]);
            }
            return false;
        }
        j += 1;
    }
    proof {
        assert forall|i: int| 0 <= i < digits@.skip(from as int).len() implies digits@.skip(
            from as int,
        )[i] == '0' by {
            assert(digits@.skip(from as int)[i] == digits@[from + i]);
        }
    }
    true
}

/// The digits' number times ten to the power `shift`, where that is a whole
/// number that fits in 64 bits.
fn scaled_cents(digits: &Vec<char>, shift: i128) -> (cents: Option<u64>)
    requires
        -0x40_0000_0000_0000_0000_0000_0000 < shift < 0x40_0000_0000_0000_0000_0000_0000,
    ensures
        cents == in_u64(scaled_value(digits@, shift as int)),
{
    let len = digits.len();
    if shift >= 0 {
        proof {
            assert(digits@.take(len as int) =~= digits@);
            lemma_pow10_grows(0, shift as nat);
        }
        let value = match value_of_digits(digits, len) {
            Some(v) => v,
            None => {
                proof {
                    assert(digits_value(digits@) * pow10(shift as nat) >= digits_value(digits@))
                        by (nonlinear_arith)
                        requires
                            pow10(shift as nat) >= 1,
                    ;
                }
                return None;
            },
        };
        if value == 0 {
            proof {
                assert(0 * pow10(shift as nat) == 0) by (nonlinear_arith);
            }
            return Some(0);
        }
        if value > u64::MAX as u128 {
            proof {
                assert(value * pow10(shift as nat) >= value) by (nonlinear_arith)
                    requires
                        pow10(shift as nat) >= 1,
                ;
            }
            return None;
        }
        let mut cur: u128 = value;
        let mut i: i128 = 0;
        proof {
            assert(value * pow10(0) == value) by (nonlinear_arith)
                requires
                    pow10(0) == 1,
            ;
        }
        while i < shift
            invariant
                0 <= i <= shift,
                value >= 1,
                value == digits_value(digits@),
                cur == value * pow10(i as nat),
                cur <= u64::MAX,
            decreases shift - i,
        {
            proof {
                assert(pow10((i + 1) as nat) == 10 * pow10(i as nat));
                assert(value * pow10((i + 1) as nat) == 10 * (value * pow10(i as nat)))
                    by (nonlinear_arith)
                    requires
                        pow10((i + 1) as nat) == 10 * pow10(i as nat),
                ;
            }
            cur = cur * 10;
            i += 1;
            if cur > u64::MAX as u128 {
                proof {
                    lemma_pow10_grows(i as nat, shift as nat);
                    assert(value * pow10(shift as nat) >= value * pow10(i as nat))
                        by (nonlinear_arith)
                        requires
                            pow10(shift as nat) >= pow10(i as nat),
                    ;
                }
                return None;
            }
        }
        Some(cur as u64)
    } else {
        let back: i128 = -shift;
        let cut: usize = if back >= len as i128 {
            0
        } else {
            len - back as usize
        };
        if !only_zeros(digits, cut) {
            return None;
        }
        match value_of_digits(digits, cut) {
            Some(v) => if v > u64::MAX as u128 {
                None
            } else {
                Some(v as u64)
            },
            None => None,
        }
    }
}

/// A number taken apart, as it was read.
struct NumberParts {
    negative: bool,
    digits: Vec<char>,
    exp_negative: bool,
    exp_digits: Vec<char>,
    frac_len: usize,
}

impl NumberParts {
    spec fn exponent(&self) -> int {
        (if self.exp_negative {
            -(digits_value(self.exp_digits@) as int)
        } else {
            digits_value(self.exp_digits@) as int
        }) - self.frac_len
    }

    spec fn text(&self) -> NumberText {
        NumberText {
            negative: self.negative,
            digits: self.digits@,
            exponent: self.exponent(),
        }
    }
}

/// Takes the text of a number apart, or finds that it is none.
fn split_number(input: &str) -> (parts: Option<NumberParts>)
    ensures
        match parts {
            Some(p) => number_text(input@) == Some(p.text()) && all_digits(p.digits@),
            None => number_text(input@) is None,
        },
{
    let ghost s = input@;
    let n = input.unicode_len();
    let mut start: usize = 0;
    let mut negative = false;
    if n > 0 {
        let c = input.get_char(0);
        if c == '+' || c == '-' {
            start = 1;
            negative = c == '-';
        }
    }
    let int_end = scan_digits(input, start);
    let frac_start = if int_end < n && input.get_char(int_end) == '.' {
        int_end + 1
    } else {
        int_end
    };
    let frac_end = scan_digits(input, frac_start);
    let mut has_exp = false;
    let mut exp_negative = false;
    let mut exp_start = frac_end;
    if frac_end < n {
        let c = input.get_char(frac_end);
        if c == 'e' || c == 'E' {
            has_exp = true;
            exp_start = frac_end + 1;
            if frac_end + 1 < n {
                let sign = input.get_char(frac_end + 1);
                if sign == '+' || sign == '-' {
                    exp_start = frac_end + 2;
                    exp_negative = sign == '-';
                }
            }
        }
    }
    let exp_end = scan_digits(input, exp_start);
    if (int_end - start) + (frac_end - frac_start) == 0 || exp_end != n || (has_exp && exp_end
        == exp_start) {
        return None;
    }
    let mut digits: Vec<char> = Vec::new();
    append_range(&mut digits, input, start, int_end);
    append_range(&mut digits, input, frac_start, frac_end);
    let mut exp_digits: Vec<char> = Vec::new();
    append_range(&mut exp_digits, input, exp_start, exp_end);
    proof {
        assert(digits@ =~= s.subrange(start as int, int_end as int) + s.subrange(
            frac_start as int,
            frac_end as int,
        ));
        assert(exp_digits@ =~= s.subrange(exp_start as int, exp_end as int));
        assert forall|i: int| 0 <= i < digits@.len() implies digit_value(
            #[trigger] digits@[i],
        ) is Some by {
            if i < int_end - start {
                assert(digits@[i] == s[start + i]);
            } else {
                assert(digits@[i] == s[frac_start + (i - (int_end - start))]);
            }
        }
    }
    Some(NumberParts { negative, digits, exp_negative, exp_digits, frac_len: frac_end - frac_start })
}

/// The amount in cents that the parts of a number write. An exponent too
/// large to compute with leaves only the question whether the digits are
/// all 0.
fn cents_of_parts(p: &NumberParts) -> (cents: Option<u64>)
    requires
        all_digits(p.digits@),
    ensures
        cents == in_u64(scaled_value(p.digits@, p.exponent() + 2)),
{
    let ghost shift = p.exponent() + 2;
    let len = p.digits.len();
    proof {
        assert(p.exp_digits@.take(p.exp_digits@.len() as int) =~= p.exp_digits@);
        assert(p.digits@.skip(0) =~= p.digits@);
    }
    match value_of_digits(&p.exp_digits, p.exp_digits.len()) {
        Some(written) => {
            let exponent: i128 = if p.exp_negative {
                -(written as i128)
            } else {
                written as i128
            };
            assert(exponent - p.frac_len as i128 + 2 == shift);
            scaled_cents(&p.digits, exponent - p.frac_len as i128 + 2)
        },
        None => {
            if only_zeros(&p.digits, 0) {
                proof {
                    lemma_zeros_write_zero(p.digits@);
                    if shift >= 0 {
                        assert(0 * pow10(shift as nat) == 0) by (nonlinear_arith);
                    } else {
                        let cut = if -shift >= p.digits@.len() {
                            0
                        } else {
                            p.digits@.len() + shift
                        };
                        lemma_zeros_write_zero(p.digits@.take(cut));
                        assert(all_zeros(p.digits@.skip(cut)));
                    }
                    assert(scaled_value(p.digits@, shift) == Some(0nat));
                }
                Some(0)
            } else {
                proof {
                    if shift >= 0 {
                        lemma_other_digit_writes_more(p.digits@);
                        lemma_pow10_grows(0, shift as nat);
                        assert(digits_value(p.digits@) * pow10(shift as nat) >= pow10(
                            shift as nat,
                        )) by (nonlinear_arith)
                            requires
                                digits_value(p.digits@) >= 1,
                        ;
                        assert(pow10(shift as nat) > u64::MAX);
                    } else {
                        assert(-shift >= p.digits@.len());
                    }
                    assert(in_u64(scaled_value(p.digits@, shift)) is None);
                }
                None
            }
        },
    }
}

/// Reads an amount of money as cents. The text is a decimal number as
/// `number_text` describes it; it must be a whole number of cents, not below
/// zero, and fit in 64 bits. Any other text is no amount.
pub fn parse_amount(input: &str) -> (cents: Option<u64>)
    ensures
        cents == match amount_of(input@) {
            Some(v) => if v <= u64::MAX {
                Some(v as u64)
            } else {
                None
            },
            None => None,
        },
{
    let parts = match split_number(input) {
        Some(parts) => parts,
        None => {
            return None;
        },
    };
    match cents_of_parts(&parts) {
        Some(v) => if parts.negative && v > 0 {
            None
        } else {
            Some(v)
        },
        None => None,
    }
}

/// Digits from `from` up to `end`, and no digit at `end`, are a run that
/// ends at `end`.
proof fn lemma_digit_run_ends(s: Seq<char>, from: int, end: int)
    requires
        0 <= from <= end <= s.len(),
        forall|j: int| from <= j < end ==> digit_value(s[j]) is Some,
        end == s.len() || digit_value(s[end]) is None,
    ensures
        digit_run(s, from) == end,
    decreases end - from,
{
    if from < end {
        lemma_digit_run_ends(s, from + 1, end);
    }
}

/// Digits alone are a number with exponent 0.
proof fn lemma_digits_alone(whole: Seq<char>)
    requires
        whole.len() >= 1,
        all_digits(whole),
    ensures
        number_text(whole) == Some(NumberText { negative: false, digits: whole, exponent: 0 }),
{
    let n = whole.len() as int;
    lemma_digit_run_ends(whole, 0, n);
    lemma_digit_run_ends(whole, n, n);
    assert(whole.subrange(0, n) + whole.subrange(n, n) =~= whole);
    assert(whole.subrange(n, n) =~= Seq::<char>::empty());
}

/// Digits, a point and digits are a number whose exponent is minus the
/// count of digits after the point.
proof fn lemma_digits_with_point(whole: Seq<char>, fraction: Seq<char>)
    requires
        whole.len() >= 1,
        fraction.len() >= 1,
        all_digits(whole),
        all_digits(fraction),
    ensures
        number_text(whole + seq!['.'] + fraction) == Some(
            NumberText {
                negative: false,
                digits: whole + fraction,
                exponent: -(fraction.len() as int),
            },
        ),
{
    let s = whole + seq!['.'] + fraction;
    let w = whole.len() as int;
    let n = s.len() as int;
    assert(s[0] == whole[0]);
    assert forall|j: int| 0 <= j < w implies digit_value(s[j]) is Some by {
        assert(s[j] == whole[j]);
    }
    assert(s[w] == '.');
    lemma_digit_run_ends(s, 0, w);
    assert forall|j: int| w + 1 <= j < n implies digit_value(s[j]) is Some by {
        assert(s[j] == fraction[j - w - 1]);
    }
    lemma_digit_run_ends(s, w + 1, n);
    lemma_digit_run_ends(s, n, n);
    assert(s.subrange(0, w) =~= whole);
    assert(s.subrange(w + 1, n) =~= fraction);
    assert(s.subrange(n, n) =~= Seq::<char>::empty());
}

/// An amount written with two decimals is read back as the same amount.
pub proof fn law_fixed_text_is_read_back(cents: nat)
    ensures
        amount_of(fixed_text(cents)) == Some(cents),
{
    let whole = decimal_text(cents / 100);
    let fraction = seq![digit_char(cents % 100 / 10), digit_char(cents % 10)];
    law_decimal_text_writes_its_number(cents / 100);
    lemma_digits_with_point(whole, fraction);
    assert(fixed_text(cents) =~= whole + seq!['.'] + fraction);
    let digits = whole + fraction;
    let tenths = whole.push(digit_char(cents % 100 / 10));
    assert(tenths.drop_last() =~= whole);
    assert(digits_value(tenths) == 10 * (cents / 100) + cents % 100 / 10);
    assert(digits.drop_last() =~= tenths);
    assert(digits.last() == digit_char(cents % 10));
    assert(digits_value(digits) == 10 * digits_value(tenths) + cents % 10);
    assert(digits_value(digits) == cents);
    assert(pow10(0) == 1);
    assert(digits_value(digits) * pow10(0) == cents) by (nonlinear_arith)
        requires
            pow10(0) == 1,
            digits_value(digits) == cents,
    ;
}

/// An amount without cents, written in its shortest form, is read back.
proof fn lemma_whole_units_are_read_back(cents: nat)
    requires
        cents % 100 == 0,
    ensures
        amount_of(plain_text(cents)) == Some(cents),
{
    let whole = decimal_text(cents / 100);
    law_decimal_text_writes_its_number(cents / 100);
    lemma_digits_alone(whole);
    assert(pow10(2) == 100) by {
        assert(pow10(0) == 1);
        assert(pow10(1) == 10);
    }
    assert(digits_value(whole) * pow10(2) == cents) by (nonlinear_arith)
        requires
            pow10(2) == 100,
            digits_value(whole) == cents / 100,
            cents % 100 == 0,
    ;
}

/// An amount of whole tenths, written in its shortest form, is read back.
proof fn lemma_tenths_are_read_back(cents: nat)
    requires
        cents % 100 != 0,
        cents % 10 == 0,
    ensures
        amount_of(plain_text(cents)) == Some(cents),
{
    let whole = decimal_text(cents / 100);
    let fraction = seq![digit_char(cents % 100 / 10)];
    law_decimal_text_writes_its_number(cents / 100);
    lemma_digits_with_point(whole, fraction);
    assert(plain_text(cents) =~= whole + seq!['.'] + fraction);
    let digits = whole + fraction;
    assert(digits.drop_last() =~= whole);
    assert(digits.last() == digit_char(cents % 100 / 10));
    assert(digits_value(digits) == 10 * (cents / 100) + cents % 100 / 10);
    assert(pow10(1) == 10) by {
        assert(pow10(0) == 1);
    }
    assert(digits_value(digits) * pow10(1) == cents) by (nonlinear_arith)
        requires
            pow10(1) == 10,
            digits_value(digits) == 10 * (cents / 100) + cents % 100 / 10,
            cents % 10 == 0,
    ;
}

/// An amount written in its shortest form is read back as the same amount.
pub proof fn law_plain_text_is_read_back(cents: nat)
    ensures
        amount_of(plain_text(cents)) == Some(cents),
{
    if cents % 100 == 0 {
        lemma_whole_units_are_read_back(cents);
    } else if cents % 10 == 0 {
        lemma_tenths_are_read_back(cents);
    } else {
        law_fixed_text_is_read_back(cents);
    }
}

} // verus!
