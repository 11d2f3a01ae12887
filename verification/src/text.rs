//! Decimal numbers as text.

use vstd::prelude::*;

verus! {

/// The character of one decimal digit.
pub open spec fn digit(d: nat) -> char {
    if d == 0 {
        '0'
    } else if d == 1 {
        '1'
    } else if d == 2 {
        '2'
    } else if d == 3 {
        '3'
    } else if d == 4 {
        '4'
    } else if d == 5 {
        '5'
    } else if d == 6 {
        '6'
    } else if d == 7 {
        '7'
    } else if d == 8 {
        '8'
    } else {
        '9'
    }
}

/// The decimal numeral of `n`, without leading zeros.
pub open spec fn decimal(n: nat) -> Seq<char>
    decreases n,
{
    if n < 10 {
        seq![digit(n)]
    } else {
        decimal(n / 10).push(digit(n % 10))
    }
}

/// `count` zeros.
pub open spec fn zeros(count: nat) -> Seq<char> {
    Seq::new(count, |i: int| '0')
}

/// The decimal numeral of `n`, filled with leading zeros up to `width` digits.
pub open spec fn padded(n: nat, width: nat) -> Seq<char> {
    if decimal(n).len() < width {
        zeros((width - decimal(n).len()) as nat) + decimal(n)
    } else {
        decimal(n)
    }
}

/// The value of a digit character.
pub open spec fn digit_value(c: char) -> nat {
    (c as int - '0' as int) as nat
}

/// The number that a numeral stands for.
pub open spec fn value(numeral: Seq<char>) -> nat
    decreases numeral.len(),
{
    if numeral.len() == 0 {
        0
    } else {
        10 * value(numeral.drop_last()) + digit_value(numeral.last())
    }
}

/// Reading a numeral gives back the number it was made from.
pub proof fn decimal_reads_back(n: nat)
    ensures
        value(decimal(n)) == n,
    decreases n,
{
    reveal_with_fuel(value, 2);
    if n < 10 {
        assert(decimal(n).drop_last() =~= Seq::empty());
    } else {
        decimal_reads_back(n / 10);
        assert(decimal(n).drop_last() =~= decimal(n / 10));
    }
}

proof fn lemma_leading_zeros(count: nat, numeral: Seq<char>)
    ensures
        value(zeros(count) + numeral) == value(numeral),
    decreases count + numeral.len(),
{
    let filled = zeros(count) + numeral;
    if numeral.len() > 0 {
        assert(filled.drop_last() =~= zeros(count) + numeral.drop_last());
        lemma_leading_zeros(count, numeral.drop_last());
    } else if count > 0 {
        assert(filled =~= zeros(count));
        assert(filled.drop_last() =~= zeros((count - 1) as nat) + numeral);
        lemma_leading_zeros((count - 1) as nat, numeral);
    } else {
        assert(filled =~= numeral);
    }
}

/// Leading zeros do not change what a numeral stands for, so two numbers never
/// share one.
pub proof fn padded_reads_back(n: nat, width: nat)
    ensures
        value(padded(n, width)) == n,
{
    decimal_reads_back(n);
    lemma_leading_zeros((width - decimal(n).len()) as nat, decimal(n));
}

fn push_digit(text: &mut String, d: u64)
    requires
        d < 10,
    ensures
        final(text)@ == old(text)@.push(digit(d as nat)),
{
    proof {
        reveal_strlit("0");
        reveal_strlit("1");
        reveal_strlit("2");
        reveal_strlit("3");
        reveal_strlit("4");
        reveal_strlit("5");
        reveal_strlit("6");
        reveal_strlit("7");
        reveal_strlit("8");
        reveal_strlit("9");
    }
    let one: &str = if d == 0 {
        "0"
    } else if d == 1 {
        "1"
    } else if d == 2 {
        "2"
    } else if d == 3 {
        "3"
    } else if d == 4 {
        "4"
    } else if d == 5 {
        "5"
    } else if d == 6 {
        "6"
    } else if d == 7 {
        "7"
    } else if d == 8 {
        "8"
    } else {
        "9"
    };
    text.append(one);
    assert(text@ =~= old(text)@.push(digit(d as nat)));
}

/// Appends the decimal numeral of `n`.
pub fn push_decimal(text: &mut String, n: u64)
    ensures
        final(text)@ == old(text)@ + decimal(n as nat),
    decreases n,
{
    if n >= 10 {
        push_decimal(text, n / 10);
    }
    push_digit(text, n % 10);
    assert(text@ =~= old(text)@ + decimal(n as nat));
}

/// Appends the decimal numeral of `n`, filled with leading zeros up to `width` digits.
pub fn push_padded(text: &mut String, n: u64, width: usize)
    ensures
        final(text)@ == old(text)@ + padded(n as nat, width as nat),
{
    let mut digits: usize = 1;
    let mut rest: u64 = n / 10;
    while rest > 0 && digits < width
        invariant
            digits <= width || digits == 1,
            digits + (if rest > 0 { decimal(rest as nat).len() } else { 0 }) == decimal(n as nat).len(),
        decreases rest,
    {
        digits = digits + 1;
        rest = rest / 10;
    }
    let ghost start = text@;
    let mut count: usize = digits;
    while count < width
        invariant
            digits <= count,
            count <= width || count == digits,
            text@ == start + zeros((count - digits) as nat),
        decreases width - count,
    {
        push_digit(text, 0);
        count = count + 1;
        assert(text@ =~= start + zeros((count - digits) as nat));
    }
    push_decimal(text, n);
    assert(text@ =~= start + padded(n as nat, width as nat));
}

/// A numeral ends in the last digit of its number, and in front of that stands the numeral
/// of the rest, if there is any.
pub proof fn decimal_ends_in_last_digit(n: nat)
    ensures
        decimal(n).len() > 0,
        decimal(n).last() as int == '0' as int + n % 10,
        n < 10 ==> decimal(n).len() == 1,
        n >= 10 ==> decimal(n).drop_last() == decimal(n / 10),
{
    if n >= 10 {
        assert(decimal(n).drop_last() =~= decimal(n / 10));
    }
}

/// A padded numeral is the numeral behind as many zeros as are missing.
pub proof fn padding_is_leading_zeros(n: nat, width: nat)
    ensures
        ({
            let text = padded(n, width);
            let digits = decimal(n);
            let fill = text.len() - digits.len();
            &&& text.len() == (if digits.len() < width {
                width
            } else {
                digits.len()
            })
            &&& text.skip(fill) == digits
            &&& forall|i: int| 0 <= i < fill ==> text[i] == '0'
        }),
{
    let text = padded(n, width);
    let fill = text.len() - decimal(n).len();
    assert(text.skip(fill) =~= decimal(n));
}

} // verus!
