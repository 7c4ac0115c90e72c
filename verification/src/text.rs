//! Numbers as text: decimal digits, zero padding, and a count of nanoseconds
//! written as seconds.

use vstd::prelude::*;

verus! {

/// The character of the decimal digit `d`.
pub open spec fn digit_char(d: nat) -> char
    recommends
        d < 10,
{
    if d == 0 {
        '0'
    } else if d == 1 {
        '1'
    } else if d == 2 {
        '2'
    } else if d == 3 {
        '3'
    } else if d == 4 {
        '4'
    } else if d == 5 {
        '5'
    } else if d == 6 {
        '6'
    } else if d == 7 {
        '7'
    } else if d == 8 {
        '8'
    } else {
        '9'
    }
}

/// The decimal digits of `n`, most significant first, with no leading zero
/// but for `0` itself.
pub open spec fn decimal(n: nat) -> Seq<char>
    decreases n,
{
    if n < 10 {
        seq![digit_char(n)]
    } else {
        decimal(n / 10).push(digit_char(n % 10))
    }
}

/// `count` zeros.
pub open spec fn zeros(count: nat) -> Seq<char> {
    Seq::new(count, |i: int| '0')
}

/// The decimal digits of `n`, with zeros in front up to `width` characters; a
/// number with more digits than that is written in full.
pub open spec fn zero_padded(n: nat, width: nat) -> Seq<char> {
    let digits = decimal(n);
    if digits.len() >= width {
        digits
    } else {
        zeros((width - digits.len()) as nat) + digits
    }
}

/// `text` without the zeros at its end.
pub open spec fn strip_zeros(text: Seq<char>) -> Seq<char>
    decreases text.len(),
{
    if text.len() > 0 && text.last() == '0' {
        strip_zeros(text.drop_last())
    } else {
        text
    }
}

/// The nanoseconds in a second.
pub const NANOS_PER_SECOND: u128 = 1_000_000_000;

/// The digits after the decimal point of a time in seconds.
pub const FRACTION_DIGITS: usize = 9;

/// A count of nanoseconds written as seconds: the whole seconds in decimal,
/// and, unless the rest is zero, a point and the nine digits of the
/// nanoseconds without the zeros at their end.
pub open spec fn seconds(nanos: nat) -> Seq<char> {
    let whole = nanos / (NANOS_PER_SECOND as nat);
    let rest = nanos % (NANOS_PER_SECOND as nat);
    if rest == 0 {
        decimal(whole)
    } else {
        decimal(whole) + seq!['.'] + strip_zeros(zero_padded(rest, FRACTION_DIGITS as nat))
    }
}

/// Ten to the power `e`.
pub open spec fn pow10(e: nat) -> nat
    decreases e,
{
    if e == 0 {
        1
    } else {
        10 * pow10((e - 1) as nat)
    }
}

/// One of the ten decimal digits.
pub open spec fn is_digit(c: char) -> bool {
    c == '0' || c == '1' || c == '2' || c == '3' || c == '4' || c == '5' || c == '6' || c == '7'
        || c == '8' || c == '9'
}

/// Text made of decimal digits alone.
pub open spec fn all_digits(text: Seq<char>) -> bool {
    forall|i: int| 0 <= i < text.len() ==> is_digit(#[trigger] text[i])
}

/// Text made of decimal digits and points alone.
pub open spec fn numeric(text: Seq<char>) -> bool {
    forall|i: int| 0 <= i < text.len() ==> is_digit(#[trigger] text[i]) || text[i] == '.'
}

/// A number in decimal is made of digits, and of at least one.
pub proof fn lemma_decimal_digits(n: nat)
    ensures
        decimal(n).len() > 0,
        all_digits(decimal(n)),
    decreases n,
{
    if n >= 10 {
        lemma_decimal_digits(n / 10);
    }
}

/// So is a number padded with zeros.
pub proof fn lemma_zero_padded_digits(n: nat, width: nat)
    ensures
        zero_padded(n, width).len() > 0,
        all_digits(zero_padded(n, width)),
{
    lemma_decimal_digits(n);
}

/// Stripping zeros leaves a prefix of the text.
pub proof fn lemma_strip_zeros_prefix(text: Seq<char>)
    ensures
        strip_zeros(text).len() <= text.len(),
        strip_zeros(text) == text.subrange(0, strip_zeros(text).len() as int),
    decreases text.len(),
{
    if text.len() > 0 && text.last() == '0' {
        lemma_strip_zeros_prefix(text.drop_last());
        let kept = strip_zeros(text.drop_last()).len() as int;
        assert(text.drop_last().subrange(0, kept) =~= text.subrange(0, kept));
    } else {
        assert(text.subrange(0, text.len() as int) =~= text);
    }
}

/// A time in seconds is made of digits and at most one point, and is not empty.
pub proof fn lemma_seconds_numeric(nanos: nat)
    ensures
        seconds(nanos).len() > 0,
        numeric(seconds(nanos)),
{
    let whole = nanos / (NANOS_PER_SECOND as nat);
    let rest = nanos % (NANOS_PER_SECOND as nat);
    lemma_decimal_digits(whole);
    if rest != 0 {
        let padded = zero_padded(rest, FRACTION_DIGITS as nat);
        lemma_zero_padded_digits(rest, FRACTION_DIGITS as nat);
        lemma_strip_zeros_prefix(padded);
        let fraction = strip_zeros(padded);
        assert forall|i: int| 0 <= i < fraction.len() implies is_digit(#[trigger] fraction[i]) by {
            assert(fraction[i] == padded[i]);
        }
    }
}

/// The last digit of a number in decimal is that of its remainder by ten.
pub proof fn lemma_decimal_last(n: nat)
    ensures
        decimal(n).len() > 0,
        decimal(n).last() == digit_char(n % 10),
{
}

/// Ten times a positive number is written as that number and a zero.
pub proof fn lemma_decimal_times_ten(n: nat)
    requires
        n > 0,
    ensures
        decimal(10 * n) == decimal(n).push('0'),
{
    assert((10 * n) / 10 == n);
    assert((10 * n) % 10 == 0);
}

/// With padding, too: ten times a positive number in one more character is
/// that number and a zero.
pub proof fn lemma_zero_padded_times_ten(n: nat, width: nat)
    requires
        n > 0,
    ensures
        zero_padded(10 * n, width + 1) == zero_padded(n, width).push('0'),
{
    lemma_decimal_times_ten(n);
    let digits = decimal(n);
    if digits.len() < width {
        assert(zeros((width - digits.len()) as nat) + digits.push('0') =~= (zeros(
            (width - digits.len()) as nat,
        ) + digits).push('0'));
    }
}

/// Text that does not end in a zero has nothing to strip.
pub proof fn lemma_strip_zeros_of_stripped(n: nat, width: nat)
    requires
        n % 10 != 0,
    ensures
        strip_zeros(zero_padded(n, width)) == zero_padded(n, width),
{
    lemma_decimal_last(n);
    let digits = decimal(n);
    if digits.len() < width {
        assert((zeros((width - digits.len()) as nat) + digits).last() == digits.last());
    }
}

/// The text of one decimal digit.
fn digit_text(d: u8) -> (s: &'static str)
    requires
        d < 10,
    ensures
        s@ == seq![digit_char(d as nat)],
{
    proof {
        reveal_strlit("0");
        reveal_strlit("1");
        reveal_strlit("2");
        reveal_strlit("3");
        reveal_strlit("4");
        reveal_strlit("5");
        reveal_strlit("6");
        reveal_strlit("7");
        reveal_strlit("8");
        reveal_strlit("9");
    }
    let s = if d == 0 {
        "0"
    } else if d == 1 {
        "1"
    } else if d == 2 {
        "2"
    } else if d == 3 {
        "3"
    } else if d == 4 {
        "4"
    } else if d == 5 {
        "5"
    } else if d == 6 {
        "6"
    } else if d == 7 {
        "7"
    } else if d == 8 {
        "8"
    } else {
        "9"
    };
    assert(s@ =~= seq![digit_char(d as nat)]);
    s
}

/// Writes `n` in decimal.
pub fn decimal_text(n: u128) -> (s: String)
    ensures
        s@ == decimal(n as nat),
    decreases n,
{
    if n < 10 {
        digit_text(n as u8).to_owned()
    } else {
        let mut s = decimal_text(n / 10);
        s.append(digit_text((n % 10) as u8));
        assert(s@ =~= decimal((n / 10) as nat).push(digit_char((n % 10) as nat)));
        s
    }
}

/// Writes `n` in decimal, with zeros in front up to `width` characters.
pub fn zero_padded_text(n: u128, width: usize) -> (s: String)
    ensures
        s@ == zero_padded(n as nat, width as nat),
{
    let digits = decimal_text(n);
    let len = digits.as_str().unicode_len();
    let mut s = String::new();
    let mut k = len;
    while k < width
        invariant
            len <= k,
            k == len || k <= width,
            s@ == zeros((k - len) as nat),
        decreases width - k,
    {
        proof {
            reveal_strlit("0");
        }
        s.append("0");
        k = k + 1;
        assert(s@ =~= zeros((k - len) as nat));
    }
    s.append(digits.as_str());
    assert(s@ =~= zero_padded(n as nat, width as nat));
    s
}

/// Writes a count of nanoseconds as seconds.
pub fn seconds_text(nanos: u128) -> (s: String)
    ensures
        s@ == seconds(nanos as nat),
{
    let whole = nanos / NANOS_PER_SECOND;
    let rest = nanos % NANOS_PER_SECOND;
    let mut s = decimal_text(whole);
    if rest != 0 {
        let mut significant = rest;
        let mut width = FRACTION_DIGITS;
        assert(pow10(9) == 1_000_000_000) by {
            reveal_with_fuel(pow10, 10);
        }
        while significant % 10 == 0
            invariant
                0 < significant < pow10(width as nat),
                width <= FRACTION_DIGITS,
                strip_zeros(zero_padded(significant as nat, width as nat)) == strip_zeros(
                    zero_padded(rest as nat, FRACTION_DIGITS as nat),
                ),
            decreases significant,
        {
            proof {
                let shorter = (significant / 10) as nat;
                assert(significant == 10 * shorter);
                assert(width > 0) by {
                    reveal_with_fuel(pow10, 1);
                }
                lemma_zero_padded_times_ten(shorter, (width - 1) as nat);
                let padded = zero_padded(shorter, (width - 1) as nat);
                assert(padded.push('0').drop_last() =~= padded);
            }
            significant = significant / 10;
            width = width - 1;
        }
        proof {
            lemma_strip_zeros_of_stripped(significant as nat, width as nat);
            reveal_strlit(".");
        }
        s.append(".");
        let fraction = zero_padded_text(significant, width);
        s.append(fraction.as_str());
        assert(s@ =~= seconds(nanos as nat));
    }
    s
}

/// The number that a decimal digit stands for.
pub open spec fn digit_of(c: char) -> nat
    recommends
        is_digit(c),
{
    if c == '1' {
        1
    } else if c == '2' {
        2
    } else if c == '3' {
        3
    } else if c == '4' {
        4
    } else if c == '5' {
        5
    } else if c == '6' {
        6
    } else if c == '7' {
        7
    } else if c == '8' {
        8
    } else if c == '9' {
        9
    } else {
        0
    }
}

/// The number that a run of decimal digits stands for, zeros in front allowed.
pub open spec fn digits_value(text: Seq<char>) -> nat
    decreases text.len(),
{
    if text.len() == 0 {
        0
    } else {
        digits_value(text.drop_last()) * 10 + digit_of(text.last())
    }
}

/// The number that `text` is in decimal, if it is one: at least one digit,
/// and nothing but digits.
pub open spec fn decimal_value(text: Seq<char>) -> Option<nat> {
    if text.len() > 0 && all_digits(text) {
        Some(digits_value(text))
    } else {
        None
    }
}

/// `text` cut at every `separator`: one piece more than there are separators.
pub open spec fn split(text: Seq<char>, separator: char) -> Seq<Seq<char>>
    decreases text.len(),
{
    if text.len() == 0 {
        seq![Seq::empty()]
    } else if text.last() == separator {
        split(text.drop_last(), separator).push(Seq::empty())
    } else {
        let before = split(text.drop_last(), separator);
        before.drop_last().push(before.last().push(text.last()))
    }
}

/// The count of nanoseconds that `text` is as a time in seconds, if it is
/// one: a decimal number, or two with a point between them, the second of at
/// most nine digits.
pub open spec fn seconds_value(text: Seq<char>) -> Option<nat> {
    let parts = split(text, '.');
    if parts.len() == 1 {
        match decimal_value(parts[0]) {
            Some(whole) => Some(whole * (NANOS_PER_SECOND as nat)),
            None => None,
        }
    } else if parts.len() == 2 && parts[1].len() <= FRACTION_DIGITS {
        match (decimal_value(parts[0]), decimal_value(parts[1])) {
            (Some(whole), Some(fraction)) => Some(
                whole * (NANOS_PER_SECOND as nat) + fraction * pow10(
                    (FRACTION_DIGITS - parts[1].len()) as nat,
                ),
            ),
            _ => None,
        }
    } else {
        None
    }
}

/// A number written in decimal reads back as itself.
pub proof fn lemma_decimal_value(n: nat)
    ensures
        digits_value(decimal(n)) == n,
        decimal_value(decimal(n)) == Some(n),
    decreases n,
{
    lemma_decimal_digits(n);
    if n < 10 {
        assert(decimal(n).drop_last() =~= Seq::<char>::empty());
        reveal_with_fuel(digits_value, 2);
    } else {
        lemma_decimal_value(n / 10);
        assert(decimal(n).drop_last() =~= decimal(n / 10));
    }
}

/// Zeros stand for nothing.
pub proof fn lemma_zeros_value(count: nat)
    ensures
        digits_value(zeros(count)) == 0,
    decreases count,
{
    if count > 0 {
        lemma_zeros_value((count - 1) as nat);
        assert(zeros(count).drop_last() =~= zeros((count - 1) as nat));
    }
}

/// Digits written after others shift those by a power of ten.
pub proof fn lemma_digits_value_concat(front: Seq<char>, back: Seq<char>)
    ensures
        digits_value(front + back) == digits_value(front) * pow10(back.len()) + digits_value(back),
    decreases back.len(),
{
    let high = digits_value(front);
    if back.len() == 0 {
        assert(front + back =~= front);
        assert(pow10(0) == 1);
        assert(high * 1 == high);
    } else {
        let shorter = back.drop_last();
        lemma_digits_value_concat(front, shorter);
        assert((front + back).drop_last() =~= front + shorter);
        assert((front + back).last() == back.last());
        let shift = pow10(shorter.len());
        assert(pow10(back.len()) == 10 * shift);
        assert((high * shift) * 10 == high * (10 * shift)) by (nonlinear_arith);
        assert(digits_value(front + back) == (high * shift + digits_value(shorter)) * 10 + digit_of(
            back.last(),
        ));
    }
}

/// A number padded with zeros reads back as itself.
pub proof fn lemma_zero_padded_value(n: nat, width: nat)
    ensures
        digits_value(zero_padded(n, width)) == n,
{
    lemma_decimal_value(n);
    let digits = decimal(n);
    if digits.len() < width {
        let padding = zeros((width - digits.len()) as nat);
        lemma_zeros_value((width - digits.len()) as nat);
        lemma_digits_value_concat(padding, digits);
        assert(0 * pow10(digits.len()) == 0);
    }
}

/// Each zero stripped from the end was a factor of ten.
pub proof fn lemma_strip_zeros_value(text: Seq<char>)
    ensures
        strip_zeros(text).len() <= text.len(),
        digits_value(text) == digits_value(strip_zeros(text)) * pow10(
            (text.len() - strip_zeros(text).len()) as nat,
        ),
    decreases text.len(),
{
    if text.len() > 0 && text.last() == '0' {
        let shorter = text.drop_last();
        lemma_strip_zeros_value(shorter);
        let kept = digits_value(strip_zeros(shorter));
        let shift = pow10((shorter.len() - strip_zeros(shorter).len()) as nat);
        assert(pow10((text.len() - strip_zeros(text).len()) as nat) == 10 * shift);
        assert((kept * shift) * 10 == kept * (10 * shift)) by (nonlinear_arith);
    } else {
        assert(digits_value(text) * 1 == digits_value(text));
    }
}

/// A number below ten to the power `e` has at most `e` digits.
pub proof fn lemma_decimal_len(n: nat, e: nat)
    requires
        e > 0,
        n < pow10(e),
    ensures
        decimal(n).len() <= e,
    decreases e,
{
    if n >= 10 {
        if e == 1 {
            reveal_with_fuel(pow10, 2);
        } else {
            lemma_decimal_len(n / 10, (e - 1) as nat);
        }
    }
}

/// `split` always gives at least one piece.
pub proof fn lemma_split_nonempty(text: Seq<char>, separator: char)
    ensures
        split(text, separator).len() > 0,
    decreases text.len(),
{
    if text.len() > 0 {
        lemma_split_nonempty(text.drop_last(), separator);
    }
}

/// Text without a separator, written after other text, lengthens that text's
/// last piece.
pub proof fn lemma_split_append(front: Seq<char>, back: Seq<char>, separator: char)
    requires
        forall|i: int| 0 <= i < back.len() ==> back[i] != separator,
    ensures
        split(front, separator).len() > 0,
        split(front + back, separator) == split(front, separator).drop_last().push(
            split(front, separator).last() + back,
        ),
    decreases back.len(),
{
    lemma_split_nonempty(front, separator);
    let pieces = split(front, separator);
    if back.len() == 0 {
        assert(front + back =~= front);
        assert(pieces.last() + back =~= pieces.last());
        assert(pieces.drop_last().push(pieces.last()) =~= pieces);
    } else {
        let shorter = back.drop_last();
        lemma_split_append(front, shorter, separator);
        assert((front + back).drop_last() =~= front + shorter);
        assert((front + back).last() == back.last());
        let before = pieces.drop_last().push(pieces.last() + shorter);
        assert(before.drop_last() =~= pieces.drop_last());
        assert((pieces.last() + shorter).push(back.last()) =~= pieces.last() + back);
    }
}

/// A time written in seconds reads back as the same count of nanoseconds.
pub proof fn lemma_seconds_value(nanos: nat)
    ensures
        seconds_value(seconds(nanos)) == Some(nanos),
{
    let whole = nanos / (NANOS_PER_SECOND as nat);
    let rest = nanos % (NANOS_PER_SECOND as nat);
    let head = decimal(whole);
    lemma_decimal_digits(whole);
    lemma_decimal_value(whole);
    assert(forall|i: int| 0 <= i < head.len() ==> head[i] != '.');
    assert(split(Seq::<char>::empty(), '.') =~= seq![Seq::<char>::empty()]);
    if rest == 0 {
        lemma_split_append(Seq::empty(), head, '.');
        assert(Seq::<char>::empty() + head =~= head);
        assert(split(head, '.') =~= seq![head]);
    } else {
        let padded = zero_padded(rest, FRACTION_DIGITS as nat);
        let fraction = strip_zeros(padded);
        assert(pow10(9) == 1_000_000_000) by {
            reveal_with_fuel(pow10, 10);
        }
        lemma_decimal_len(rest, 9);
        assert(padded.len() == 9);
        lemma_zero_padded_digits(rest, FRACTION_DIGITS as nat);
        lemma_zero_padded_value(rest, FRACTION_DIGITS as nat);
        lemma_strip_zeros_prefix(padded);
        lemma_strip_zeros_value(padded);
        assert(fraction.len() > 0) by {
            if fraction.len() == 0 {
                assert(digits_value(fraction) == 0);
                assert(0 * pow10((padded.len() - fraction.len()) as nat) == 0);
            }
        }
        assert forall|i: int| 0 <= i < fraction.len() implies is_digit(#[trigger] fraction[i]) by {
            assert(fraction[i] == padded[i]);
        }
        assert(forall|i: int| 0 <= i < fraction.len() ==> fraction[i] != '.');
        lemma_split_append(Seq::empty(), head, '.');
        assert(Seq::<char>::empty() + head =~= head);
        assert(split(head, '.') =~= seq![head]);
        assert(head.push('.').drop_last() =~= head);
        assert(split(head.push('.'), '.') =~= seq![head, Seq::<char>::empty()]);
        lemma_split_append(head.push('.'), fraction, '.');
        assert(head.push('.') + fraction =~= head + seq!['.'] + fraction);
        assert(Seq::<char>::empty() + fraction =~= fraction);
        assert(split(seconds(nanos), '.') =~= seq![head, fraction]);
    }
}

} // verus!
