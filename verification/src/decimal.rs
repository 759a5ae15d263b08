//! Unsigned decimal numbers as text: what a version component denotes, and how
//! a component is written.
use vstd::prelude::*;
use vstd::string::*;

use crate::error::ComponentError;

verus! {

/// Whether `c` is one of the ten ASCII decimal digits.
pub open spec fn is_digit(c: char) -> bool {
    '0' <= c <= '9'
}

/// The number that the digit `c` denotes; zero for any other character.
pub open spec fn digit_value(c: char) -> nat {
    if is_digit(c) {
        (c as nat - '0' as nat) as nat
    } else {
        0
    }
}

/// The digit that denotes `d`, for `d` below ten.
pub open spec fn digit_char(d: nat) -> char {
    (d + '0' as nat) as char
}

/// Whether every character of `text` is a decimal digit.
pub open spec fn all_digits(text: Seq<char>) -> bool {
    forall|i: int| 0 <= i < text.len() ==> is_digit(#[trigger] text[i])
}

/// The number that `digits` denotes in base ten, the first digit weighing most.
pub open spec fn decimal_value(digits: Seq<char>) -> nat
    decreases digits.len(),
{
    if digits.len() == 0 {
        0
    } else {
        10 * decimal_value(digits.drop_last()) + digit_value(digits.last())
    }
}

/// How many decimal digits `text` starts with.
pub open spec fn leading_digits(text: Seq<char>) -> nat
    decreases text.len(),
{
    if text.len() > 0 && is_digit(text[0]) {
        1 + leading_digits(text.drop_first())
    } else {
        0
    }
}

/// The shortest decimal numeral for `n`: no sign and no leading zero.
pub open spec fn decimal_digits(n: nat) -> Seq<char>
    decreases n,
{
    if n < 10 {
        seq![digit_char(n)]
    } else {
        decimal_digits(n / 10).push(digit_char(n % 10))
    }
}

/// What `text` denotes as a version component.
///
/// A component is a non-empty run of decimal digits whose value fits in 16
/// bits. Reading goes from the left and stops at the first failure: the digits
/// that `text` starts with are too large, or a character is no digit.
pub open spec fn component_of(text: Seq<char>) -> Result<u16, ComponentError> {
    if text.len() == 0 {
        Err(ComponentError::Empty)
    } else if decimal_value(text.take(leading_digits(text) as int)) > u16::MAX {
        Err(ComponentError::PosOverflow)
    } else if leading_digits(text) < text.len() {
        Err(ComponentError::InvalidDigit)
    } else {
        Ok(decimal_value(text) as u16)
    }
}

/// A longer run of digits never denotes a smaller number than its prefix.
pub proof fn lemma_decimal_value_prefix(digits: Seq<char>, k: int)
    requires
        0 <= k <= digits.len(),
    ensures
        decimal_value(digits.take(k)) <= decimal_value(digits),
    decreases digits.len(),
{
    if k == digits.len() {
        assert(digits.take(k) == digits);
    } else {
        assert(digits.drop_last().take(k) == digits.take(k));
        lemma_decimal_value_prefix(digits.drop_last(), k);
    }
}

/// `text` starts with exactly `k` digits when its first `k` characters are
/// digits and the next one, if there is one, is not.
pub proof fn lemma_leading_digits(text: Seq<char>, k: int)
    requires
        0 <= k <= text.len(),
        all_digits(text.take(k)),
        k < text.len() ==> !is_digit(text[k]),
    ensures
        leading_digits(text) == k,
    decreases k,
{
    if k > 0 {
        assert(text.take(k)[0] == text[0]);
        let rest = text.drop_first();
        assert forall|i: int| 0 <= i < k - 1 implies is_digit(#[trigger] rest.take(k - 1)[i]) by {
            assert(rest.take(k - 1)[i] == text.take(k)[i + 1]);
        }
        lemma_leading_digits(rest, k - 1);
    }
}

/// `text` starts with at least `k` digits when its first `k` characters are
/// digits.
pub proof fn lemma_leading_digits_at_least(text: Seq<char>, k: int)
    requires
        0 <= k <= text.len(),
        all_digits(text.take(k)),
    ensures
        leading_digits(text) >= k,
        leading_digits(text) <= text.len(),
    decreases text.len(),
{
    if text.len() > 0 && is_digit(text[0]) {
        let rest = text.drop_first();
        if k > 0 {
            assert forall|i: int| 0 <= i < k - 1 implies is_digit(
                #[trigger] rest.take(k - 1)[i],
            ) by {
                assert(rest.take(k - 1)[i] == text.take(k)[i + 1]);
            }
            lemma_leading_digits_at_least(rest, k - 1);
        } else {
            lemma_leading_digits_at_least(rest, 0);
        }
    } else if k > 0 {
        assert(text.take(k)[0] == text[0]);
    }
}

/// The numeral that is written for `n` consists of digits, at least one, and
/// denotes `n`.
pub proof fn lemma_decimal_digits(n: nat)
    ensures
        decimal_digits(n).len() >= 1,
        all_digits(decimal_digits(n)),
        decimal_value(decimal_digits(n)) == n,
    decreases n,
{
    if n < 10 {
        let numeral = decimal_digits(n);
        assert(numeral.drop_last() == Seq::<char>::empty());
        assert(decimal_value(numeral.drop_last()) == 0);
        assert(numeral.last() == digit_char(n));
    } else {
        lemma_decimal_digits(n / 10);
        let numeral = decimal_digits(n);
        assert(numeral.drop_last() == decimal_digits(n / 10));
        assert(numeral.last() == digit_char(n % 10));
    }
}

/// Writing a component and reading the numeral gives the component back.
pub proof fn lemma_component_of_decimal_digits(n: u16)
    ensures
        component_of(decimal_digits(n as nat)) == Ok::<u16, ComponentError>(n),
{
    let numeral = decimal_digits(n as nat);
    lemma_decimal_digits(n as nat);
    assert(numeral.take(numeral.len() as int) == numeral);
    lemma_leading_digits(numeral, numeral.len() as int);
}

/// A component is read from `text` exactly when `text` is a non-empty run of
/// digits that denotes a number of at most 16 bits, and it is that number.
pub proof fn lemma_component_of_ok(text: Seq<char>)
    ensures
        component_of(text) is Ok <==> text.len() > 0 && all_digits(text) && decimal_value(text)
            <= u16::MAX,
        component_of(text) is Ok ==> component_of(text)->Ok_0 == decimal_value(text),
{
    lemma_leading_digits_at_least(text, 0);
    let run = text.take(leading_digits(text) as int);
    if all_digits(text) {
        assert(text.take(text.len() as int) == text);
        lemma_leading_digits(text, text.len() as int);
    }
    if leading_digits(text) == text.len() {
        assert(run == text);
        lemma_all_leading_are_digits(text);
    }
}

/// The characters that `text` starts with, as many as `leading_digits` counts,
/// are digits.
pub proof fn lemma_all_leading_are_digits(text: Seq<char>)
    ensures
        leading_digits(text) <= text.len(),
        all_digits(text.take(leading_digits(text) as int)),
    decreases text.len(),
{
    if text.len() > 0 && is_digit(text[0]) {
        let rest = text.drop_first();
        lemma_all_leading_are_digits(rest);
        let run = text.take(leading_digits(text) as int);
        assert forall|i: int| 0 <= i < run.len() implies is_digit(#[trigger] run[i]) by {
            if i > 0 {
                assert(run[i] == rest.take(leading_digits(rest) as int)[i - 1]);
            }
        }
    }
}

/// Reads the characters of `chars` from `from` up to `to` as a version
/// component.
pub(crate) fn parse_component(chars: &Vec<char>, from: usize, to: usize) -> (parsed: Result<
    u16,
    ComponentError,
>)
    requires
        from <= to <= chars.len(),
    ensures
        parsed == component_of(chars@.subrange(from as int, to as int)),
{
    let ghost text = chars@.subrange(from as int, to as int);
    if from == to {
        return Err(ComponentError::Empty);
    }
    let mut value: u16 = 0;
    let mut i: usize = from;
    while i < to
        invariant
            from <= i <= to <= chars.len(),
            text == chars@.subrange(from as int, to as int),
            all_digits(text.take(i - from)),
            value == decimal_value(text.take(i - from)),
        decreases to - i,
    {
        let c: char = chars[i];
        let ghost k = i - from;
        assert(text[k] == c);
        if !('0' <= c && c <= '9') {
            proof {
                lemma_leading_digits(text, k);
            }
            return Err(ComponentError::InvalidDigit);
        }
        let d: u16 = (c as u32 - '0' as u32) as u16;
        proof {
            let longer = text.take(k + 1);
            assert(longer.drop_last() == text.take(k));
            assert(longer.last() == c);
            assert(decimal_value(longer) == 10 * value + d);
            assert forall|j: int| 0 <= j < k + 1 implies is_digit(#[trigger] longer[j]) by {
                if j < k {
                    assert(longer[j] == text.take(k)[j]);
                }
            }
        }
        if value > 6553 || (value == 6553 && d > 5) {
            proof {
                lemma_leading_digits_at_least(text, k + 1);
                let run = text.take(leading_digits(text) as int);
                assert(run.take(k + 1) == text.take(k + 1));
                lemma_decimal_value_prefix(run, k + 1);
            }
            return Err(ComponentError::PosOverflow);
        }
        value = value * 10 + d;
        i = i + 1;
    }
    proof {
        assert(text.take(i - from) == text);
        lemma_leading_digits(text, text.len() as int);
    }
    Ok(value)
}

/// The one-character text of the digit that denotes `d`.
fn digit_text(d: u16) -> (text: &'static str)
    requires
        d < 10,
    ensures
        text@ == seq![digit_char(d as nat)],
{
    proof {
        reveal_strlit("0");
        reveal_strlit("1");
        reveal_strlit("2");
        reveal_strlit("3");
        reveal_strlit("4");
        reveal_strlit("5");
        reveal_strlit("6");
        reveal_strlit("7");
        reveal_strlit("8");
        reveal_strlit("9");
    }
    match d {
        0 => "0",
        1 => "1",
        2 => "2",
        3 => "3",
        4 => "4",
        5 => "5",
        6 => "6",
        7 => "7",
        8 => "8",
        _ => "9",
    }
}

/// Appends the shortest decimal numeral for `n` to `out`.
pub(crate) fn push_decimal(out: &mut String, n: u16)
    ensures
        final(out)@ == old(out)@ + decimal_digits(n as nat),
    decreases n,
{
    if n >= 10 {
        push_decimal(out, n / 10);
    }
    out.append(digit_text(n % 10));
}

} // verus!
