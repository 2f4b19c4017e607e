//! The key under which a series is stored: its identifier written out in
//! decimal, without sign and without leading zeros.

use vstd::prelude::*;

verus! {

/// The character of a decimal digit.
pub open spec fn digit_char(digit: nat) -> char
    recommends
        digit < 10,
{
    if digit == 0 {
        '0'
    } else if digit == 1 {
        '1'
    } else if digit == 2 {
        '2'
    } else if digit == 3 {
        '3'
    } else if digit == 4 {
        '4'
    } else if digit == 5 {
        '5'
    } else if digit == 6 {
        '6'
    } else if digit == 7 {
        '7'
    } else if digit == 8 {
        '8'
    } else {
        '9'
    }
}

/// The decimal digits of a number, most significant first.
pub open spec fn decimal(number: nat) -> Seq<char>
    decreases number,
{
    if number < 10 {
        seq![digit_char(number)]
    } else {
        decimal(number / 10).push(digit_char(number % 10))
    }
}

/// The digit that a character stands for, if it is a decimal digit.
pub open spec fn digit_value(c: char) -> Option<nat> {
    if c == '0' {
        Some(0)
    } else if c == '1' {
        Some(1)
    } else if c == '2' {
        Some(2)
    } else if c == '3' {
        Some(3)
    } else if c == '4' {
        Some(4)
    } else if c == '5' {
        Some(5)
    } else if c == '6' {
        Some(6)
    } else if c == '7' {
        Some(7)
    } else if c == '8' {
        Some(8)
    } else if c == '9' {
        Some(9)
    } else {
        None
    }
}

/// The number that a sequence of decimal digits writes, read from the most
/// significant digit; `None` where a character is no digit.
pub open spec fn digits_value(digits: Seq<char>) -> Option<nat>
    decreases digits.len(),
{
    if digits.len() == 0 {
        Some(0)
    } else {
        match (digits_value(digits.drop_last()), digit_value(digits.last())) {
            (Some(front), Some(digit)) => Some(front * 10 + digit),
            _ => None,
        }
    }
}

/// The identifier that a key stands for: the one 32-bit number whose decimal
/// form the key is, if there is one.
pub open spec fn key_id(key: Seq<char>) -> Option<u32> {
    match digits_value(key) {
        Some(number) => if number <= u32::MAX && decimal(number) == key {
            Some(number as u32)
        } else {
            None
        },
        None => None,
    }
}

/// Reading the decimal form of a number gives the number back.
pub proof fn lemma_decimal_value(number: nat)
    ensures
        digits_value(decimal(number)) == Some(number),
        decimal(number).len() >= 1,
    decreases number,
{
    let digits = decimal(number);
    if number < 10 {
        assert(digits.drop_last() =~= Seq::<char>::empty());
        assert(digits.last() == digit_char(number));
        assert(digits_value(digits.drop_last()) == Some(0nat));
    } else {
        lemma_decimal_value(number / 10);
        assert(digits.drop_last() =~= decimal(number / 10));
        assert(digits.last() == digit_char(number % 10));
    }
}

/// Ten digits suffice for the decimal form of every 32-bit number.
pub proof fn lemma_decimal_length(number: nat)
    ensures
        number < 10 ==> decimal(number).len() == 1,
        number <= u32::MAX ==> decimal(number).len() <= 10,
{
    reveal_with_fuel(decimal, 11);
}

/// The decimal form of an identifier is a key that stands for it.
pub proof fn lemma_key_roundtrip(id: u32)
    ensures
        key_id(decimal(id as nat)) == Some(id),
{
    lemma_decimal_value(id as nat);
}

fn digit_str(digit: u32) -> (text: &'static str)
    requires
        digit < 10,
    ensures
        text@ == seq![digit_char(digit as nat)],
{
    proof {
        reveal_strlit("0");
        reveal_strlit("1");
        reveal_strlit("2");
        reveal_strlit("3");
        reveal_strlit("4");
        reveal_strlit("5");
        reveal_strlit("6");
        reveal_strlit("7");
        reveal_strlit("8");
        reveal_strlit("9");
    }
    let text = if digit == 0 {
        "0"
    } else if digit == 1 {
        "1"
    } else if digit == 2 {
        "2"
    } else if digit == 3 {
        "3"
    } else if digit == 4 {
        "4"
    } else if digit == 5 {
        "5"
    } else if digit == 6 {
        "6"
    } else if digit == 7 {
        "7"
    } else if digit == 8 {
        "8"
    } else {
        "9"
    };
    assert(text@ =~= seq![digit_char(digit as nat)]);
    text
}

/// Appends the decimal form of a number to a text.
pub fn push_decimal(text: &mut String, number: u32)
    ensures
        final(text)@ == old(text)@ + decimal(number as nat),
    decreases number,
{
    if number >= 10 {
        push_decimal(text, number / 10);
    }
    text.append(digit_str(number % 10));
    assert(text@ =~= old(text)@ + decimal(number as nat));
}

/// The key under which the series of the given identifier is stored.
pub fn series_key(series_id: u32) -> (key: String)
    ensures
        key@ == decimal(series_id as nat),
        key_id(key@) == Some(series_id),
{
    let mut key = String::new();
    push_decimal(&mut key, series_id);
    proof {
        lemma_key_roundtrip(series_id);
    }
    key
}

/// Where the front of a text cannot be read as a number, the text cannot.
pub proof fn lemma_digits_value_prefix(digits: Seq<char>, length: int)
    requires
        0 <= length <= digits.len(),
        digits_value(digits.take(length)) is None,
    ensures
        digits_value(digits) is None,
    decreases digits.len() - length,
{
    if length < digits.len() {
        let longer = digits.take(length + 1);
        assert(longer.drop_last() =~= digits.take(length));
        lemma_digits_value_prefix(digits, length + 1);
    } else {
        assert(digits.take(length) =~= digits);
    }
}

/// The identifier that a key stands for, if the key is the decimal form of
/// a 32-bit number; any other text stands for none.
pub fn parse_key(key: &str) -> (id: Option<u32>)
    ensures
        id == key_id(key@),
{
    let length = key.unicode_len();
    if length > 10 {
        proof {
            match digits_value(key@) {
                Some(number) => {
                    lemma_decimal_length(number);
                },
                None => {},
            }
        }
        return None;
    }
    let mut number: u64 = 0;
    let mut index: usize = 0;
    assert(key@.take(0) =~= Seq::<char>::empty());
    while index < length
        invariant
            length == key@.len(),
            length <= 10,
            index <= length,
            digits_value(key@.take(index as int)) == Some(number as nat),
            number < pow10(index as nat),
        decreases length - index,
    {
        let c = key.get_char(index);
        let ghost longer = key@.take(index + 1);
        assert(longer.drop_last() =~= key@.take(index as int));
        assert(longer.last() == c);
        let digit: u64 = if c == '0' {
            0
        } else if c == '1' {
            1
        } else if c == '2' {
            2
        } else if c == '3' {
            3
        } else if c == '4' {
            4
        } else if c == '5' {
            5
        } else if c == '6' {
            6
        } else if c == '7' {
            7
        } else if c == '8' {
            8
        } else if c == '9' {
            9
        } else {
            proof {
                lemma_digits_value_prefix(key@, index + 1);
            }
            return None;
        };
        proof {
            lemma_pow10_bound(index as nat);
        }
        number = number * 10 + digit;
        index += 1;
    }
    assert(key@.take(index as int) =~= key@);
    if number > u32::MAX as u64 {
        return None;
    }
    let id = number as u32;
    let canonical = series_key(id);
    let given = key.to_owned();
    if canonical == given {
        Some(id)
    } else {
        None
    }
}

/// Ten to the power of `exponent`.
pub open spec fn pow10(exponent: nat) -> nat
    decreases exponent,
{
    if exponent == 0 {
        1
    } else {
        10 * pow10((exponent - 1) as nat)
    }
}

proof fn lemma_pow10_bound(exponent: nat)
    requires
        exponent <= 10,
    ensures
        pow10(exponent) <= 10_000_000_000,
        pow10(exponent + 1) == 10 * pow10(exponent),
{
    reveal_with_fuel(pow10, 12);
}

} // verus!
