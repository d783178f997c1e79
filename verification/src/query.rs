//! Reading ids out of request parameters.

use vstd::prelude::*;
use crate::error::ChatError;

verus! {

/// The value of a decimal digit.
pub open spec fn digit_value(c: char) -> Option<int> {
    if '0' <= c && c <= '9' {
        Some(c as int - '0' as int)
    } else {
        None
    }
}

/// The number that a non-empty run of decimal digits writes.
pub open spec fn digits_value(text: Seq<char>) -> Option<int>
    decreases text.len(),
{
    if text.len() == 0 {
        None
    } else if text.len() == 1 {
        digit_value(text[0])
    } else {
        match (digits_value(text.drop_last()), digit_value(text.last())) {
            (Some(front), Some(digit)) => Some(10 * front + digit),
            _ => None,
        }
    }
}

/// The integer that a text writes: decimal digits, with `+` or `-` in front
/// if one likes, and nothing else.
pub open spec fn signed_value(text: Seq<char>) -> Option<int> {
    if text.len() > 0 && text[0] == '-' {
        match digits_value(text.skip(1)) {
            Some(value) => Some(-value),
            None => None,
        }
    } else if text.len() > 0 && text[0] == '+' {
        digits_value(text.skip(1))
    } else {
        digits_value(text)
    }
}

/// The id that a text writes, if it writes an integer that an `i32` holds.
pub open spec fn id_value(text: Seq<char>) -> Option<int> {
    match signed_value(text) {
        Some(value) => if i32::MIN <= value <= i32::MAX {
            Some(value)
        } else {
            None
        },
        None => None,
    }
}

/// A run of digits writes no less than any of its beginnings.
proof fn lemma_digits_grow(text: Seq<char>, upto: int)
    requires
        1 <= upto <= text.len(),
        digits_value(text) is Some,
    ensures
        digits_value(text.take(upto)) is Some,
        0 <= digits_value(text.take(upto)).unwrap() <= digits_value(text).unwrap(),
    decreases text.len(),
{
    if upto == text.len() {
        assert(text.take(upto) =~= text);
        lemma_digits_nonnegative(text);
    } else {
        assert(text.drop_last().take(upto) =~= text.take(upto));
        lemma_digits_grow(text.drop_last(), upto);
    }
}

/// A run of digits writes no negative number.
proof fn lemma_digits_nonnegative(text: Seq<char>)
    requires
        digits_value(text) is Some,
    ensures
        digits_value(text).unwrap() >= 0,
    decreases text.len(),
{
    if text.len() > 1 {
        lemma_digits_nonnegative(text.drop_last());
    }
}

/// Reads a run of decimal digits from `from` to the end of `text`, as long
/// as the number stays at or below `limit`.
fn read_digits(text: &str, from: usize, limit: i64) -> (value: Option<i64>)
    requires
        from <= text@.len(),
        0 <= limit <= 0x8000_0000,
    ensures
        match value {
            Some(v) => digits_value(text@.skip(from as int)) == Some(v as int) && 0 <= v <= limit,
            None => match digits_value(text@.skip(from as int)) {
                Some(v) => v > limit,
                None => true,
            },
        },
{
    let len = text.unicode_len();
    if from >= len {
        return None;
    }
    let ghost digits = text@.skip(from as int);
    let mut total: i64 = 0;
    let mut i: usize = from;
    while i < len
        invariant
            from <= i <= len,
            len == text@.len(),
            digits == text@.skip(from as int),
            0 <= total <= limit <= 0x8000_0000,
            i > from ==> digits_value(digits.take(i - from)) == Some(total as int),
            i == from ==> total == 0,
        decreases len - i,
    {
        let c = text.get_char(i);
        proof {
            let upto = digits.take(i - from + 1);
            assert(upto.drop_last() =~= digits.take(i - from));
            assert(upto.last() == c);
            if digits_value(digits) is Some {
                lemma_digits_grow(digits, i - from + 1);
            }
        }
        if c < '0' || c > '9' {
            return None;
        }
        let digit: i64 = (c as u8 - '0' as u8) as i64;
        total = 10 * total + digit;
        if total > limit {
            return None;
        }
        i += 1;
    }
    proof {
        assert(digits.take(i - from) =~= digits);
    }
    Some(total)
}

/// Reads an id: decimal digits, with `+` or `-` in front if one likes.
/// Anything else, and a number that an `i32` does not hold, has no value.
pub fn parse_id(text: &str) -> (id: Option<i32>)
    ensures
        match id {
            Some(value) => id_value(text@) == Some(value as int),
            None => id_value(text@) is None,
        },
{
    let len = text.unicode_len();
    if len == 0 {
        return None;
    }
    let first = text.get_char(0);
    if first == '-' {
        match read_digits(text, 1, 0x8000_0000) {
            Some(value) => Some((-value) as i32),
            None => None,
        }
    } else if first == '+' {
        match read_digits(text, 1, 0x7fff_ffff) {
            Some(value) => Some(value as i32),
            None => None,
        }
    } else {
        proof {
            assert(text@.skip(0) =~= text@);
        }
        match read_digits(text, 0, 0x7fff_ffff) {
            Some(value) => Some(value as i32),
            None => None,
        }
    }
}

/// Reads the id that a request names in a parameter. A request without the
/// parameter, or with one that writes no id, is refused as malformed.
pub fn required_id(parameter: Option<&String>) -> (id: Result<i32, ChatError>)
    ensures
        match parameter {
            Some(text) => match id_value(text@) {
                Some(value) => id == Ok::<i32, ChatError>(value as i32),
                None => id == Err::<i32, ChatError>(ChatError::Validation),
            },
            None => id == Err::<i32, ChatError>(ChatError::Validation),
        },
{
    match parameter {
        Some(text) => match parse_id(text.as_str()) {
            Some(value) => Ok(value),
            None => Err(ChatError::Validation),
        },
        None => Err(ChatError::Validation),
    }
}

} // verus!
