//! What counts as a coordinate: a field that is written as a number.
//!
//! A number is an optional sign followed by `inf`, `infinity` or `nan` in any mix of capital
//! and small letters, or by a decimal: digits with at most one point among them, at least one
//! digit in all, and after them, if wanted, an exponent, which is `e` or `E`, an optional
//! sign and at least one digit. Nothing may stand before or after the number.

use vstd::prelude::*;

verus! {

/// The byte `+`.
pub const PLUS: u8 = 43;

/// The byte `-`.
pub const MINUS: u8 = 45;

/// The byte `.`.
pub const POINT: u8 = 46;

/// The byte `e`.
pub const EXPONENT: u8 = 101;

/// The byte is a decimal digit.
pub open spec fn is_digit(byte: u8) -> bool {
    48 <= byte <= 57
}

/// The byte is a sign.
pub open spec fn is_sign(byte: u8) -> bool {
    byte == PLUS || byte == MINUS
}

/// The byte, as a small letter if it is a capital letter.
pub open spec fn lowered(byte: u8) -> u8 {
    if 65 <= byte <= 90 {
        (byte + 32) as u8
    } else {
        byte
    }
}

/// The word `inf`.
pub open spec fn inf() -> Seq<u8> {
    seq![105u8, 110u8, 102u8]
}

/// The word `infinity`.
pub open spec fn infinity() -> Seq<u8> {
    seq![105u8, 110u8, 102u8, 105u8, 110u8, 105u8, 116u8, 121u8]
}

/// The word `nan`.
pub open spec fn nan() -> Seq<u8> {
    seq![110u8, 97u8, 110u8]
}

/// Where the digits that begin at `from` end: the first position from there on that holds
/// no digit, which is `from` itself where no digit stands there.
pub open spec fn digits_end(text: Seq<u8>, from: int) -> int
    decreases text.len() - from,
{
    if 0 <= from < text.len() && is_digit(text[from]) {
        digits_end(text, from + 1)
    } else {
        from
    }
}

/// From `from` on the text is `word`, in capital or small letters, and nothing more.
pub open spec fn spells(text: Seq<u8>, from: int, word: Seq<u8>) -> bool {
    &&& text.len() == from + word.len()
    &&& forall|i: int| 0 <= i < word.len() ==> lowered(#[trigger] text[from + i]) == word[i]
}

/// From `from` on the text is an exponent and nothing more: `e`, an optional sign, and
/// digits, at least one.
pub open spec fn is_exponent(text: Seq<u8>, from: int) -> bool {
    &&& from < text.len()
    &&& lowered(text[from]) == EXPONENT
    &&& {
        let start = if from + 1 < text.len() && is_sign(text[from + 1]) {
            from + 2
        } else {
            from + 1
        };
        start < text.len() && digits_end(text, start) == text.len()
    }
}

/// From `from` on the text is a decimal and nothing more: digits, a point and digits if
/// wanted, at least one digit in all, and an exponent if wanted.
pub open spec fn is_decimal(text: Seq<u8>, from: int) -> bool {
    let whole_end = digits_end(text, from);
    let pointed = whole_end < text.len() && text[whole_end] == POINT;
    let fraction_end = if pointed {
        digits_end(text, whole_end + 1)
    } else {
        whole_end
    };
    let digits = if pointed {
        fraction_end - from - 1
    } else {
        fraction_end - from
    };
    digits > 0 && (fraction_end == text.len() || is_exponent(text, fraction_end))
}

/// Where the number begins: behind the sign, if there is one.
pub open spec fn after_sign(text: Seq<u8>) -> int {
    if text.len() > 0 && is_sign(text[0]) {
        1
    } else {
        0
    }
}

/// The text is written as a number.
pub open spec fn is_number(text: Seq<u8>) -> bool {
    let from = after_sign(text);
    ||| is_decimal(text, from)
    ||| spells(text, from, inf())
    ||| spells(text, from, infinity())
    ||| spells(text, from, nan())
}

/// The byte, as a small letter if it is a capital letter.
fn lower(byte: u8) -> (small: u8)
    ensures
        small == lowered(byte),
{
    if 65 <= byte && byte <= 90 {
        byte + 32
    } else {
        byte
    }
}

/// Skips the digits that begin at `from`.
fn skip_digits(text: &[u8], from: usize) -> (end: usize)
    requires
        from <= text.len(),
    ensures
        end == digits_end(text@, from as int),
        from <= end <= text.len(),
{
    let mut end: usize = from;
    while end < text.len() && 48 <= text[end] && text[end] <= 57
        invariant
            from <= end <= text.len(),
            digits_end(text@, from as int) == digits_end(text@, end as int),
        decreases text.len() - end,
    {
        end += 1;
    }
    end
}

/// Whether the text from `from` on is an exponent and nothing more.
fn check_exponent(text: &[u8], from: usize) -> (found: bool)
    requires
        from <= text.len(),
    ensures
        found == is_exponent(text@, from as int),
{
    if from >= text.len() || lower(text[from]) != EXPONENT {
        return false;
    }
    let start: usize = if from + 1 < text.len() && (text[from + 1] == PLUS || text[from + 1]
        == MINUS) {
        from + 2
    } else {
        from + 1
    };
    if start >= text.len() {
        return false;
    }
    skip_digits(text, start) == text.len()
}

/// Whether the text from `from` on is a decimal and nothing more.
fn check_decimal(text: &[u8], from: usize) -> (found: bool)
    requires
        from <= text.len(),
    ensures
        found == is_decimal(text@, from as int),
{
    let whole_end = skip_digits(text, from);
    let pointed = whole_end < text.len() && text[whole_end] == POINT;
    let fraction_end = if pointed {
        skip_digits(text, whole_end + 1)
    } else {
        whole_end
    };
    let digits = if pointed {
        fraction_end - from - 1
    } else {
        fraction_end - from
    };
    digits > 0 && (fraction_end == text.len() || check_exponent(text, fraction_end))
}

/// Whether the text from `from` on is one of the three words and nothing more.
fn check_words(text: &[u8], from: usize) -> (found: bool)
    requires
        from <= text.len(),
    ensures
        found == (spells(text@, from as int, inf()) || spells(text@, from as int, infinity())
            || spells(text@, from as int, nan())),
{
    let length = text.len() - from;
    if length == 3 {
        let first = lower(text[from]);
        let second = lower(text[from + 1]);
        let third = lower(text[from + 2]);
        let is_inf = first == 105 && second == 110 && third == 102;
        let is_nan = first == 110 && second == 97 && third == 110;
        proof {
            let at = from as int;
            assert(text@[at + 0] == text@[at]);
            assert(is_inf == spells(text@, at, inf())) by {
                if is_inf {
                    assert forall|i: int| 0 <= i < 3 implies lowered(#[trigger] text@[at + i])
                        == inf()[i] by {
                        if i == 0 {
                        } else if i == 1 {
                        } else {
                        }
                    }
                } else {
                    assert(lowered(text@[at + 0]) == first);
                    assert(lowered(text@[at + 1]) == second);
                    assert(lowered(text@[at + 2]) == third);
                }
            }
            assert(is_nan == spells(text@, at, nan())) by {
                if is_nan {
                    assert forall|i: int| 0 <= i < 3 implies lowered(#[trigger] text@[at + i])
                        == nan()[i] by {
                        if i == 0 {
                        } else if i == 1 {
                        } else {
                        }
                    }
                } else {
                    assert(lowered(text@[at + 0]) == first);
                    assert(lowered(text@[at + 1]) == second);
                    assert(lowered(text@[at + 2]) == third);
                }
            }
        }
        is_inf || is_nan
    } else if length == 8 {
        let found = lower(text[from]) == 105 && lower(text[from + 1]) == 110 && lower(
            text[from + 2],
        ) == 102 && lower(text[from + 3]) == 105 && lower(text[from + 4]) == 110 && lower(
            text[from + 5],
        ) == 105 && lower(text[from + 6]) == 116 && lower(text[from + 7]) == 121;
        proof {
            let at = from as int;
            assert(text@[at + 0] == text@[at]);
            if found {
                assert forall|i: int| 0 <= i < 8 implies lowered(#[trigger] text@[at + i])
                    == infinity()[i] by {
                    if i == 0 {
                    } else if i == 1 {
                    } else if i == 2 {
                    } else if i == 3 {
                    } else if i == 4 {
                    } else if i == 5 {
                    } else if i == 6 {
                    } else {
                    }
                }
            } else {
                assert(lowered(text@[at + 0]) == infinity()[0] && lowered(text@[at + 1])
                    == infinity()[1] && lowered(text@[at + 2]) == infinity()[2] && lowered(
                    text@[at + 3],
                ) == infinity()[3] && lowered(text@[at + 4]) == infinity()[4] && lowered(
                    text@[at + 5],
                ) == infinity()[5] && lowered(text@[at + 6]) == infinity()[6] && lowered(
                    text@[at + 7],
                ) == infinity()[7] ==> found);
            }
        }
        found
    } else {
        false
    }
}

/// Whether a field is written as a number.
pub fn check_number(text: &[u8]) -> (found: bool)
    ensures
        found == is_number(text@),
{
    let from: usize = if text.len() > 0 && (text[0] == PLUS || text[0] == MINUS) {
        1
    } else {
        0
    };
    check_decimal(text, from) || check_words(text, from)
}

} // verus!
