//! The grammar of decimal literals: an optional sign, digits with an optional
//! point among them (at least one digit in all), and an optional exponent of
//! `e` or `E`, an optional sign and at least one digit. Nothing else may
//! stand before, between or after.

use vstd::prelude::*;
use vstd::string::StrSliceExecFns;

verus! {

/// Whether `c` is one of the ten decimal digits.
pub open spec fn is_digit(c: char) -> bool {
    '0' <= c && c <= '9'
}

/// Whether `c` is a sign.
pub open spec fn is_sign(c: char) -> bool {
    c == '+' || c == '-'
}

/// Index of the first character at or after `from` that is not a digit.
pub open spec fn digits_end(text: Seq<char>, from: int) -> int
    decreases text.len() - from,
{
    if 0 <= from < text.len() && is_digit(text[from]) {
        digits_end(text, from + 1)
    } else {
        from
    }
}

/// Index after an optional sign at `from`.
pub open spec fn sign_end(text: Seq<char>, from: int) -> int {
    if 0 <= from < text.len() && is_sign(text[from]) {
        from + 1
    } else {
        from
    }
}

/// Index after the mantissa that starts at `from`, or `None` where the
/// mantissa has no digit.
pub open spec fn mantissa_end(text: Seq<char>, from: int) -> Option<int> {
    let whole = digits_end(text, from);
    if whole < text.len() && text[whole] == '.' {
        let frac = digits_end(text, whole + 1);
        if (whole - from) + (frac - (whole + 1)) >= 1 {
            Some(frac)
        } else {
            None
        }
    } else if whole > from {
        Some(whole)
    } else {
        None
    }
}

/// Index after the optional exponent that starts at `from`, or `None` where
/// an exponent mark is followed by no digit.
pub open spec fn exponent_end(text: Seq<char>, from: int) -> Option<int> {
    if 0 <= from < text.len() && (text[from] == 'e' || text[from] == 'E') {
        let start = sign_end(text, from + 1);
        let end = digits_end(text, start);
        if end > start {
            Some(end)
        } else {
            None
        }
    } else {
        Some(from)
    }
}

/// Whether `text`, all of it, is a decimal literal.
pub open spec fn decimal_literal(text: Seq<char>) -> bool {
    match mantissa_end(text, sign_end(text, 0)) {
        None => false,
        Some(m) => exponent_end(text, m) == Some(text.len() as int),
    }
}

/// Whether `c` is a decimal digit.
fn digit(c: char) -> (r: bool)
    ensures
        r == is_digit(c),
{
    '0' <= c && c <= '9'
}

/// Index of the first character at or after `from` that is not a digit.
fn skip_digits(text: &str, len: usize, from: usize) -> (end: usize)
    requires
        len == text@.len(),
        from <= len,
    ensures
        end == digits_end(text@, from as int),
        from <= end <= len,
{
    let mut i: usize = from;
    while i < len && digit(text.get_char(i))
        invariant
            from <= i <= len,
            len == text@.len(),
            digits_end(text@, from as int) == digits_end(text@, i as int),
        decreases len - i,
    {
        i = i + 1;
    }
    i
}

/// Index after an optional sign at `from`.
fn skip_sign(text: &str, len: usize, from: usize) -> (end: usize)
    requires
        len == text@.len(),
        from <= len,
    ensures
        end == sign_end(text@, from as int),
        from <= end <= len,
{
    if from < len {
        let c = text.get_char(from);
        if c == '+' || c == '-' {
            return from + 1;
        }
    }
    from
}

/// Decides whether `text` is a decimal literal.
pub fn is_decimal_literal(text: &str) -> (r: bool)
    ensures
        r == decimal_literal(text@),
{
    let len = text.unicode_len();
    let start = skip_sign(text, len, 0);
    let whole = skip_digits(text, len, start);
    let mantissa = if whole < len && text.get_char(whole) == '.' {
        let frac = skip_digits(text, len, whole + 1);
        if (whole - start) + (frac - (whole + 1)) < 1 {
            return false;
        }
        frac
    } else {
        if whole == start {
            return false;
        }
        whole
    };
    if mantissa < len && (text.get_char(mantissa) == 'e' || text.get_char(mantissa) == 'E') {
        let signed = skip_sign(text, len, mantissa + 1);
        let end = skip_digits(text, len, signed);
        end > signed && end == len
    } else {
        mantissa == len
    }
}

} // verus!
