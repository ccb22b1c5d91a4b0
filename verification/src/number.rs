//! Which texts spell a floating-point number. The library passes such texts
//! on unread: it decides only whether a text is one.

use crate::text::{ascii, is_digit, spells};
use vstd::prelude::*;

verus! {

/// The first position at or after `from` that holds no digit, or the length
/// of `s`.
pub open spec fn digits_end(s: Seq<u8>, from: int) -> int
    decreases s.len() - from,
{
    if from >= s.len() {
        s.len() as int
    } else if !is_digit(s[from]) {
        from
    } else {
        digits_end(s, from + 1)
    }
}

/// `b` in lower case, where it is an ASCII capital letter.
pub open spec fn lower(b: u8) -> u8 {
    if 0x41 <= b <= 0x5a {
        (b + 0x20) as u8
    } else {
        b
    }
}

/// `s` with its ASCII capital letters in lower case.
pub open spec fn lowered(s: Seq<u8>) -> Seq<u8> {
    Seq::new(s.len(), |i: int| lower(s[i]))
}

/// Whether `s`, read without regard to case, names an infinity or a
/// not-a-number.
pub open spec fn is_special(s: Seq<u8>) -> bool {
    lowered(s) == ascii("inf") || lowered(s) == ascii("infinity") || lowered(s) == ascii("nan")
}

/// Whether the part of `s` from `at` on is an exponent: `e` or `E`, an
/// optional sign, and at least one digit up to the end.
pub open spec fn is_exponent(s: Seq<u8>, at: int) -> bool {
    let k = if at + 1 < s.len() && (s[at + 1] == 0x2b || s[at + 1] == 0x2d) {
        at + 2
    } else {
        at + 1
    };
    &&& 0 <= at < s.len()
    &&& (s[at] == 0x65 || s[at] == 0x45)
    &&& k < s.len()
    &&& is_digit(s[k])
    &&& digits_end(s, k) == s.len()
}

/// Whether the part of `s` from `start` on is a decimal number: digits with
/// at most one point among them, at least one digit in all, and an optional
/// exponent.
pub open spec fn is_decimal(s: Seq<u8>, start: int) -> bool {
    let i = digits_end(s, start);
    let j = if i < s.len() && s[i] == 0x2e {
        digits_end(s, i + 1)
    } else {
        i
    };
    let digits = if i < s.len() && s[i] == 0x2e {
        j - start - 1
    } else {
        j - start
    };
    digits > 0 && (j == s.len() || is_exponent(s, j))
}

/// Where the number starts in `s`: after one optional sign.
pub open spec fn after_sign(s: Seq<u8>) -> int {
    if s.len() > 0 && (s[0] == 0x2b || s[0] == 0x2d) {
        1
    } else {
        0
    }
}

/// Whether `s` spells a floating-point number: an optional sign, then a
/// decimal number, `inf`, `infinity` or `nan`, the words in any case.
pub open spec fn is_float_literal(s: Seq<u8>) -> bool {
    let start = after_sign(s);
    start < s.len() && (is_decimal(s, start) || is_special(s.subrange(start, s.len() as int)))
}

/// Scans digits from `from`.
fn scan_digits(word: &[u8], from: usize) -> (end: usize)
    requires
        from <= word@.len(),
    ensures
        end == digits_end(word@, from as int),
        from <= end <= word@.len(),
{
    let n = word.len();
    let mut i: usize = from;
    while i < n && 0x30 <= word[i] && word[i] <= 0x39
        invariant
            from <= i <= n == word@.len(),
            digits_end(word@, from as int) == digits_end(word@, i as int),
        decreases n - i,
    {
        i += 1;
    }
    i
}

/// A copy of `word[from..]` with its ASCII capital letters in lower case.
fn lowered_from(word: &[u8], from: usize) -> (out: Vec<u8>)
    requires
        from <= word@.len(),
    ensures
        out@ == lowered(word@.subrange(from as int, word@.len() as int)),
{
    let n = word.len();
    let mut out: Vec<u8> = Vec::new();
    let mut i: usize = from;
    while i < n
        invariant
            from <= i <= n == word@.len(),
            out@.len() == i - from,
            forall|j: int| 0 <= j < i - from ==> out@[j] == lower(word@[from + j]),
        decreases n - i,
    {
        let b = word[i];
        out.push(
            if 0x41 <= b && b <= 0x5a {
                b + 0x20
            } else {
                b
            },
        );
        i += 1;
    }
    out
}

/// Whether `word` spells a floating-point number.
pub fn float_literal(word: &[u8]) -> (r: bool)
    ensures
        r == is_float_literal(word@),
{
    let n = word.len();
    let start: usize = if n > 0 && (word[0] == 0x2b || word[0] == 0x2d) {
        1
    } else {
        0
    };
    if start >= n {
        return false;
    }
    let i = scan_digits(word, start);
    let pointed = i < n && word[i] == 0x2e;
    let j = if pointed {
        scan_digits(word, i + 1)
    } else {
        i
    };
    let digits = if pointed {
        j - start - 1
    } else {
        j - start
    };
    let decimal = digits > 0 && (j == n || {
        let signed = j + 1 < n && (word[j + 1] == 0x2b || word[j + 1] == 0x2d);
        let k = if signed {
            j + 2
        } else {
            j + 1
        };
        (word[j] == 0x65 || word[j] == 0x45) && k < n && 0x30 <= word[k] && word[k] <= 0x39
            && scan_digits(word, k) == n
    });
    if decimal {
        return true;
    }
    let rest = lowered_from(word, start);
    proof {
        reveal_strlit("inf");
        reveal_strlit("infinity");
        reveal_strlit("nan");
    }
    spells(rest.as_slice(), "inf") || spells(rest.as_slice(), "infinity") || spells(
        rest.as_slice(),
        "nan",
    )
}

} // verus!
