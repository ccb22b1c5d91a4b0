//! Byte-level text helpers shared by the mesh readers: keywords, trimming,
//! splitting, lines and unsigned decimal numbers.

use vstd::prelude::*;
use vstd::string::*;

verus! {

/// The bytes of an ASCII text.
pub open spec fn ascii(s: &str) -> Seq<u8> {
    Seq::new(s@.len(), |i: int| s@[i] as u8)
}

/// The contents of each vector of a sequence.
pub open spec fn views(v: Seq<Vec<u8>>) -> Seq<Seq<u8>> {
    Seq::new(v.len(), |i: int| v[i]@)
}

/// White space among the ASCII bytes: space, tab, line feed, vertical tab,
/// form feed and carriage return.
pub open spec fn is_space(b: u8) -> bool {
    b == 0x20 || (0x09 <= b && b <= 0x0d)
}

/// A decimal digit.
pub open spec fn is_digit(b: u8) -> bool {
    0x30 <= b && b <= 0x39
}

/// The first position at or after `from` that holds `b`, or the length of `s`.
pub open spec fn find_byte(s: Seq<u8>, from: int, b: u8) -> int
    decreases s.len() - from,
{
    if from >= s.len() {
        s.len() as int
    } else if s[from] == b {
        from
    } else {
        find_byte(s, from + 1, b)
    }
}

/// The first position at or after `from` that holds no white space, or the
/// length of `s`.
pub open spec fn skip_spaces(s: Seq<u8>, from: int) -> int
    decreases s.len() - from,
{
    if from >= s.len() {
        s.len() as int
    } else if !is_space(s[from]) {
        from
    } else {
        skip_spaces(s, from + 1)
    }
}

/// The first position at or after `from` that holds white space, or the length
/// of `s`.
pub open spec fn find_space(s: Seq<u8>, from: int) -> int
    decreases s.len() - from,
{
    if from >= s.len() {
        s.len() as int
    } else if is_space(s[from]) {
        from
    } else {
        find_space(s, from + 1)
    }
}

/// The end of `s[lo..hi]` once the white space at its end is dropped.
pub open spec fn drop_trailing_spaces(s: Seq<u8>, lo: int, hi: int) -> int
    decreases hi - lo,
{
    if hi > lo && 0 < hi <= s.len() && is_space(s[hi - 1]) {
        drop_trailing_spaces(s, lo, hi - 1)
    } else {
        hi
    }
}

/// `s` without the white space at its two ends.
pub open spec fn trimmed(s: Seq<u8>) -> Seq<u8> {
    let a = skip_spaces(s, 0);
    s.subrange(a, drop_trailing_spaces(s, a, s.len() as int))
}

/// The pieces of `s[start..]` between occurrences of `sep`, where the scan
/// of the current piece has reached `i`.
pub open spec fn split_scan(s: Seq<u8>, start: int, i: int, sep: u8) -> Seq<Seq<u8>>
    decreases s.len() - i,
{
    if i >= s.len() {
        seq![s.subrange(start, s.len() as int)]
    } else if s[i] == sep {
        seq![s.subrange(start, i)] + split_scan(s, i + 1, i + 1, sep)
    } else {
        split_scan(s, start, i + 1, sep)
    }
}

/// The pieces of `s` between occurrences of `sep`; two neighbouring
/// separators hold an empty piece, and there is always at least one piece.
pub open spec fn split(s: Seq<u8>, sep: u8) -> Seq<Seq<u8>> {
    split_scan(s, 0, 0, sep)
}

/// The maximal runs of `s[from..]` that hold no white space, in order.
pub open spec fn words_from(s: Seq<u8>, from: int) -> Seq<Seq<u8>>
    decreases s.len() - from,
{
    let a = skip_spaces(s, from);
    let b = find_space(s, a);
    if !(0 <= from <= a < b <= s.len()) {
        Seq::<Seq<u8>>::empty()
    } else {
        seq![s.subrange(a, b)] + words_from(s, b)
    }
}

/// The maximal runs of `s` that hold no white space, in order.
pub open spec fn words(s: Seq<u8>) -> Seq<Seq<u8>> {
    words_from(s, 0)
}

/// The position just after the line that starts at `from`: after its line
/// feed, or the length of `s` where none follows.
pub open spec fn line_end(s: Seq<u8>, from: int) -> int {
    let i = find_byte(s, from, 0x0a);
    if i >= s.len() {
        s.len() as int
    } else {
        i + 1
    }
}

/// The number that a run of decimal digits spells.
pub open spec fn decimal_value(s: Seq<u8>) -> nat
    decreases s.len(),
{
    if s.len() == 0 {
        0
    } else {
        decimal_value(s.drop_last()) * 10 + (s.last() - 0x30) as nat
    }
}

/// Whether every byte of `s` is a decimal digit.
pub open spec fn all_digits(s: Seq<u8>) -> bool {
    forall|i: int| 0 <= i < s.len() ==> is_digit(#[trigger] s[i])
}

/// The digits of an unsigned decimal text: the text itself, after one
/// optional plus sign.
pub open spec fn unsigned_digits(s: Seq<u8>) -> Seq<u8> {
    if s.len() > 0 && s[0] == 0x2b {
        s.subrange(1, s.len() as int)
    } else {
        s
    }
}

/// The value of an unsigned decimal text: an optional plus sign, then at
/// least one digit and nothing else, naming a number that fits.
pub open spec fn parse_usize_spec(s: Seq<u8>) -> Option<usize> {
    let d = unsigned_digits(s);
    if d.len() > 0 && all_digits(d) && decimal_value(d) <= usize::MAX {
        Some(decimal_value(d) as usize)
    } else {
        None
    }
}

pub proof fn lemma_find_byte_bounds(s: Seq<u8>, from: int, b: u8)
    requires
        0 <= from <= s.len(),
    ensures
        from <= find_byte(s, from, b) <= s.len(),
        forall|j: int| from <= j < find_byte(s, from, b) ==> s[j] != b,
        find_byte(s, from, b) < s.len() ==> s[find_byte(s, from, b)] == b,
    decreases s.len() - from,
{
    if from < s.len() && s[from] != b {
        lemma_find_byte_bounds(s, from + 1, b);
    }
}

pub proof fn lemma_skip_spaces_bounds(s: Seq<u8>, from: int)
    requires
        0 <= from <= s.len(),
    ensures
        from <= skip_spaces(s, from) <= s.len(),
        forall|j: int| from <= j < skip_spaces(s, from) ==> is_space(s[j]),
        skip_spaces(s, from) < s.len() ==> !is_space(s[skip_spaces(s, from)]),
    decreases s.len() - from,
{
    if from < s.len() && is_space(s[from]) {
        lemma_skip_spaces_bounds(s, from + 1);
    }
}

/// A number of more digits is at least as large as the number of its first
/// digits.
pub proof fn lemma_decimal_prefix(s: Seq<u8>, k: int)
    requires
        0 <= k <= s.len(),
        all_digits(s),
    ensures
        decimal_value(s.subrange(0, k)) <= decimal_value(s),
    decreases s.len() - k,
{
    if k < s.len() {
        let t = s.subrange(0, k + 1);
        assert(t.drop_last() =~= s.subrange(0, k));
        lemma_decimal_prefix(s, k + 1);
    } else {
        assert(s.subrange(0, k) =~= s);
    }
}

/// Whether `b` is white space.
pub fn space(b: u8) -> (r: bool)
    ensures
        r == is_space(b),
{
    b == 0x20 || (0x09 <= b && b <= 0x0d)
}

/// Whether `bytes` spells `word`.
pub fn spells(bytes: &[u8], word: &str) -> (r: bool)
    requires
        is_ascii(word),
    ensures
        r == (bytes@ == ascii(word)),
{
    let w = word.as_bytes();
    proof {
        is_ascii_spec_bytes(word);
    }
    if bytes.len() != w.len() {
        return false;
    }
    let mut i: usize = 0;
    while i < bytes.len()
        invariant
            i <= bytes@.len(),
            bytes@.len() == w@.len(),
            w@ == ascii(word),
            forall|j: int| 0 <= j < i ==> bytes@[j] == w@[j],
        decreases bytes@.len() - i,
    {
        if bytes[i] != w[i] {
            return false;
        }
        i += 1;
    }
    assert(bytes@ =~= w@);
    true
}

/// Whether two byte strings are equal.
pub fn same_bytes(a: &[u8], b: &[u8]) -> (r: bool)
    ensures
        r == (a@ == b@),
{
    if a.len() != b.len() {
        return false;
    }
    let mut i: usize = 0;
    while i < a.len()
        invariant
            i <= a@.len(),
            a@.len() == b@.len(),
            forall|j: int| 0 <= j < i ==> a@[j] == b@[j],
        decreases a@.len() - i,
    {
        if a[i] != b[i] {
            return false;
        }
        i += 1;
    }
    assert(a@ =~= b@);
    true
}

/// A copy of `bytes[from..to]`.
pub fn copy_range(bytes: &[u8], from: usize, to: usize) -> (out: Vec<u8>)
    requires
        from <= to <= bytes@.len(),
    ensures
        out@ == bytes@.subrange(from as int, to as int),
{
    let mut out: Vec<u8> = Vec::new();
    let mut i: usize = from;
    while i < to
        invariant
            from <= i <= to <= bytes@.len(),
            out@ == bytes@.subrange(from as int, i as int),
        decreases to - i,
    {
        out.push(bytes[i]);
        i += 1;
    }
    out
}

/// The bounds of `bytes` without the white space at its two ends.
pub fn trim(bytes: &[u8]) -> (r: (usize, usize))
    ensures
        r.0 <= r.1 <= bytes@.len(),
        bytes@.subrange(r.0 as int, r.1 as int) == trimmed(bytes@),
{
    let n = bytes.len();
    let mut a: usize = 0;
    while a < n && space(bytes[a])
        invariant
            a <= n == bytes@.len(),
            skip_spaces(bytes@, 0) == skip_spaces(bytes@, a as int),
        decreases n - a,
    {
        a += 1;
    }
    let mut b: usize = n;
    proof {
        lemma_skip_spaces_bounds(bytes@, 0);
    }
    while b > a && space(bytes[b - 1])
        invariant
            a <= b <= n == bytes@.len(),
            a == skip_spaces(bytes@, 0),
            drop_trailing_spaces(bytes@, a as int, n as int) == drop_trailing_spaces(
                bytes@,
                a as int,
                b as int,
            ),
        decreases b - a,
    {
        b -= 1;
    }
    (a, b)
}

/// The pieces of `bytes` between occurrences of `sep`.
pub fn split_on(bytes: &[u8], sep: u8) -> (out: Vec<Vec<u8>>)
    ensures
        views(out@) == split(bytes@, sep),
        out@.len() >= 1,
{
    let n = bytes.len();
    let mut out: Vec<Vec<u8>> = Vec::new();
    let mut start: usize = 0;
    let mut i: usize = 0;
    while i < n
        invariant
            start <= i <= n == bytes@.len(),
            split(bytes@, sep) == views(out@) + split_scan(bytes@, start as int, i as int, sep),
        decreases n - i,
    {
        if bytes[i] == sep {
            let piece = copy_range(bytes, start, i);
            let ghost before = views(out@);
            out.push(piece);
            start = i + 1;
        }
        i += 1;
    }
    let piece = copy_range(bytes, start, n);
    out.push(piece);
    out
}

/// The maximal runs of `bytes` that hold no white space, in order.
pub fn split_words(bytes: &[u8]) -> (out: Vec<Vec<u8>>)
    ensures
        views(out@) == words(bytes@),
{
    let n = bytes.len();
    let mut out: Vec<Vec<u8>> = Vec::new();
    let mut i: usize = 0;
    loop
        invariant
            i <= n == bytes@.len(),
            words(bytes@) == views(out@) + words_from(bytes@, i as int),
        decreases n - i,
    {
        let ghost from = i;
        while i < n && space(bytes[i])
            invariant
                from <= i <= n == bytes@.len(),
                skip_spaces(bytes@, from as int) == skip_spaces(bytes@, i as int),
            decreases n - i,
        {
            i += 1;
        }
        let a = i;
        while i < n && !space(bytes[i])
            invariant
                a <= i <= n == bytes@.len(),
                find_space(bytes@, a as int) == find_space(bytes@, i as int),
            decreases n - i,
        {
            i += 1;
        }
        if a >= n {
            return out;
        }
        let piece = copy_range(bytes, a, i);
        out.push(piece);
    }
}

/// The position just after the line that starts at `from`.
pub fn next_line(bytes: &[u8], from: usize) -> (end: usize)
    requires
        from <= bytes@.len(),
    ensures
        end == line_end(bytes@, from as int),
        from <= end <= bytes@.len(),
        from < bytes@.len() ==> from < end,
{
    let n = bytes.len();
    let mut i: usize = from;
    while i < n && bytes[i] != 0x0a
        invariant
            from <= i <= n == bytes@.len(),
            find_byte(bytes@, from as int, 0x0a) == find_byte(bytes@, i as int, 0x0a),
        decreases n - i,
    {
        i += 1;
    }
    if i < n {
        i + 1
    } else {
        n
    }
}

/// The value of an unsigned decimal text, where it is one.
pub fn parse_usize(word: &[u8]) -> (r: Option<usize>)
    ensures
        r == parse_usize_spec(word@),
{
    let n = word.len();
    let first: usize = if n > 0 && word[0] == 0x2b {
        1
    } else {
        0
    };
    let ghost d = unsigned_digits(word@);
    assert(d =~= word@.subrange(first as int, n as int));
    if first == n {
        return None;
    }
    let mut acc: usize = 0;
    let mut i: usize = first;
    while i < n
        invariant
            first <= i <= n == word@.len(),
            d == word@.subrange(first as int, n as int),
            d == unsigned_digits(word@),
            forall|j: int| 0 <= j < i - first ==> is_digit(#[trigger] d[j]),
            acc == decimal_value(d.subrange(0, i - first)),
        decreases n - i,
    {
        let b = word[i];
        if !(0x30 <= b && b <= 0x39) {
            assert(!is_digit(d[i - first]));
            return None;
        }
        let digit: usize = (b - 0x30) as usize;
        proof {
            let t = d.subrange(0, i - first + 1);
            assert(t.drop_last() =~= d.subrange(0, i - first));
        }
        if acc > (usize::MAX - digit) / 10 {
            proof {
                if all_digits(d) {
                    lemma_decimal_prefix(d, i - first + 1);
                }
            }
            return None;
        }
        acc = acc * 10 + digit;
        i += 1;
    }
    assert(d.subrange(0, n - first) =~= d);
    Some(acc)
}

/// The decimal digits of `n`, without leading zeros.
pub open spec fn digits_of(n: nat) -> Seq<u8>
    decreases n,
{
    if n < 10 {
        seq![(0x30 + n) as u8]
    } else {
        digits_of(n / 10).push((0x30 + n % 10) as u8)
    }
}

/// `s` with zeros before it, as many as it lacks to `width` bytes.
pub open spec fn zero_padded(s: Seq<u8>, width: nat) -> Seq<u8> {
    if s.len() >= width {
        s
    } else {
        Seq::new((width - s.len()) as nat, |i: int| 0x30u8) + s
    }
}

/// The digits of a number are digits, and spell the number.
pub proof fn lemma_digits_spell(n: nat)
    ensures
        digits_of(n).len() >= 1,
        all_digits(digits_of(n)),
        decimal_value(digits_of(n)) == n,
        digits_of(n)[0] != 0x2b,
    decreases n,
{
    if n < 10 {
        let s = digits_of(n);
        assert(decimal_value(s.drop_last()) == 0);
    } else {
        lemma_digits_spell(n / 10);
        let s = digits_of(n);
        assert(s.drop_last() =~= digits_of(n / 10));
    }
}

/// What `decimal` writes, `parse_usize` reads back.
pub proof fn lemma_decimal_round_trip(n: usize)
    ensures
        parse_usize_spec(digits_of(n as nat)) == Some(n),
{
    lemma_digits_spell(n as nat);
}

/// Appends the bytes of an ASCII text.
pub fn push_text(out: &mut Vec<u8>, word: &str)
    requires
        is_ascii(word),
    ensures
        final(out)@ == old(out)@ + ascii(word),
{
    let w = word.as_bytes();
    proof {
        is_ascii_spec_bytes(word);
    }
    let n = w.len();
    let mut i: usize = 0;
    while i < n
        invariant
            i <= n == w@.len(),
            w@ == ascii(word),
            out@ == old(out)@ + w@.subrange(0, i as int),
        decreases n - i,
    {
        out.push(w[i]);
        i += 1;
    }
}

/// Appends the decimal digits of `n`, with zeros before them where they are
/// fewer than `width`.
pub fn push_decimal(out: &mut Vec<u8>, n: u64, width: usize)
    ensures
        final(out)@ == old(out)@ + zero_padded(digits_of(n as nat), width as nat),
{
    let mut rev: Vec<u8> = Vec::new();
    let mut m: u64 = n;
    while m >= 10
        invariant
            digits_of(n as nat) == digits_of(m as nat) + rev@.reverse(),
        decreases m,
    {
        let d: u8 = (m % 10) as u8;
        let ghost before = rev@;
        rev.push(0x30 + d);
        proof {
            assert(digits_of((m / 10) as nat).push((0x30 + d) as u8) + before.reverse()
                =~= digits_of((m / 10) as nat) + rev@.reverse());
        }
        m = m / 10;
    }
    rev.push(0x30 + m as u8);
    let count = rev.len();
    let ghost start = out@;
    if count < width {
        let mut k: usize = 0;
        while k < width - count
            invariant
                count < width,
                k <= width - count,
                out@ == start + Seq::new(k as nat, |i: int| 0x30u8),
            decreases width - count - k,
        {
            out.push(0x30);
            k += 1;
        }
    }
    let ghost padded = out@;
    let ghost digits = rev@.reverse();
    let mut i: usize = count;
    while i > 0
        invariant
            i <= count == rev@.len(),
            digits == rev@.reverse(),
            out@ == padded + digits.subrange(0, count - i),
        decreases i,
    {
        i -= 1;
        out.push(rev[i]);
    }
}


} // verus!
