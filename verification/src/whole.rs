//! The whole part of an IEEE 754 number, as a count: what a number of a
//! floating type means where a length or an index is read.

use vstd::prelude::*;

verus! {

/// Two to the power of `k`.
pub open spec fn two_to(k: nat) -> nat
    decreases k,
{
    if k == 0 {
        1
    } else {
        2 * two_to((k - 1) as nat)
    }
}

/// `whole`, or the largest count where it is larger.
pub open spec fn saturated(whole: int) -> usize {
    if whole > usize::MAX {
        usize::MAX
    } else {
        whole as usize
    }
}

/// The count that a 32-bit number stands for, given by its bits: its whole
/// part, the largest count where that is larger, and 0 where the number is
/// negative or not a number. The number is its 24-bit significand times
/// two to the power of its exponent less 150.
pub open spec fn count_of_single(bits: u32) -> usize {
    let magnitude = bits % 0x8000_0000;
    let exponent = magnitude / 0x80_0000;
    let significand = 0x80_0000 + magnitude % 0x80_0000;
    if bits >= 0x8000_0000 || magnitude > 0x7f80_0000 {
        0
    } else if exponent == 255 {
        usize::MAX
    } else if exponent < 127 {
        0
    } else if exponent <= 150 {
        saturated(significand / two_to((150 - exponent) as nat) as int)
    } else {
        saturated(significand * two_to((exponent - 150) as nat))
    }
}

/// The count that a 64-bit number stands for, given by its bits: its whole
/// part, the largest count where that is larger, and 0 where the number is
/// negative or not a number. The number is its 53-bit significand times
/// two to the power of its exponent less 1075.
pub open spec fn count_of_double(bits: u64) -> usize {
    let magnitude = bits % 0x8000_0000_0000_0000;
    let exponent = magnitude / 0x10_0000_0000_0000;
    let significand = 0x10_0000_0000_0000 + magnitude % 0x10_0000_0000_0000;
    if bits >= 0x8000_0000_0000_0000 || magnitude > 0x7ff0_0000_0000_0000 {
        0
    } else if exponent == 2047 {
        usize::MAX
    } else if exponent < 1023 {
        0
    } else if exponent <= 1075 {
        saturated(significand / two_to((1075 - exponent) as nat) as int)
    } else {
        saturated(significand * two_to((exponent - 1075) as nat))
    }
}

/// Powers of two multiply as their exponents add.
pub proof fn lemma_two_to_adds(a: nat, b: nat)
    ensures
        two_to(a + b) == two_to(a) * two_to(b),
    decreases a,
{
    if a > 0 {
        lemma_two_to_adds((a - 1) as nat, b);
        assert(2 * (two_to((a - 1) as nat) * two_to(b)) == (2 * two_to((a - 1) as nat)) * two_to(b))
            by (nonlinear_arith);
    } else {
        assert(two_to(a) * two_to(b) == two_to(b)) by (nonlinear_arith)
            requires
                two_to(a) == 1,
        ;
    }
}

/// Larger exponents give larger powers.
pub proof fn lemma_two_to_grows(a: nat, b: nat)
    requires
        a <= b,
    ensures
        1 <= two_to(a) <= two_to(b),
    decreases b,
{
    if a < b {
        lemma_two_to_grows(a, (b - 1) as nat);
    } else if a > 0 {
        lemma_two_to_grows((a - 1) as nat, (a - 1) as nat);
    }
}

/// Some powers of two.
pub proof fn lemma_two_to_values()
    ensures
        two_to(8) == 0x100,
        two_to(11) == 0x800,
        two_to(12) == 0x1000,
        two_to(40) == 0x100_0000_0000,
        two_to(41) == 0x200_0000_0000,
        two_to(52) == 0x10_0000_0000_0000,
{
    reveal_with_fuel(two_to, 9);
    lemma_two_to_adds(8, 3);
    assert(two_to(11) == 0x800) by (nonlinear_arith)
        requires
            two_to(11) == two_to(8) * two_to(3),
            two_to(8) == 0x100,
            two_to(3) == 8,
    ;
    lemma_two_to_adds(8, 4);
    assert(two_to(12) == 0x1000) by (nonlinear_arith)
        requires
            two_to(12) == two_to(8) * two_to(4),
            two_to(8) == 0x100,
            two_to(4) == 0x10,
    ;
    lemma_two_to_adds(8, 8);
    assert(two_to(16) == 0x1_0000) by (nonlinear_arith)
        requires
            two_to(16) == two_to(8) * two_to(8),
            two_to(8) == 0x100,
    ;
    lemma_two_to_adds(16, 16);
    assert(two_to(32) == 0x1_0000_0000) by (nonlinear_arith)
        requires
            two_to(32) == two_to(16) * two_to(16),
            two_to(16) == 0x1_0000,
    ;
    lemma_two_to_adds(32, 8);
    assert(two_to(40) == 0x100_0000_0000) by (nonlinear_arith)
        requires
            two_to(40) == two_to(32) * two_to(8),
            two_to(32) == 0x1_0000_0000,
            two_to(8) == 0x100,
    ;
    lemma_two_to_adds(40, 1);
    assert(two_to(41) == 0x200_0000_0000) by (nonlinear_arith)
        requires
            two_to(41) == two_to(40) * two_to(1),
            two_to(40) == 0x100_0000_0000,
            two_to(1) == 2,
    ;
    lemma_two_to_adds(40, 12);
    assert(two_to(52) == 0x10_0000_0000_0000) by (nonlinear_arith)
        requires
            two_to(52) == two_to(40) * two_to(12),
            two_to(40) == 0x100_0000_0000,
            two_to(12) == 0x1000,
    ;
}

/// Two to the power of `k`.
fn power_of_two(k: u64) -> (p: u64)
    requires
        k <= 52,
    ensures
        p == two_to(k as nat),
        1 <= p <= 0x10_0000_0000_0000,
{
    let mut p: u64 = 1;
    let mut i: u64 = 0;
    proof {
        lemma_two_to_values();
    }
    while i < k
        invariant
            i <= k <= 52,
            p == two_to(i as nat),
            two_to(52) == 0x10_0000_0000_0000,
        decreases k - i,
    {
        proof {
            lemma_two_to_grows((i + 1) as nat, 52);
        }
        p = p * 2;
        i += 1;
    }
    proof {
        lemma_two_to_grows(k as nat, 52);
    }
    p
}

/// The count that fits of a whole number.
fn saturate(whole: u64) -> (r: usize)
    ensures
        r == saturated(whole as int),
{
    if whole > usize::MAX as u64 {
        usize::MAX
    } else {
        whole as usize
    }
}

/// The count that a 32-bit number stands for, given by its bits.
pub fn single_to_count(bits: u32) -> (r: usize)
    ensures
        r == count_of_single(bits),
{
    let magnitude: u32 = bits % 0x8000_0000;
    let exponent: u32 = magnitude / 0x80_0000;
    let significand: u64 = 0x80_0000 + (magnitude % 0x80_0000) as u64;
    if bits >= 0x8000_0000 || magnitude > 0x7f80_0000 {
        0
    } else if exponent == 255 {
        usize::MAX
    } else if exponent < 127 {
        0
    } else if exponent <= 150 {
        saturate(significand / power_of_two((150 - exponent) as u64))
    } else if exponent - 150 > 40 {
        proof {
            lemma_two_to_values();
            lemma_two_to_grows(41, (exponent - 150) as nat);
            assert(significand * two_to((exponent - 150) as nat) >= 0x80_0000 * 0x200_0000_0000)
                by (nonlinear_arith)
                requires
                    significand >= 0x80_0000,
                    two_to((exponent - 150) as nat) >= 0x200_0000_0000,
            ;
        }
        usize::MAX
    } else {
        let p = power_of_two((exponent - 150) as u64);
        proof {
            lemma_two_to_values();
            lemma_two_to_grows((exponent - 150) as nat, 40);
            assert(significand * p <= 0xff_ffff * 0x100_0000_0000) by (nonlinear_arith)
                requires
                    significand <= 0xff_ffff,
                    p <= 0x100_0000_0000,
            ;
        }
        saturate(significand * p)
    }
}

/// The count that a 64-bit number stands for, given by its bits.
pub fn double_to_count(bits: u64) -> (r: usize)
    ensures
        r == count_of_double(bits),
{
    let magnitude: u64 = bits % 0x8000_0000_0000_0000;
    let exponent: u64 = magnitude / 0x10_0000_0000_0000;
    let significand: u64 = 0x10_0000_0000_0000 + magnitude % 0x10_0000_0000_0000;
    if bits >= 0x8000_0000_0000_0000 || magnitude > 0x7ff0_0000_0000_0000 {
        0
    } else if exponent == 2047 {
        usize::MAX
    } else if exponent < 1023 {
        0
    } else if exponent <= 1075 {
        saturate(significand / power_of_two(1075 - exponent))
    } else if exponent - 1075 > 11 {
        proof {
            lemma_two_to_values();
            lemma_two_to_grows(12, (exponent - 1075) as nat);
            assert(significand * two_to((exponent - 1075) as nat) >= 0x10_0000_0000_0000 * 0x1000)
                by (nonlinear_arith)
                requires
                    significand >= 0x10_0000_0000_0000,
                    two_to((exponent - 1075) as nat) >= 0x1000,
            ;
        }
        usize::MAX
    } else {
        let p = power_of_two(exponent - 1075);
        proof {
            lemma_two_to_values();
            lemma_two_to_grows((exponent - 1075) as nat, 11);
            assert(significand * p <= 0x1f_ffff_ffff_ffff * 0x800) by (nonlinear_arith)
                requires
                    significand <= 0x1f_ffff_ffff_ffff,
                    p <= 0x800,
            ;
        }
        saturate(significand * p)
    }
}

} // verus!
