//! Arithmetic on sizes: rounding to a multiple, powers of two, bit lengths.

use vstd::prelude::*;
use vstd::arithmetic::div_mod::{
    lemma_fundamental_div_mod,
    lemma_fundamental_div_mod_converse,
};
use vstd::arithmetic::logarithm::{lemma_log0, lemma_log_s, log};
use vstd::arithmetic::power2::{
    is_pow2,
    lemma2_to64,
    lemma_pow2_strictly_increases,
    lemma_pow2_unfold,
    pow2,
};
use vstd::layout::unsigned_int_max_values;
use vstd::std_specs::bits::{axiom_u64_leading_zeros, u64_leading_zeros};

verus! {

/// The smallest multiple of `align` that is not below `size`.
///
/// Meaningful for a positive `align` only.
pub open spec fn round_up(size: nat, align: nat) -> nat {
    if size % align == 0 {
        size
    } else {
        (size + align - size % align) as nat
    }
}

/// Multiplying by a number that is not negative keeps an order.
pub proof fn lemma_mul_le(a: int, j: int, k: int)
    by (nonlinear_arith)
    requires
        a >= 0,
        j <= k,
    ensures
        a * j <= a * k,
{
}

/// `round_up(size, align)` is a multiple of `align` and lies less than one
/// `align` above `size`.
pub proof fn lemma_round_up(size: nat, align: nat)
    requires
        align > 0,
    ensures
        round_up(size, align) % align == 0,
        size <= round_up(size, align) < size + align,
{
    let a = align as int;
    let q = size as int / a;
    let r = size as int % a;
    lemma_fundamental_div_mod(size as int, a);
    if r != 0 {
        let up = round_up(size, align) as int;
        assert(up == a * (q + 1)) by (nonlinear_arith)
            requires
                up == size + a - r,
                size == a * q + r,
        ;
        lemma_fundamental_div_mod_converse(up, a, q + 1, 0);
    }
}

/// No multiple of `align` lies between `size` and `round_up(size, align)`.
pub proof fn lemma_round_up_least(size: nat, align: nat, multiple: nat)
    requires
        align > 0,
        multiple % align == 0,
        size <= multiple,
    ensures
        round_up(size, align) <= multiple,
{
    let a = align as int;
    let q = size as int / a;
    let j = multiple as int / a;
    lemma_fundamental_div_mod(size as int, a);
    lemma_fundamental_div_mod(multiple as int, a);
    if size % align != 0 {
        if j <= q {
            lemma_mul_le(a, j, q);
        } else {
            lemma_mul_le(a, q + 1, j);
            assert(a * (q + 1) == a * q + a) by (nonlinear_arith);
        }
    }
}

/// A positive number is a power of two just when it shares no bit with its
/// predecessor.
pub proof fn lemma_pow2_single_bit(n: usize)
    ensures
        is_pow2(n as int) <==> n != 0 && n & ((n - 1) as usize) == 0,
    decreases n,
{
    reveal(is_pow2);
    if n == 0 {
    } else if n == 1 {
        assert(1usize & ((1usize - 1) as usize) == 0) by (bit_vector);
    } else {
        let h: usize = n / 2;
        lemma_pow2_single_bit(h);
        assert(n % 2 == 0 ==> (n & ((n - 1) as usize) == 0 <==> h & ((h - 1) as usize) == 0))
            by (bit_vector)
            requires
                n >= 2,
                h == n / 2,
        ;
        assert(n % 2 != 0 ==> n & ((n - 1) as usize) != 0) by (bit_vector)
            requires
                n >= 2,
        ;
    }
}

/// Tells whether `n` is a power of two.
pub fn is_power_of_two(n: usize) -> (yes: bool)
    ensures
        yes == is_pow2(n as int),
{
    proof {
        lemma_pow2_single_bit(n);
    }
    n != 0 && n & (n - 1) == 0
}

/// The number of binary digits of `x`, none for zero.
pub open spec fn bit_length(x: u64) -> nat {
    (64 - u64_leading_zeros(x)) as nat
}

/// A number lies below two to its bit length, and is at least half of that
/// unless it is zero.
pub proof fn lemma_bit_length(x: u64)
    ensures
        x == 0 <==> bit_length(x) == 0,
        bit_length(x) == 64 - u64_leading_zeros(x),
        x < pow2(bit_length(x)),
        x > 0 ==> pow2((bit_length(x) - 1) as nat) <= x,
    decreases x,
{
    reveal(u64_leading_zeros);
    axiom_u64_leading_zeros(x);
    lemma2_to64();
    if x != 0 {
        lemma_bit_length(x / 2);
        axiom_u64_leading_zeros(x / 2);
        lemma_pow2_unfold(bit_length(x));
        if x / 2 != 0 {
            lemma_pow2_unfold(bit_length(x / 2));
        }
    }
}

/// Two to the bit length of a `usize` is at most one above `usize::MAX`.
pub proof fn lemma_bit_length_usize(x: usize)
    ensures
        bit_length(x as u64) <= usize::BITS,
        pow2(bit_length(x as u64)) <= usize::MAX + 1,
{
    let n = bit_length(x as u64);
    lemma_bit_length(x as u64);
    unsigned_int_max_values();
    if n > usize::BITS {
        if n - 1 > usize::BITS {
            lemma_pow2_strictly_increases(usize::BITS as nat, (n - 1) as nat);
        }
    } else if n < usize::BITS {
        lemma_pow2_strictly_increases(n, usize::BITS as nat);
    }
}

/// The binary logarithm of a number between two neighbouring powers of two
/// is the smaller exponent.
pub proof fn lemma_log2_between(x: nat, k: nat)
    requires
        pow2(k) <= x < pow2(k + 1),
    ensures
        log(2, x as int) == k,
    decreases k,
{
    lemma2_to64();
    if k == 0 {
        lemma_log0(2, x as int);
    } else {
        lemma_pow2_unfold(k);
        lemma_pow2_unfold(k + 1);
        lemma_log_s(2, x as int);
        lemma_log2_between(x / 2, (k - 1) as nat);
    }
}

/// A positive number lies between two to its binary logarithm and the next
/// power of two.
pub proof fn lemma_log2_bounds(x: nat)
    requires
        x >= 1,
    ensures
        log(2, x as int) >= 0,
        pow2(log(2, x as int) as nat) <= x < pow2((log(2, x as int) + 1) as nat),
    decreases x,
{
    lemma2_to64();
    if x < 2 {
        lemma_log0(2, x as int);
    } else {
        lemma_log_s(2, x as int);
        lemma_log2_bounds(x / 2);
        let k = log(2, x as int / 2);
        lemma_pow2_unfold((k + 1) as nat);
        lemma_pow2_unfold((k + 2) as nat);
    }
}

} // verus!
