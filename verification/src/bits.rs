//! The bits of a field element.

use crate::field::{le_nat, Fe};
use vstd::arithmetic::div_mod::{
    lemma_basic_div, lemma_div_denominator, lemma_div_multiples_vanish_fancy,
    lemma_hoist_over_denominator, lemma_mod_breakdown, lemma_mod_mod, lemma_mod_multiples_vanish,
};
use vstd::arithmetic::power2::{lemma2_to64, lemma_pow2_adds, lemma_pow2_pos, pow2};
use vstd::prelude::*;

verus! {

/// The bit of `v` that has the weight `2^k`.
pub open spec fn bit_of(v: nat, k: nat) -> nat {
    (v / pow2(k)) % 2
}

/// A byte string of `n` bytes stands for a number below `2^(8n)`.
pub proof fn lemma_le_nat_bound(s: Seq<u8>)
    ensures
        le_nat(s) < pow2(8 * s.len()),
    decreases s.len(),
{
    lemma2_to64();
    if s.len() > 0 {
        let rest = s.skip(1);
        lemma_le_nat_bound(rest);
        lemma_pow2_adds(8, 8 * rest.len());
        assert(8 + 8 * rest.len() == 8 * s.len());
    }
}

/// Dropping the first `i` bytes of a byte string divides the number that it
/// stands for by `2^(8i)`.
pub proof fn lemma_le_nat_shift(s: Seq<u8>, i: nat)
    requires
        i <= s.len(),
    ensures
        le_nat(s) / pow2(8 * i) == le_nat(s.skip(i as int)),
    decreases i,
{
    lemma2_to64();
    if i == 0 {
        assert(s.skip(0) =~= s);
        assert(pow2(8 * i) == 1);
    } else {
        let j = (i - 1) as nat;
        lemma_le_nat_shift(s, j);
        let tail = s.skip(j as int);
        let rest = le_nat(tail.skip(1));
        let c = pow2(8 * j);
        assert(tail.skip(1) =~= s.skip(i as int));
        assert(tail.len() > 0);
        assert(le_nat(tail) == tail[0] as nat + 256 * rest);
        lemma_pow2_pos(8 * j);
        lemma_pow2_adds(8 * j, 8);
        assert(8 * j + 8 == 8 * i);
        assert(pow2(8 * i) == c * 256);
        lemma_div_denominator(le_nat(s) as int, c as int, 256);
        assert(le_nat(s) as int / (c * 256) as int == (le_nat(s) as int / c as int) / 256);
        lemma_div_multiples_vanish_fancy(rest as int, tail[0] as int, 256);
        assert((256 * rest + tail[0]) / 256 == rest);
    }
}

/// Adding a multiple of 256 to a byte does not change the bit that a
/// divisor of 128 picks out of it.
proof fn lemma_byte_bit(b: nat, rest: nat, d: nat, e: nat)
    requires
        d > 0,
        d * e == 128,
    ensures
        ((b + 256 * rest) / d) % 2 == (b / d) % 2,
{
    let er = e * rest;
    let j = 2 * er;
    assert(j * d == 256 * rest) by (nonlinear_arith)
        requires
            j == 2 * er,
            er == e * rest,
            d * e == 128,
    ;
    lemma_hoist_over_denominator(b as int, j as int, d);
    assert((b + j * d) as int / d as int == b as int / d as int + j);
    assert((b + 256 * rest) / d == b / d + 2 * er);
    lemma_mod_multiples_vanish(er as int, (b / d) as int, 2);
}

/// The weight of the bit `t` of a byte.
fn bit_weight(t: usize) -> (r: u8)
    requires
        t < 8,
    ensures
        r == pow2(t as nat),
{
    proof {
        lemma2_to64();
    }
    if t == 0 {
        1
    } else if t == 1 {
        2
    } else if t == 2 {
        4
    } else if t == 3 {
        8
    } else if t == 4 {
        16
    } else if t == 5 {
        32
    } else if t == 6 {
        64
    } else {
        128
    }
}

/// The bit `8i + t` of the number that a byte string stands for is the bit
/// `t` of its byte `i`.
pub proof fn lemma_le_nat_bit(s: Seq<u8>, i: nat, t: nat)
    requires
        i < s.len(),
        t < 8,
    ensures
        bit_of(le_nat(s), 8 * i + t) == (s[i as int] as nat / pow2(t)) % 2,
{
    lemma2_to64();
    let v = le_nat(s);
    let tail = s.skip(i as int);
    let rest = le_nat(tail.skip(1));
    let b = s[i as int] as nat;
    lemma_le_nat_shift(s, i);
    lemma_pow2_pos(8 * i);
    lemma_pow2_pos(t);
    lemma_pow2_adds(8 * i, t);
    lemma_div_denominator(v as int, pow2(8 * i) as int, pow2(t) as int);
    assert(tail.skip(1) =~= s.skip(i as int + 1));
    assert(le_nat(tail) == b + 256 * rest);
    assert(pow2(8 * i + t) == pow2(8 * i) * pow2(t));
    assert(v / pow2(8 * i + t) == (b + 256 * rest) / pow2(t));
    lemma_pow2_adds(t, (7 - t) as nat);
    lemma_byte_bit(b, rest, pow2(t), pow2((7 - t) as nat));
}

/// A number below `2^k` has no bit of the weight `2^k` or more.
pub proof fn lemma_bit_of_small(v: nat, k: nat, m: nat)
    requires
        v < pow2(k),
        k <= m,
    ensures
        bit_of(v, m) == 0,
{
    lemma_pow2_pos(k);
    lemma_pow2_adds(k, (m - k) as nat);
    lemma_pow2_pos((m - k) as nat);
    assert(pow2(k) <= pow2(m)) by (nonlinear_arith)
        requires
            pow2(m) == pow2(k) * pow2((m - k) as nat),
            pow2((m - k) as nat) >= 1,
            pow2(k) >= 1,
    ;
    lemma_basic_div(v as int, pow2(m) as int);
}

/// The low bits of a number are those of the number reduced by a power of
/// two.
pub proof fn lemma_bit_of_truncated(v: nat, n: nat, k: nat)
    requires
        k < n,
    ensures
        bit_of(v % pow2(n), k) == bit_of(v, k),
{
    let low = pow2(k);
    let high = pow2((n - k) as nat);
    lemma_pow2_pos(k);
    lemma_pow2_pos((n - k) as nat);
    lemma_pow2_adds(k, (n - k) as nat);
    lemma_mod_breakdown(v as int, low as int, high as int);
    let a = (v as int / low as int) % (high as int);
    let b = v as int % (low as int);
    assert(v % pow2(n) == low * a + b);
    lemma_div_multiples_vanish_fancy(a, b, low as int);
    assert((v % pow2(n)) / low == a);
    lemma_pow2_adds(1, (n - k - 1) as nat);
    lemma_pow2_pos((n - k - 1) as nat);
    lemma2_to64();
    lemma_mod_mod(v as int / low as int, 2, pow2((n - k - 1) as nat) as int);
}

/// Whether the bit of `value` with the weight `2^k` is set.
pub fn bit_at(value: &Fe, k: usize) -> (r: bool)
    ensures
        r == (bit_of(value@, k as nat) == 1),
        !r == (bit_of(value@, k as nat) == 0),
{
    let bytes = value.to_bytes();
    proof {
        lemma_le_nat_bound(bytes@);
    }
    if k >= 256 {
        proof {
            lemma_bit_of_small(value@, 256, k as nat);
        }
        false
    } else {
        let i = k / 8;
        let t = k % 8;
        let weight = bit_weight(t);
        proof {
            lemma_le_nat_bit(bytes@, i as nat, t as nat);
            lemma_pow2_pos(t as nat);
        }
        (bytes[i] / weight) % 2 == 1
    }
}

} // verus!
