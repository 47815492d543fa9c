//! Integer statistics over extracted bit sequences: a fixed-point base-2
//! logarithm, Shannon entropy of a binary alphabet in thousandths of a bit,
//! and the chi-square pair test in thousandths.
//!
//! All scores are exact integer functions of their inputs; real-valued
//! formulas are approximated in fixed point with 10 fractional bits for the
//! logarithm and a final result expressed in thousandths (milli units).

use vstd::prelude::*;
use vstd::arithmetic::power2::*;
use vstd::arithmetic::div_mod::*;

verus! {

/// Floor of the base-2 logarithm of `x` (0 for `x < 2`).
pub open spec fn floor_log2(x: nat) -> nat
    decreases x,
{
    if x < 2 {
        0
    } else {
        1 + floor_log2(x / 2)
    }
}

pub proof fn lemma_floor_log2_bounds(x: nat)
    requires
        x >= 1,
    ensures
        pow2(floor_log2(x)) <= x < pow2(floor_log2(x) + 1),
    decreases x,
{
    if x < 2 {
        lemma2_to64();
    } else {
        lemma_floor_log2_bounds(x / 2);
        let e: nat = floor_log2(x / 2);
        lemma_pow2_unfold(e + 1);
        lemma_pow2_unfold(e + 2);
        lemma_fundamental_div_mod(x as int, 2);
    }
}

pub proof fn lemma_floor_log2_le63(x: nat)
    requires
        1 <= x < 0x1_0000_0000_0000_0000,
    ensures
        floor_log2(x) <= 63,
{
    lemma_floor_log2_bounds(x);
    lemma2_to64();
    let e = floor_log2(x);
    if e > 63 {
        if e > 64 {
            lemma_pow2_strictly_increases(64, e);
        }
        assert(pow2(e) >= pow2(64));
        assert(false);
    }
}

/// The mantissa of `x` normalized to 33 bits: `x * 2^32 / 2^floor_log2(x)`.
pub open spec fn mant32(x: nat) -> nat {
    let e = floor_log2(x);
    if e <= 32 {
        x * pow2((32 - e) as nat)
    } else {
        x / pow2((e - 32) as nat)
    }
}

pub proof fn lemma_mant32_bounds(x: nat)
    requires
        x >= 1,
    ensures
        pow2(32) <= mant32(x) < pow2(33),
{
    let e = floor_log2(x);
    lemma_floor_log2_bounds(x);
    if e <= 32 {
        let p = pow2((32 - e) as nat);
        lemma_pow2_pos((32 - e) as nat);
        lemma_pow2_adds(e, (32 - e) as nat);
        lemma_pow2_adds(e + 1, (32 - e) as nat);
        assert(pow2(e) * p <= x * p) by (nonlinear_arith)
            requires
                pow2(e) <= x,
                p >= 0,
        ;
        assert(x * p < pow2(e + 1) * p) by (nonlinear_arith)
            requires
                x < pow2(e + 1),
                p >= 1,
        ;
    } else {
        let d = pow2((e - 32) as nat);
        lemma_pow2_unfold(33);
        lemma_pow2_pos((e - 32) as nat);
        lemma_pow2_adds((e - 32) as nat, 32);
        lemma_pow2_adds((e - 32) as nat, 33);
        // lower bound: pow2(e) / d == pow2(32)
        lemma_div_multiples_vanish(pow2(32) as int, d as int);
        lemma_div_is_ordered(pow2(e) as int, x as int, d as int);
        // upper bound: x < pow2(e + 1) == d * pow2(33), so x / d < pow2(33)
        lemma_pow2_unfold(e + 1);
        assert(x < d * pow2(33)) by (nonlinear_arith)
            requires
                x < pow2(e + 1),
                pow2(e + 1) == 2 * pow2(e),
                pow2(e) == d * pow2(32),
                pow2(33) == 2 * pow2(32),
        ;
        lemma_multiply_divide_lt(x as int, d as int, pow2(33) as int);
    }
}

/// The next bit produced by one squaring step of the mantissa.
pub open spec fn frac_step_bit(q: nat) -> nat {
    if (q * q) / pow2(32) >= pow2(33) {
        1
    } else {
        0
    }
}

/// The renormalized mantissa after one squaring step.
pub open spec fn frac_step_q(q: nat) -> nat {
    if (q * q) / pow2(32) >= pow2(33) {
        (q * q) / pow2(32) / 2
    } else {
        (q * q) / pow2(32)
    }
}

/// The first `k` fixed-point fraction bits of log2 of a 33-bit normalized
/// mantissa `q`, by repeated squaring.
pub open spec fn frac_bits(q: nat, k: nat) -> nat
    decreases k,
{
    if k == 0 {
        0
    } else {
        frac_step_bit(q) * pow2((k - 1) as nat) + frac_bits(frac_step_q(q), (k - 1) as nat)
    }
}

pub proof fn lemma_frac_bits_bound(q: nat, k: nat)
    ensures
        frac_bits(q, k) < pow2(k),
    decreases k,
{
    lemma_pow2_pos(k);
    if k == 0 {
        lemma2_to64();
    } else {
        lemma_pow2_unfold(k);
        lemma_pow2_pos((k - 1) as nat);
        lemma_frac_bits_bound(frac_step_q(q), (k - 1) as nat);
    }
}

/// Base-2 logarithm of `x` in fixed point with 10 fraction bits, so the unit
/// is 1/1024 of a bit.
pub open spec fn log2x1024(x: nat) -> nat {
    1024 * floor_log2(x) + frac_bits(mant32(x), 10)
}

fn floor_log2_exec(x: u64) -> (e: u32)
    requires
        x >= 1,
    ensures
        e == floor_log2(x as nat),
        e <= 63,
{
    let mut v: u64 = x;
    let mut e: u32 = 0;
    proof {
        lemma_floor_log2_le63(x as nat);
    }
    while v >= 2
        invariant
            1 <= v,
            floor_log2(x as nat) == e + floor_log2(v as nat),
            floor_log2(x as nat) <= 63,
        decreases v,
    {
        assert(floor_log2(v as nat) == 1 + floor_log2((v / 2) as nat));
        v = v / 2;
        e = e + 1;
    }
    assert(floor_log2(v as nat) == 0);
    e
}

fn pow2_u64(e: u32) -> (r: u64)
    requires
        e <= 32,
    ensures
        r == pow2(e as nat),
{
    proof {
        lemma2_to64();
    }
    let mut r: u64 = 1;
    let mut i: u32 = 0;
    while i < e
        invariant
            i <= e <= 32,
            r == pow2(i as nat),
        decreases e - i,
    {
        proof {
            lemma_pow2_unfold((i + 1) as nat);
            if (i as nat) < 32 {
                lemma_pow2_strictly_increases(i as nat, 32);
            }
            lemma2_to64();
        }
        r = r * 2;
        i = i + 1;
    }
    r
}

fn mant32_exec(x: u64) -> (q: u64)
    requires
        x >= 1,
    ensures
        q == mant32(x as nat),
        0x1_0000_0000 <= q < 0x2_0000_0000,
{
    proof {
        lemma_mant32_bounds(x as nat);
        lemma2_to64();
        lemma_pow2_unfold(33);
    }
    let e: u32 = floor_log2_exec(x);
    if e <= 32 {
        let p: u64 = pow2_u64(32 - e);
        assert(x * p == mant32(x as nat));
        x * p
    } else {
        let d: u64 = pow2_u64(e - 32);
        proof {
            lemma_pow2_pos((e - 32) as nat);
        }
        assert(x / d == mant32(x as nat));
        x / d
    }
}

fn frac10_exec(q0: u64) -> (r: u32)
    requires
        0x1_0000_0000 <= q0 < 0x2_0000_0000,
    ensures
        r == frac_bits(q0 as nat, 10),
        r < 1024,
{
    let mut q: u64 = q0;
    let mut r: u32 = 0;
    let mut i: u32 = 0;
    proof {
        lemma2_to64();
        lemma_pow2_unfold(33);
    }
    while i < 10
        invariant
            i <= 10,
            0x1_0000_0000 <= q < 0x2_0000_0000,
            frac_bits(q0 as nat, 10) == r * pow2((10 - i) as nat) + frac_bits(
                q as nat,
                (10 - i) as nat,
            ),
            r < pow2(i as nat),
        decreases 10 - i,
    {
        let ghost k: nat = (10 - i) as nat;
        let ghost q_old: nat = q as nat;
        let ghost r_old: nat = r as nat;
        proof {
            lemma2_to64();
            lemma_pow2_unfold(33);
            assert((q as u128) * (q as u128) < 0x4_0000_0000_0000_0000) by (nonlinear_arith)
                requires
                    (q as u128) < 0x2_0000_0000,
            ;
            assert((q as u128) * (q as u128) >= 0x1_0000_0000_0000_0000) by (nonlinear_arith)
                requires
                    (q as u128) >= 0x1_0000_0000,
            ;
        }
        let wide: u128 = (q as u128) * (q as u128);
        proof {
            lemma_multiply_divide_lt(wide as int, 0x1_0000_0000, 0x4_0000_0000);
            lemma_div_is_ordered(0x1_0000_0000_0000_0000, wide as int, 0x1_0000_0000);
            lemma_div_multiples_vanish(0x1_0000_0000, 0x1_0000_0000);
        }
        let q2: u64 = (wide / 0x1_0000_0000) as u64;
        proof {
            assert(q2 == (q_old * q_old) / pow2(32));
        }
        let bit: u32;
        if q2 >= 0x2_0000_0000 {
            proof {
                lemma_multiply_divide_lt(q2 as int, 2, 0x2_0000_0000);
                lemma_div_is_ordered(0x2_0000_0000, q2 as int, 2);
                lemma_div_multiples_vanish(0x1_0000_0000, 2);
            }
            q = q2 / 2;
            bit = 1;
        } else {
            q = q2;
            bit = 0;
        }
        proof {
            // one definitional step of frac_bits
            assert(frac_step_bit(q_old) == bit as nat);
            assert(frac_step_q(q_old) == q as nat);
            assert(frac_bits(q_old, k) == (bit as nat) * pow2((k - 1) as nat) + frac_bits(
                q as nat,
                (k - 1) as nat,
            ));
            // fold the new bit into the accumulator
            let p: nat = pow2((k - 1) as nat);
            lemma_pow2_unfold(k);
            assert((2 * r_old + bit as nat) * p == r_old * (2 * p) + (bit as nat) * p)
                by (nonlinear_arith);
            // accumulator stays below pow2(i + 1)
            lemma_pow2_unfold((i + 1) as nat);
            if (i as nat) < 10 {
                lemma_pow2_strictly_increases(i as nat, 10);
            }
        }
        r = 2 * r + bit;
        i = i + 1;
    }
    proof {
        lemma2_to64();
        assert(i == 10);
        assert(pow2(0) == 1);
        assert(frac_bits(q as nat, 0) == 0);
        assert(frac_bits(q0 as nat, 10) == r * pow2((10 - i) as nat) + frac_bits(
            q as nat,
            (10 - i) as nat,
        ));
        assert((10 - i) as nat == 0);
        assert(pow2((10 - i) as nat) == 1);
        assert(frac_bits(q as nat, (10 - i) as nat) == 0);
        assert(r * pow2((10 - i) as nat) == r * 1);
        assert(r * 1 == r) by (nonlinear_arith);
        assert(frac_bits(q0 as nat, 10) == r);
    }
    r
}

/// Fixed-point log2 in units of 1/1024: `floor_log2` plus 10 fraction bits.
pub fn log2x1024_exec(x: u64) -> (r: u32)
    requires
        x >= 1,
    ensures
        r == log2x1024(x as nat),
        r < 65536,
{
    let e: u32 = floor_log2_exec(x);
    let q: u64 = mant32_exec(x);
    let f: u32 = frac10_exec(q);
    1024 * e + f
}

/// One summand of the entropy numerator: `count * (log2(total) - log2(count))`
/// in 1/1024 units, or 0 for an absent symbol.
pub open spec fn entropy_term(count: nat, total: nat) -> int {
    if count == 0 {
        0
    } else {
        count * (log2x1024(total) - log2x1024(count))
    }
}

/// Shannon entropy of a binary alphabet with the given symbol counts, in
/// thousandths of a bit, clamped to [0, 1000].
pub open spec fn entropy_milli_spec(zeros: nat, ones: nat, total: nat) -> int {
    if total == 0 {
        0
    } else {
        let raw = entropy_term(zeros, total) + entropy_term(ones, total);
        if raw <= 0 {
            0
        } else if raw * 1000 / (1024 * (total as int)) > 1000 {
            1000
        } else {
            raw * 1000 / (1024 * (total as int))
        }
    }
}

fn entropy_term_exec(count: usize, total: usize, lt: u32) -> (r: i128)
    requires
        count <= total,
        total >= 1,
        lt == log2x1024(total as nat),
        lt < 65536,
    ensures
        r == entropy_term(count as nat, total as nat),
        -0x20_0000_0000_0000_0000_0000 <= r <= 0x20_0000_0000_0000_0000_0000,
{
    if count == 0 {
        0
    } else {
        let lc: u32 = log2x1024_exec(count as u64);
        let d: i128 = (lt as i128) - (lc as i128);
        proof {
            assert(-65536 <= d <= 65536);
            assert((count as i128) * d <= 0x20_0000_0000_0000_0000_0000 && (count as i128) * d
                >= -0x20_0000_0000_0000_0000_0000) by (nonlinear_arith)
                requires
                    0 <= (count as i128) <= 0x1_0000_0000_0000_0000i128,
                    -65536 <= d <= 65536,
            ;
            assert((count as i128) * d == entropy_term(count as nat, total as nat))
                by (nonlinear_arith)
                requires
                    count >= 1,
                    d == log2x1024(total as nat) - log2x1024(count as nat),
                    entropy_term(count as nat, total as nat) == (count as int) * (log2x1024(
                        total as nat,
                    ) - log2x1024(count as nat)),
            ;
        }
        (count as i128) * d
    }
}

/// Entropy in thousandths of a bit from symbol counts.
pub fn entropy_milli_from_counts(zeros: usize, ones: usize, total: usize) -> (r: u32)
    requires
        zeros <= total,
        ones <= total,
    ensures
        r == entropy_milli_spec(zeros as nat, ones as nat, total as nat),
        r <= 1000,
{
    if total == 0 {
        return 0;
    }
    let lt: u32 = log2x1024_exec(total as u64);
    let term_z: i128 = entropy_term_exec(zeros, total, lt);
    let term_o: i128 = entropy_term_exec(ones, total, lt);
    let raw: i128 = term_z + term_o;
    if raw <= 0 {
        return 0;
    }
    let denom: i128 = 1024i128 * (total as i128);
    let m: i128 = raw * 1000 / denom;
    proof {
        lemma_div_pos_is_pos((raw * 1000) as int, denom as int);
    }
    if m > 1000 {
        1000
    } else {
        m as u32
    }
}

/// Number of occurrences of `v` among the first `n` elements of `s`.
pub open spec fn count_val(s: Seq<u8>, v: u8, n: nat) -> nat
    decreases n,
{
    if n == 0 || n > s.len() {
        0
    } else {
        count_val(s, v, (n - 1) as nat) + if s[n - 1] == v {
            1nat
        } else {
            0nat
        }
    }
}

pub proof fn lemma_count_val_le(s: Seq<u8>, v: u8, n: nat)
    ensures
        count_val(s, v, n) <= n,
    decreases n,
{
    if n == 0 || n > s.len() {
    } else {
        lemma_count_val_le(s, v, (n - 1) as nat);
    }
}

/// Every element is a bit (0 or 1).
pub open spec fn is_bit_seq(s: Seq<u8>) -> bool {
    forall|i: int| 0 <= i < s.len() ==> s[i] <= 1
}

/// Shannon entropy of a bit sequence over the binary alphabet, in
/// thousandths of a bit.
pub open spec fn seq_entropy_milli(s: Seq<u8>) -> int {
    entropy_milli_spec(count_val(s, 0, s.len()), count_val(s, 1, s.len()), s.len())
}

/// Entropy of a bit sequence, in thousandths of a bit.  An empty sequence
/// has entropy 0.
pub fn bits_entropy_milli(bits: &[u8]) -> (r: u32)
    ensures
        r == seq_entropy_milli(bits@),
        r <= 1000,
{
    let n: usize = bits.len();
    let mut zeros: usize = 0;
    let mut ones: usize = 0;
    let mut i: usize = 0;
    while i < n
        invariant
            i <= n == bits@.len(),
            zeros == count_val(bits@, 0, i as nat),
            ones == count_val(bits@, 1, i as nat),
            zeros <= i,
            ones <= i,
        decreases n - i,
    {
        assert(count_val(bits@, 0, (i + 1) as nat) == count_val(bits@, 0, i as nat) + if bits@[
            i as int] == 0 {
            1nat
        } else {
            0nat
        });
        assert(count_val(bits@, 1, (i + 1) as nat) == count_val(bits@, 1, i as nat) + if bits@[
            i as int] == 1 {
            1nat
        } else {
            0nat
        });
        let b: u8 = bits[i];
        if b == 0 {
            zeros = zeros + 1;
        } else if b == 1 {
            ones = ones + 1;
        }
        i = i + 1;
    }
    entropy_milli_from_counts(zeros, ones, n)
}

// ---------------------------------------------------------------------------
// Chi-square pair test
// ---------------------------------------------------------------------------

/// Value in 0..4 of the `i`-th consecutive bit pair.
pub open spec fn pair_at(s: Seq<u8>, i: int) -> u8 {
    ((s[2 * i] * 2 + s[2 * i + 1]) % 4) as u8
}

/// Number of pairs among the first `n` whose value is `j`.
pub open spec fn count_pairs(s: Seq<u8>, j: u8, n: nat) -> nat
    decreases n,
{
    if n == 0 || 2 * n > s.len() {
        0
    } else {
        count_pairs(s, j, (n - 1) as nat) + if pair_at(s, n - 1) == j {
            1nat
        } else {
            0nat
        }
    }
}

pub proof fn lemma_count_pairs_le(s: Seq<u8>, j: u8, n: nat)
    ensures
        count_pairs(s, j, n) <= n,
    decreases n,
{
    if n == 0 || 2 * n > s.len() {
    } else {
        lemma_count_pairs_le(s, j, (n - 1) as nat);
    }
}

/// One chi-square numerator term `(4*observed - pairs)^2`.
pub open spec fn chi_term(observed: nat, pairs: nat) -> int {
    (4 * observed - pairs) * (4 * observed - pairs)
}

/// Chi-square statistic of the pair distribution against the uniform
/// expectation, in thousandths: `sum_j (obs_j - t/4)^2 / (t/4)` scaled by
/// 1000, with a trailing unpaired bit dropped and 0 for an empty sequence.
pub open spec fn seq_chi_square_milli(s: Seq<u8>) -> int {
    let t = s.len() / 2;
    if t == 0 {
        0
    } else {
        (chi_term(count_pairs(s, 0, t), t) + chi_term(count_pairs(s, 1, t), t) + chi_term(
            count_pairs(s, 2, t),
            t,
        ) + chi_term(count_pairs(s, 3, t), t)) * 1000 / (4 * (t as int))
    }
}

proof fn lemma_floor_log2_double(m: nat)
    requires
        m >= 1,
    ensures
        floor_log2(2 * m) == 1 + floor_log2(m),
{
    lemma_div_multiples_vanish(m as int, 2);
    assert(floor_log2(2 * m) == 1 + floor_log2((2 * m) / 2));
}

proof fn lemma_mant32_double(m: nat)
    requires
        m >= 1,
    ensures
        mant32(2 * m) == mant32(m),
{
    lemma_floor_log2_double(m);
    lemma2_to64();
    let e = floor_log2(m);
    if e + 1 <= 32 {
        lemma_pow2_unfold((32 - e) as nat);
        let p = pow2((31 - e) as nat);
        assert((2 * m) * p == m * (2 * p)) by (nonlinear_arith);
    } else if e == 32 {
        // mant32(m) == m * pow2(0) == m; mant32(2m) == (2m) / pow2(1) == m
        lemma_div_multiples_vanish(m as int, 2);
        assert(m * 1 == m) by (nonlinear_arith);
    } else {
        // both sides divide: 2m / (2 * d) == m / d
        let d = pow2((e - 32) as nat);
        lemma_pow2_pos((e - 32) as nat);
        lemma_pow2_unfold((e + 1 - 32) as nat);
        lemma_div_denominator((2 * m) as int, 2, d as int);
        lemma_div_multiples_vanish(m as int, 2);
        assert(mant32(2 * m) == (2 * m) / (2 * d));
    }
}

/// Doubling a positive number raises its fixed-point log2 by exactly one
/// bit (1024 units): the mantissa is unchanged.
pub proof fn lemma_log2x1024_double(m: nat)
    requires
        m >= 1,
    ensures
        log2x1024(2 * m) == log2x1024(m) + 1024,
{
    lemma_floor_log2_double(m);
    lemma_mant32_double(m);
}

proof fn lemma_count_all_zeros(s: Seq<u8>, n: nat)
    requires
        n <= s.len(),
        forall|i: int| 0 <= i < s.len() ==> s[i] == 0,
    ensures
        count_val(s, 0, n) == n,
        count_val(s, 1, n) == 0,
    decreases n,
{
    if n > 0 {
        lemma_count_all_zeros(s, (n - 1) as nat);
    }
}

/// An all-zero bit sequence has entropy exactly 0.
pub proof fn lemma_entropy_all_zeros(s: Seq<u8>)
    requires
        forall|i: int| 0 <= i < s.len() ==> s[i] == 0,
    ensures
        seq_entropy_milli(s) == 0,
{
    lemma_count_all_zeros(s, s.len());
    if s.len() > 0 {
        assert(entropy_term(s.len(), s.len()) == s.len() * 0);
        assert(s.len() * 0 == 0) by (nonlinear_arith);
    }
}

proof fn lemma_count_alternating(s: Seq<u8>, n: nat)
    requires
        is_bit_seq(s),
        n % 2 == 0,
        n <= s.len(),
        forall|i: int| 0 <= i < s.len() - 1 ==> #[trigger] s[i] != s[i + 1],
    ensures
        count_val(s, 0, n) == n / 2,
        count_val(s, 1, n) == n / 2,
    decreases n,
{
    if n >= 2 {
        lemma_count_alternating(s, (n - 2) as nat);
        assert(s[n - 2] != s[n - 1]);
        assert(s[n - 2] <= 1 && s[n - 1] <= 1);
        assert(count_val(s, 0, n) == count_val(s, 0, (n - 1) as nat) + if s[n - 1] == 0 {
            1nat
        } else {
            0nat
        });
        assert(count_val(s, 0, (n - 1) as nat) == count_val(s, 0, (n - 2) as nat) + if s[n - 2]
            == 0 {
            1nat
        } else {
            0nat
        });
        assert(count_val(s, 1, n) == count_val(s, 1, (n - 1) as nat) + if s[n - 1] == 1 {
            1nat
        } else {
            0nat
        });
        assert(count_val(s, 1, (n - 1) as nat) == count_val(s, 1, (n - 2) as nat) + if s[n - 2]
            == 1 {
            1nat
        } else {
            0nat
        });
        lemma_fundamental_div_mod(n as int, 2);
        lemma_div_multiples_vanish((n / 2 - 1) as int, 2);
        assert((n - 2) as nat / 2 == n / 2 - 1);
    }
}

/// A perfectly alternating bit sequence of even length at least 2 has
/// entropy exactly 1000 thousandths: one full bit.
pub proof fn lemma_entropy_alternating(s: Seq<u8>)
    requires
        is_bit_seq(s),
        s.len() >= 2,
        s.len() % 2 == 0,
        forall|i: int| 0 <= i < s.len() - 1 ==> #[trigger] s[i] != s[i + 1],
    ensures
        seq_entropy_milli(s) == 1000,
{
    let len = s.len();
    let h = len / 2;
    lemma_count_alternating(s, len);
    lemma_fundamental_div_mod(len as int, 2);
    assert(len == 2 * h);
    lemma_log2x1024_double(h);
    // each term is h * 1024, so raw == 2048 * h
    let raw = entropy_term(h, len) + entropy_term(h, len);
    assert(entropy_term(h, len) == h * 1024);
    assert(raw == 2048 * (h as int)) by (nonlinear_arith)
        requires
            raw == (h as int) * 1024 + (h as int) * 1024,
    ;
    assert(raw > 0) by (nonlinear_arith)
        requires
            raw == 2048 * (h as int),
            h >= 1,
    ;
    assert(1024 * (len as int) == 2048 * (h as int));
    assert(raw * 1000 == (2048 * (h as int)) * 1000) by (nonlinear_arith)
        requires
            raw == 2048 * (h as int),
    ;
    assert((2048 * (h as int)) * 1000 == (2048 * (h as int)) * 1000);
    lemma_div_multiples_vanish(1000, 2048 * (h as int));
    assert((2048 * (h as int)) * 1000 == (2048 * (h as int)) * 1000);
    assert(raw * 1000 / (1024 * (len as int)) == 1000) by {
        assert(raw * 1000 == (2048 * (h as int)) * 1000);
        assert((2048 * (h as int)) * 1000 / (2048 * (h as int)) == 1000);
    };
}

proof fn lemma_count_pairs_partition(s: Seq<u8>, n: nat)
    requires
        2 * n <= s.len(),
    ensures
        count_pairs(s, 0, n) + count_pairs(s, 1, n) + count_pairs(s, 2, n) + count_pairs(s, 3, n)
            == n,
    decreases n,
{
    if n > 0 {
        lemma_count_pairs_partition(s, (n - 1) as nat);
        let v = pair_at(s, n - 1);
        assert(v < 4) by {
            lemma_mod_division_less_than_divisor((s[2 * (n - 1)] * 2 + s[2 * (n - 1) + 1]) as int, 4);
        };
        assert(v == 0 || v == 1 || v == 2 || v == 3);
    }
}

/// A pair distribution that is exactly uniform across the four pair values
/// has chi-square exactly 0.
pub proof fn lemma_chi_square_uniform(s: Seq<u8>)
    requires
        count_pairs(s, 0, s.len() / 2) == count_pairs(s, 1, s.len() / 2),
        count_pairs(s, 1, s.len() / 2) == count_pairs(s, 2, s.len() / 2),
        count_pairs(s, 2, s.len() / 2) == count_pairs(s, 3, s.len() / 2),
    ensures
        seq_chi_square_milli(s) == 0,
{
    let t = s.len() / 2;
    if t > 0 {
        lemma_fundamental_div_mod(s.len() as int, 2);
        lemma_count_pairs_partition(s, t);
        let c = count_pairs(s, 0, t);
        assert(4 * c == t);
        assert(chi_term(c, t) == 0);
        lemma_div_of0((4 * (t as int)) as int);
    }
}

/// `(4*observed - pairs)^2` without overflow, as a nonnegative term.
fn chi_term_exec(observed: usize, pairs: usize) -> (r: i128)
    requires
        observed <= pairs,
        pairs < 0x80_0000_0000_0000,
    ensures
        r == chi_term(observed as nat, pairs as nat),
        0 <= r <= 16 * (pairs as i128) * (pairs as i128),
{
    let d: i128 = 4 * (observed as i128) - (pairs as i128);
    proof {
        assert(d * d == chi_term(observed as nat, pairs as nat)) by (nonlinear_arith)
            requires
                d == 4 * (observed as int) - (pairs as int),
                chi_term(observed as nat, pairs as nat) == (4 * (observed as int) - (pairs as int))
                    * (4 * (observed as int) - (pairs as int)),
        ;
        assert(0 <= d * d <= 16 * (pairs as i128) * (pairs as i128) && d * d
            < 0x4_0000_0000_0000_0000_0000_0000_0000) by (nonlinear_arith)
            requires
                -(pairs as i128) <= d <= 4 * (pairs as i128),
                0 <= (pairs as i128) < 0x80_0000_0000_0000,
        ;
    }
    d * d
}

/// Chi-square pair statistic of a bit sequence, in thousandths.
pub fn bits_chi_square_milli(bits: &[u8]) -> (r: u64)
    requires
        is_bit_seq(bits@),
        bits@.len() < 0x4_0000_0000_0000,
    ensures
        r == seq_chi_square_milli(bits@),
{
    let n: usize = bits.len();
    let t: usize = n / 2;
    proof {
        lemma_fundamental_div_mod(n as int, 2);
    }
    if t == 0 {
        return 0;
    }
    let mut c0: usize = 0;
    let mut c1: usize = 0;
    let mut c2: usize = 0;
    let mut c3: usize = 0;
    let mut i: usize = 0;
    while i < t
        invariant
            i <= t,
            n == bits@.len(),
            t <= n / 2,
            t == bits@.len() / 2,
            2 * t <= bits@.len() < 0x4_0000_0000_0000,
            is_bit_seq(bits@),
            c0 == count_pairs(bits@, 0, i as nat),
            c1 == count_pairs(bits@, 1, i as nat),
            c2 == count_pairs(bits@, 2, i as nat),
            c3 == count_pairs(bits@, 3, i as nat),
            c0 <= i && c1 <= i && c2 <= i && c3 <= i,
        decreases t - i,
    {
        let b0: u8 = bits[2 * i];
        let b1: u8 = bits[2 * i + 1];
        assert(b0 <= 1 && b1 <= 1);
        let v: u8 = b0 * 2 + b1;
        proof {
            lemma_small_mod((b0 * 2 + b1) as nat, 4);
            assert(v == pair_at(bits@, i as int));
            assert(count_pairs(bits@, 0, (i + 1) as nat) == count_pairs(bits@, 0, i as nat) + if pair_at(bits@, i as int) == 0 { 1nat } else { 0nat });
            assert(count_pairs(bits@, 1, (i + 1) as nat) == count_pairs(bits@, 1, i as nat) + if pair_at(bits@, i as int) == 1 { 1nat } else { 0nat });
            assert(count_pairs(bits@, 2, (i + 1) as nat) == count_pairs(bits@, 2, i as nat) + if pair_at(bits@, i as int) == 2 { 1nat } else { 0nat });
            assert(count_pairs(bits@, 3, (i + 1) as nat) == count_pairs(bits@, 3, i as nat) + if pair_at(bits@, i as int) == 3 { 1nat } else { 0nat });
        }
        if v == 0 {
            c0 = c0 + 1;
        } else if v == 1 {
            c1 = c1 + 1;
        } else if v == 2 {
            c2 = c2 + 1;
        } else {
            c3 = c3 + 1;
        }
        i = i + 1;
    }
    proof {
        assert(16 * (t as i128) * (t as i128) <= 0x100_0000_0000_0000_0000_0000_0000)
            by (nonlinear_arith)
            requires
                0 <= (t as i128) < 0x2_0000_0000_0000,
        ;
    }
    let t0: i128 = chi_term_exec(c0, t);
    let t1: i128 = chi_term_exec(c1, t);
    let t2: i128 = chi_term_exec(c2, t);
    let t3: i128 = chi_term_exec(c3, t);
    let num: i128 = t0 + t1 + t2 + t3;
    proof {
        lemma_div_pos_is_pos((num * 1000) as int, 4 * (t as int));
        assert(num * 1000 <= 0xffff_ffff_ffff_ffff * (4 * (t as int))) by (nonlinear_arith)
            requires
                0 <= num,
                num <= 4 * (16 * (t as i128) * (t as i128)),
                1 <= (t as i128),
                (t as i128) < 0x2_0000_0000_0000,
        ;
        lemma_div_is_ordered((num * 1000) as int, 0xffff_ffff_ffff_ffff * (4 * (t as int)), 4 * (
        t as int));
        lemma_div_multiples_vanish(0xffff_ffff_ffff_ffff, 4 * (t as int));
    }
    let r: i128 = num * 1000 / (4 * (t as i128));
    r as u64
}

} // verus!
