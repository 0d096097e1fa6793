//! The entropy classifier: a bounded-cost estimate of how compressible a
//! file is.
//!
//! Up to a fixed prefix of the content, a 256-bin byte histogram is
//! built, and the Shannon entropy over the observed symbols is computed
//! in fixed-point arithmetic: base-2 logarithms carry sixteen fractional
//! bits, thresholds are in tenths of a bit per byte.  A file is
//! incompressible when the estimate reaches the threshold; an empty
//! sample counts as compressible.

use vstd::arithmetic::div_mod::{lemma_basic_div, lemma_div_denominator, lemma_div_is_ordered,
    lemma_div_multiples_vanish, lemma_multiply_divide_lt};
use vstd::arithmetic::mul::lemma_mul_inequality;
use vstd::arithmetic::power2::{lemma2_to64, lemma_pow2_pos, lemma_pow2_strictly_increases,
    lemma_pow2_unfold, pow2};
use vstd::prelude::*;

verus! {

/// How many bytes of a file the classifier reads, at most.
pub const ENTROPY_SAMPLE_LIMIT: usize = 262144;

/// The prefix of the content that the classifier looks at.
pub open spec fn sample_of(data: Seq<u8>) -> Seq<u8> {
    if data.len() <= 262144 {
        data
    } else {
        data.take(262144)
    }
}

/// How often byte value `b` occurs in `s`.
pub open spec fn byte_count(s: Seq<u8>, b: u8) -> nat
    decreases s.len(),
{
    if s.len() == 0 {
        0
    } else {
        byte_count(s.drop_last(), b) + if s.last() == b {
            1 as nat
        } else {
            0 as nat
        }
    }
}

/// The whole part of the base-2 logarithm.
pub open spec fn log2_floor(x: nat) -> nat
    decreases x,
{
    if x <= 1 {
        0
    } else {
        1 + log2_floor(x / 2)
    }
}

/// `j` fractional bits of the base-2 logarithm of `y`, where `y` is a
/// value in `[1, 2)` scaled by 2^16: repeated squaring, one bit per step.
pub open spec fn frac_bits(y: nat, j: nat) -> nat
    decreases j,
{
    if j == 0 {
        0
    } else {
        let y2 = (y * y) / 65536;
        if y2 >= 131072 {
            pow2((j - 1) as nat) + frac_bits(y2 / 2, (j - 1) as nat)
        } else {
            frac_bits(y2, (j - 1) as nat)
        }
    }
}

/// The base-2 logarithm of `x` with sixteen fractional bits: the whole
/// part, and sixteen bits from the normalized remainder.
pub open spec fn log2_q16(x: nat) -> nat {
    log2_floor(x) * 65536 + frac_bits(x * 65536 / pow2(log2_floor(x)), 16)
}

/// The entropy sum over byte values below `upto`: each observed value
/// contributes its count times the scaled logarithm of its count.
pub open spec fn weighted_log_sum(s: Seq<u8>, upto: int) -> nat
    decreases upto,
{
    if upto <= 0 {
        0
    } else {
        weighted_log_sum(s, upto - 1) + {
            let c = byte_count(s, (upto - 1) as u8);
            if c > 0 {
                c * log2_q16(c)
            } else {
                0
            }
        }
    }
}

/// Whether the sampled entropy reaches the threshold.  With counts `c`
/// over a sample of `n` bytes, the entropy in bits per byte is
/// `log2(n) - (sum of c*log2(c)) / n`; this compares it against
/// `threshold_tenths / 10` without division, all in fixed point.  An
/// empty sample never reaches the threshold.
pub open spec fn entropy_exceeds(data: Seq<u8>, threshold_tenths: nat) -> bool {
    let s = sample_of(data);
    let n = s.len();
    n > 0 && 10 * n * log2_q16(n) >= threshold_tenths * n * 65536 + 10 * weighted_log_sum(s, 256)
}

proof fn lemma_byte_count_le_len(s: Seq<u8>, b: u8)
    ensures
        byte_count(s, b) <= s.len(),
    decreases s.len(),
{
    if s.len() > 0 {
        lemma_byte_count_le_len(s.drop_last(), b);
    }
}

proof fn lemma_log2_floor_le(x: nat, k: nat)
    requires
        x <= pow2(k),
    ensures
        log2_floor(x) <= k,
    decreases k,
{
    if x <= 1 {
    } else if k == 0 {
        assert(pow2(0) == 1) by {
            lemma2_to64();
        }
    } else {
        assert(pow2(k) == 2 * pow2((k - 1) as nat)) by {
            lemma_pow2_unfold(k);
        }
        assert(x / 2 <= pow2((k - 1) as nat));
        lemma_log2_floor_le(x / 2, (k - 1) as nat);
    }
}

proof fn lemma_frac_bits_bound(y: nat, j: nat)
    ensures
        frac_bits(y, j) < pow2(j),
    decreases j,
{
    if j == 0 {
        assert(pow2(0) == 1) by {
            lemma2_to64();
        }
    } else {
        let y2 = (y * y) / 65536;
        lemma_pow2_unfold(j);
        if y2 >= 131072 {
            lemma_frac_bits_bound(y2 / 2, (j - 1) as nat);
        } else {
            lemma_frac_bits_bound(y2, (j - 1) as nat);
        }
    }
}

/// The scaled logarithm of any admissible count stays under 19 whole
/// bits, which bounds every sum the classifier forms.
proof fn lemma_log2_q16_bound(x: nat)
    requires
        1 <= x <= 262144,
    ensures
        log2_q16(x) <= 1245183,
{
    lemma2_to64();
    lemma_log2_floor_le(x, 18);
    lemma_frac_bits_bound(x * 65536 / pow2(log2_floor(x)), 16);
    assert(log2_floor(x) * 65536 <= 18 * 65536) by (nonlinear_arith)
        requires
            log2_floor(x) <= 18,
    ;
}

proof fn lemma_log2_floor_of_range(x: nat, k: nat)
    requires
        pow2(k) <= x,
        x < pow2((k + 1) as nat),
    ensures
        log2_floor(x) == k,
    decreases k,
{
    lemma_pow2_unfold((k + 1) as nat);
    if k == 0 {
        assert(pow2(0) == 1) by {
            lemma2_to64();
        }
    } else {
        lemma_pow2_unfold(k);
        lemma_pow2_pos((k - 1) as nat);
        assert(pow2((k - 1) as nat) <= x / 2);
        assert(x / 2 < pow2(k));
        lemma_log2_floor_of_range(x / 2, (k - 1) as nat);
    }
}

proof fn lemma_weighted_log_sum_bound(s: Seq<u8>, upto: int)
    requires
        s.len() <= 262144,
        0 <= upto <= 256,
    ensures
        weighted_log_sum(s, upto) <= upto * 549755813888,
    decreases upto,
{
    if upto > 0 {
        lemma_weighted_log_sum_bound(s, upto - 1);
        let c = byte_count(s, (upto - 1) as u8);
        lemma_byte_count_le_len(s, (upto - 1) as u8);
        if c > 0 {
            lemma_log2_q16_bound(c);
            assert(c * log2_q16(c) <= 262144 * 1245183) by (nonlinear_arith)
                requires
                    0 <= c <= 262144,
                    0 <= log2_q16(c) <= 1245183,
            ;
        }
    }
}

/// Fixed-point base-2 logarithm with sixteen fractional bits: the whole
/// part by halving, the fraction by repeated squaring.
fn log2_q16_exec(x: u64) -> (r: u64)
    requires
        1 <= x <= 262144,
    ensures
        r as nat == log2_q16(x as nat),
        r <= 1245183,
{
    proof {
        lemma2_to64();
    }
    let mut t: u64 = x;
    let mut k: u64 = 0;
    let mut p: u64 = 1;
    while t >= 2
        invariant
            1 <= x <= 262144,
            p as nat == pow2(k as nat),
            t as nat == x as nat / pow2(k as nat),
            1 <= t,
            p <= x,
            k <= 18,
        decreases t,
    {
        proof {
            lemma2_to64();
            lemma_pow2_pos(k as nat);
            lemma_pow2_unfold((k + 1) as nat);
            lemma_pow2_pos((k + 1) as nat);
            lemma_div_denominator(x as int, pow2(k as nat) as int, 2);
            assert(x as nat / pow2((k + 1) as nat) == t as nat / 2);
            // The next power still divides into x at least once, so it is
            // at most x.
            assert(t as nat / 2 >= 1);
            if 2 * pow2(k as nat) > x as nat {
                lemma_small_div_is_zero(x as int, (2 * pow2(k as nat)) as int);
                assert(false);
            }
            if k + 1 > 18 {
                lemma_pow2_strictly_increases(18, (k + 1) as nat);
                assert(pow2((k + 1) as nat) > 262144);
                assert(false);
            }
        }
        t = t / 2;
        k = k + 1;
        p = p * 2;
    }
    proof {
        // t == 1, so pow2(k) <= x < pow2(k + 1).
        assert(x as nat / pow2(k as nat) == 1);
        lemma_pow2_pos(k as nat);
        if (x as nat) < pow2(k as nat) {
            lemma_small_div_is_zero(x as int, pow2(k as nat) as int);
            assert(false);
        }
        lemma_pow2_unfold((k + 1) as nat);
        if x as nat >= 2 * pow2(k as nat) {
            lemma_div_multiples_vanish(2, pow2(k as nat) as int);
            lemma_div_is_ordered(
                (2 * pow2(k as nat)) as int,
                x as int,
                pow2(k as nat) as int,
            );
            assert(false);
        }
        lemma_log2_floor_of_range(x as nat, k as nat);
    }
    // Normalize x into [1, 2) in fixed point: y0 = x * 2^16 / 2^k.
    let y0: u64 = (x * 65536) / p;
    proof {
        lemma_div_multiples_vanish(65536, p as int);
        lemma_mul_inequality(p as int, x as int, 65536);
        lemma_div_is_ordered((p * 65536) as int, (x * 65536) as int, p as int);
        assert(y0 >= 65536);
        assert(((x * 65536) as int) < (p as int) * 131072) by (nonlinear_arith)
            requires
                (x as int) < 2 * (p as int),
        ;
        lemma_multiply_divide_lt((x * 65536) as int, p as int, 131072);
        assert(y0 < 131072);
    }
    let ghost y_start = y0 as nat;
    let mut y: u64 = y0;
    let mut acc: u64 = 0;
    let mut step: usize = 0;
    while step < 16
        invariant
            65536 <= y < 131072,
            step <= 16,
            (acc as nat) < pow2(step as nat),
            frac_bits(y_start, 16) == acc as nat * pow2((16 - step) as nat) + frac_bits(
                y as nat,
                (16 - step) as nat,
            ),
        decreases 16 - step,
    {
        proof {
            lemma2_to64();
            lemma_pow2_unfold((16 - step) as nat);
            lemma_pow2_unfold((step + 1) as nat);
            assert((y as nat) * (y as nat) >= 65536 * 65536) by (nonlinear_arith)
                requires
                    y as nat >= 65536,
            ;
            assert((y as nat) * (y as nat) < 131072 * 131072) by (nonlinear_arith)
                requires
                    (y as nat) < 131072,
            ;
            lemma_div_is_ordered((65536 * 65536) as int, (y as int) * (y as int), 65536);
            lemma_div_multiples_vanish(65536, 65536);
            lemma_multiply_divide_lt((y as int) * (y as int), 65536, 262144);
        }
        let ghost old_acc = acc as nat;
        let ghost old_y = y as nat;
        let ghost j = (16 - step) as nat;
        let ghost jm = (j - 1) as nat;
        let y2: u64 = (y * y) / 65536;
        proof {
            assert(y2 as nat == (old_y * old_y) / 65536);
            lemma_pow2_strictly_increases(step as nat, 16);
            assert(acc < 65536);
        }
        if y2 >= 131072 {
            acc = 2 * acc + 1;
            y = y2 / 2;
            proof {
                assert(frac_bits(old_y, j) == pow2(jm) + frac_bits(y as nat, jm));
                assert(old_acc * (2 * pow2(jm)) + pow2(jm) == (2 * old_acc + 1) * pow2(jm))
                    by (nonlinear_arith);
                assert(frac_bits(y_start, 16) == acc as nat * pow2(jm) + frac_bits(y as nat, jm));
            }
        } else {
            acc = 2 * acc;
            y = y2;
            proof {
                assert(frac_bits(old_y, j) == frac_bits(y as nat, jm));
                assert(old_acc * (2 * pow2(jm)) == (2 * old_acc) * pow2(jm)) by (nonlinear_arith);
                assert(frac_bits(y_start, 16) == acc as nat * pow2(jm) + frac_bits(y as nat, jm));
            }
        }
        step += 1;
    }
    proof {
        lemma2_to64();
        assert(step == 16);
        assert((16 - step) as nat == 0);
        assert(frac_bits(y_start, 16) == acc as nat * pow2((16 - step) as nat) + frac_bits(
            y as nat,
            (16 - step) as nat,
        ));
        assert(pow2(0) == 1 && frac_bits(y as nat, 0) == 0);
        assert(frac_bits(y_start, 16) == acc as nat * pow2(0) + frac_bits(y as nat, 0));
        assert(acc as nat * 1 == acc as nat) by (nonlinear_arith);
        assert(frac_bits(y_start, 16) == acc as nat);
        lemma_frac_bits_bound(y_start, 16);
        assert(acc < 65536);
    }
    k * 65536 + acc
}

/// Classify content: `true` means the sampled entropy reaches the
/// threshold, so the content counts as incompressible and is better
/// stored than compressed.  The threshold is in tenths of a bit per
/// byte.  Empty content counts as compressible.
pub fn is_incompressible(data: &Vec<u8>, threshold_tenths: u64) -> (r: bool)
    ensures
        r == entropy_exceeds(data@, threshold_tenths as nat),
{
    let ghost s = sample_of(data@);
    let n: usize = if data.len() > ENTROPY_SAMPLE_LIMIT {
        ENTROPY_SAMPLE_LIMIT
    } else {
        data.len()
    };
    proof {
        if data@.len() <= 262144 {
            assert(s =~= data@);
        }
        assert(s.len() == n);
        assert(forall|j: int| 0 <= j < n ==> s[j] == data@[j]);
    }
    if n == 0 {
        return false;
    }
    let mut hist: Vec<u64> = Vec::new();
    while hist.len() < 256
        invariant
            hist@.len() <= 256,
            forall|v: int| 0 <= v < hist@.len() ==> hist@[v] == 0,
        decreases 256 - hist@.len(),
    {
        hist.push(0);
    }
    proof {
        assert(s.take(0) =~= Seq::<u8>::empty());
    }
    let mut i: usize = 0;
    while i < n
        invariant
            i <= n,
            n <= data@.len(),
            1 <= n <= 262144,
            s == sample_of(data@),
            s.len() == n,
            forall|j: int| 0 <= j < n ==> s[j] == data@[j],
            hist@.len() == 256,
            forall|v: int|
                0 <= v < 256 ==> #[trigger] hist@[v] as nat == byte_count(s.take(i as int), v as u8),
        decreases n - i,
    {
        let b = data[i];
        let idx: usize = b as usize;
        proof {
            assert(s.take(i + 1).drop_last() =~= s.take(i as int));
            assert(s.take(i + 1).last() == b);
            lemma_byte_count_le_len(s.take(i as int), b);
            assert(hist@[idx as int] as nat <= i);
            assert forall|v: int| 0 <= v < 256 implies #[trigger] (
            hist@.update(idx as int, (hist@[idx as int] + 1) as u64)[v] as nat) == byte_count(
                s.take(i + 1),
                v as u8,
            ) by {
                assert(hist@[v] as nat == byte_count(s.take(i as int), v as u8));
                if v == idx as int {
                    assert(byte_count(s.take(i + 1), v as u8) == byte_count(s.take(i as int), v as u8)
                        + 1);
                } else {
                    assert(byte_count(s.take(i + 1), v as u8) == byte_count(
                        s.take(i as int),
                        v as u8,
                    ));
                }
            }
        }
        let cur = hist[idx];
        hist[idx] = cur + 1;
        i += 1;
    }
    proof {
        assert(s.take(n as int) =~= s);
    }
    let log_n = log2_q16_exec(n as u64);
    let mut bsum: u64 = 0;
    let mut v: usize = 0;
    while v < 256
        invariant
            v <= 256,
            hist@.len() == 256,
            s.len() == n,
            1 <= n <= 262144,
            forall|w: int| 0 <= w < 256 ==> #[trigger] hist@[w] as nat == byte_count(s, w as u8),
            bsum as nat == weighted_log_sum(s, v as int),
        decreases 256 - v,
    {
        let c = hist[v];
        proof {
            lemma_byte_count_le_len(s, v as u8);
            lemma_weighted_log_sum_bound(s, v as int);
        }
        if c > 0 {
            let log_c = log2_q16_exec(c);
            proof {
                assert((c as int) * (log_c as int) <= 262144 * 1245183) by (nonlinear_arith)
                    requires
                        0 < c <= 262144,
                        0 <= log_c <= 1245183,
                ;
            }
            bsum = bsum + c * log_c;
        }
        v += 1;
    }
    proof {
        lemma_weighted_log_sum_bound(s, 256);
        assert((10 as int) * (n as int) * (log_n as int) <= 10 * 262144 * 1245183)
            by (nonlinear_arith)
            requires
                0 < n <= 262144,
                0 <= log_n <= 1245183,
        ;
        assert((threshold_tenths as int) * (n as int) * 65536 <= (u64::MAX as int) * 262144 * 65536)
            by (nonlinear_arith)
            requires
                0 <= threshold_tenths <= u64::MAX,
                0 < n <= 262144,
        ;
    }
    let lhs: u128 = 10 * (n as u128) * (log_n as u128);
    let rhs: u128 = (threshold_tenths as u128) * (n as u128) * 65536 + 10 * (bsum as u128);
    lhs >= rhs
}

/// Division gives zero on a numerator below the divisor.
proof fn lemma_small_div_is_zero(x: int, d: int)
    requires
        0 <= x < d,
    ensures
        x / d == 0,
{
    lemma_basic_div(x, d);
}

} // verus!
