//! Byte counters on the wire are IEEE-754 binary64 numbers. This module reads
//! and writes their bit patterns with integer arithmetic alone: one sign bit,
//! eleven exponent bits, fifty-two fraction bits. A finite pattern stands for
//! `significand * 2^scale`, negated when the sign bit is set.

use vstd::prelude::*;
use vstd::arithmetic::div_mod::{
    lemma_div_denominator, lemma_fundamental_div_mod, lemma_mod_multiples_basic,
};
use vstd::arithmetic::power2::*;

verus! {

/// Two to the power 52: the weight of the hidden bit of a significand.
pub const TWO_52: u64 = 0x10000000000000;

/// Two to the power 53: up to here every count has an exact pattern.
pub const MAX_EXACT_COUNT: u64 = 0x20000000000000;

/// Two to the power 63: the sign bit.
pub const SIGN_BIT: u64 = 0x8000000000000000;

/// Whether the sign bit of the pattern is set.
pub open spec fn is_negative(bits: u64) -> bool {
    bits >= SIGN_BIT
}

/// The exponent field of the pattern.
pub open spec fn biased_exponent(bits: u64) -> int {
    (bits as int / 0x10000000000000) % 0x800
}

/// The fraction field of the pattern.
pub open spec fn fraction(bits: u64) -> int {
    bits as int % 0x10000000000000
}

/// Whether the pattern is a number at all, and not an infinity or a NaN.
pub open spec fn is_finite(bits: u64) -> bool {
    biased_exponent(bits) != 0x7ff
}

/// The integer that the fraction field stands for, with the hidden bit of a
/// normal number.
pub open spec fn significand(bits: u64) -> int {
    if biased_exponent(bits) == 0 {
        fraction(bits)
    } else {
        0x10000000000000 + fraction(bits)
    }
}

/// The power of two that the significand is scaled by.
pub open spec fn scale(bits: u64) -> int {
    if biased_exponent(bits) == 0 {
        -1074
    } else {
        biased_exponent(bits) - 1075
    }
}

/// Whether the pattern stands for a finite number greater than zero.
pub open spec fn is_positive(bits: u64) -> bool {
    !is_negative(bits) && is_finite(bits) && significand(bits) > 0
}

/// The whole part of the magnitude of a finite pattern.
pub open spec fn magnitude_floor(bits: u64) -> int {
    if scale(bits) >= 0 {
        significand(bits) * pow2(scale(bits) as nat)
    } else {
        significand(bits) / (pow2((-scale(bits)) as nat) as int)
    }
}

/// Whether the pattern stands for exactly the count `n`.
pub open spec fn denotes(bits: u64, n: nat) -> bool {
    &&& !is_negative(bits)
    &&& is_finite(bits)
    &&& if scale(bits) >= 0 {
        significand(bits) * pow2(scale(bits) as nat) == n
    } else {
        significand(bits) == n * pow2((-scale(bits)) as nat)
    }
}

/// The pattern that stands for the count `n`. There is one for every count
/// up to two to the power 53, and never more than one.
pub open spec fn count_pattern(n: nat) -> u64 {
    choose|bits: u64| denotes(bits, n)
}

/// The number of bits that `n` has beyond 53.
pub open spec fn excess_bits(n: nat) -> nat
    decreases n,
{
    if n < MAX_EXACT_COUNT {
        0
    } else {
        1 + excess_bits(n / 2)
    }
}

/// The count nearest to `n` among those that have a pattern: `n` itself if
/// it has no more than 53 bits; else `n` rounded to a multiple of the unit of
/// its 53 leading bits, to the nearer one, and of two equally near ones to
/// the one whose 53 bits are even.
pub open spec fn nearest_count(n: nat) -> nat {
    let unit = pow2(excess_bits(n));
    let lead = n / unit;
    let rest = n % unit;
    if excess_bits(n) == 0 {
        n
    } else if 2 * rest > unit || (2 * rest == unit && lead % 2 == 1) {
        (lead + 1) * unit
    } else {
        lead * unit
    }
}

/// The pattern that a count is sent as: that of the nearest count that has
/// one.
pub open spec fn nearest_pattern(n: nat) -> u64 {
    count_pattern(nearest_count(n))
}

/// The count a client may resume from, as its number says it: nothing for a
/// number that is not finite or not greater than zero, else the whole part of
/// the number, held at the largest count there is.
pub open spec fn resume_count(bits: u64) -> Option<u64> {
    if is_positive(bits) {
        if magnitude_floor(bits) >= u64::MAX {
            Some(u64::MAX)
        } else {
            Some(magnitude_floor(bits) as u64)
        }
    } else {
        None
    }
}

/// Two to the power `k`, for a `k` that keeps it in range.
fn power_of_two(k: u64) -> (p: u64)
    requires
        k <= 63,
    ensures
        p == pow2(k as nat),
        p >= 1,
{
    let mut p: u64 = 1;
    let mut i: u64 = 0;
    proof {
        lemma2_to64();
    }
    while i < k
        invariant
            i <= k <= 63,
            p == pow2(i as nat),
            p >= 1,
        decreases k - i,
    {
        proof {
            lemma_pow2_unfold((i + 1) as nat);
            lemma_pow2_strictly_increases((i + 1) as nat, 64);
            lemma2_to64_rest();
        }
        p = p * 2;
        i = i + 1;
    }
    p
}

/// Reads the count that a number on the wire stands for. `None` for a
/// pattern that is negative, zero, an infinity or a NaN; else the whole part
/// of the number, held at `u64::MAX` where it would go beyond.
pub fn count_from_double(bits: u64) -> (count: Option<u64>)
    ensures
        count == resume_count(bits),
{
    if bits >= SIGN_BIT {
        return None;
    }
    let e: u64 = (bits / TWO_52) % 0x800;
    let frac: u64 = bits % TWO_52;
    if e == 0x7ff {
        return None;
    }
    if e == 0 {
        if frac == 0 {
            return None;
        }
        proof {
            lemma_pow2_strictly_increases(52, 1074);
            lemma2_to64_rest();
            assert(frac as int / (pow2(1074) as int) == 0) by (nonlinear_arith)
                requires
                    0 <= frac < pow2(1074),
            ;
        }
        return Some(0);
    }
    let sig: u64 = TWO_52 + frac;
    if e >= 1075 {
        let up: u64 = e - 1075;
        if up >= 12 {
            proof {
                lemma2_to64();
                if up > 12 {
                    lemma_pow2_strictly_increases(12, up as nat);
                }
                assert(sig as int * pow2(up as nat) >= u64::MAX) by (nonlinear_arith)
                    requires
                        sig >= 0x10000000000000,
                        pow2(up as nat) >= 4096,
                ;
            }
            return Some(u64::MAX);
        }
        let p: u64 = power_of_two(up);
        proof {
            lemma2_to64();
            if up < 11 {
                lemma_pow2_strictly_increases(up as nat, 11);
            }
            assert(sig as int * p as int <= 0x1fffffffffffff * 2048) by (nonlinear_arith)
                requires
                    0 <= sig <= 0x1fffffffffffff,
                    0 <= p <= 2048,
            ;
        }
        Some(sig * p)
    } else {
        let down: u64 = 1075 - e;
        if down >= 53 {
            proof {
                lemma2_to64_rest();
                if down > 53 {
                    lemma_pow2_strictly_increases(53, down as nat);
                }
                assert(sig as int / (pow2(down as nat) as int) == 0) by (nonlinear_arith)
                    requires
                        0 <= sig < 0x20000000000000,
                        pow2(down as nat) >= 0x20000000000000,
                ;
            }
            return Some(0);
        }
        let p: u64 = power_of_two(down);
        Some(sig / p)
    }
}

/// Puts a pattern together from an exponent field and the significand of a
/// normal number.
fn assemble(e: u64, sig: u64) -> (bits: u64)
    requires
        1 <= e <= 2046,
        TWO_52 <= sig < MAX_EXACT_COUNT,
    ensures
        !is_negative(bits),
        is_finite(bits),
        significand(bits) == sig,
        scale(bits) == e - 1075,
{
    let bits: u64 = e * TWO_52 + (sig - TWO_52);
    proof {
        let f = (sig - TWO_52) as int;
        assert(bits as int / 0x10000000000000 == e as int) by (nonlinear_arith)
            requires
                bits as int == e as int * 0x10000000000000 + f,
                0 <= f < 0x10000000000000,
        ;
        assert(bits as int % 0x10000000000000 == f) by (nonlinear_arith)
            requires
                bits as int == e as int * 0x10000000000000 + f,
                0 <= f < 0x10000000000000,
        ;
        assert(biased_exponent(bits) == e);
        assert(fraction(bits) == f);
    }
    bits
}

/// Builds the pattern of a count that has one, by scaling the count up until
/// the hidden bit is reached.
fn exact_pattern(n: u64) -> (bits: u64)
    requires
        n <= MAX_EXACT_COUNT,
    ensures
        denotes(bits, n as nat),
{
    if n == 0 {
        assert(biased_exponent(0) == 0);
        assert(fraction(0) == 0);
        return 0;
    }
    proof {
        lemma2_to64();
    }
    if n == MAX_EXACT_COUNT {
        return assemble(1076, TWO_52);
    }
    let mut sig: u64 = n;
    let mut e: u64 = 1075;
    proof {
        assert(pow2((1075 - e) as nat) == 1);
        assert(n * pow2((1075 - e) as nat) == n);
    }
    while sig < TWO_52
        invariant
            0 < n < MAX_EXACT_COUNT,
            1023 <= e <= 1075,
            0 < sig < MAX_EXACT_COUNT,
            sig == n * pow2((1075 - e) as nat),
            pow2((1075 - e) as nat) <= sig,
        decreases e,
    {
        proof {
            let k = (1075 - e) as nat;
            lemma_pow2_unfold(k + 1);
            lemma2_to64_rest();
            if k >= 52 {
                if k > 52 {
                    lemma_pow2_strictly_increases(52, k);
                }
                assert(false);
            }
            assert(n * (2 * pow2(k)) == 2 * (n * pow2(k))) by (nonlinear_arith);
        }
        sig = sig * 2;
        e = e - 1;
    }
    let bits = assemble(e, sig);
    proof {
        if e == 1075 {
            assert(pow2(0) == 1);
        }
    }
    bits
}

/// Builds the pattern nearest to a count that is too long to have one of its
/// own.
#[verifier::rlimit(50)]
fn rounded_pattern(n: u64) -> (bits: u64)
    requires
        n > MAX_EXACT_COUNT,
    ensures
        denotes(bits, nearest_count(n as nat)),
{
    let mut q: u64 = n;
    let mut k: u64 = 0;
    proof {
        lemma2_to64();
        lemma2_to64_rest();
    }
    while q >= MAX_EXACT_COUNT
        invariant
            k <= 11,
            q == n as nat / pow2(k as nat),
            q * pow2(k as nat) <= n,
            excess_bits(n as nat) == k + excess_bits(q as nat),
            k == 0 ==> q == n,
            k > 0 ==> q >= TWO_52,
            n > MAX_EXACT_COUNT,
        decreases q,
    {
        proof {
            let kk = k as nat;
            lemma_pow2_unfold(kk + 1);
            lemma_pow2_pos(kk);
            lemma2_to64();
            if kk >= 11 {
                if kk > 11 {
                    lemma_pow2_strictly_increases(11, kk);
                }
                assert(q * pow2(kk) >= 0x20000000000000 * 2048) by (nonlinear_arith)
                    requires
                        q >= 0x20000000000000,
                        pow2(kk) >= 2048,
                ;
                assert(false);
            }
            lemma_div_denominator(n as int, pow2(kk) as int, 2);
            assert(pow2(kk) * 2 == pow2(kk + 1));
            assert((q / 2) * pow2(kk + 1) <= q * pow2(kk)) by (nonlinear_arith)
                requires
                    pow2(kk + 1) == 2 * pow2(kk),
                    q >= 0,
                    pow2(kk) > 0,
            ;
        }
        q = q / 2;
        k = k + 1;
    }
    let unit: u64 = power_of_two(k);
    let r: u64 = n % unit;
    let half: u64 = unit / 2;
    proof {
        lemma_pow2_unfold(k as nat);
        lemma_fundamental_div_mod(n as int, unit as int);
        assert(unit * q == q * unit) by (nonlinear_arith);
    }
    let up: bool = r > half || (r == half && q % 2 == 1);
    let sig: u64 = if up {
        q + 1
    } else {
        q
    };
    proof {
        assert(nearest_count(n as nat) == sig * unit);
    }
    if sig == MAX_EXACT_COUNT {
        let bits = assemble(1076 + k, TWO_52);
        proof {
            lemma_pow2_unfold((k + 1) as nat);
            assert(0x10000000000000 * (2 * unit) == 0x20000000000000 * unit) by (nonlinear_arith);
        }
        bits
    } else {
        assemble(1075 + k, sig)
    }
}

/// Writes a count as the number that stands for it on the wire: its own
/// pattern if it has one, as every count up to two to the power 53 has, and
/// the nearest pattern if not.
pub fn double_from_count(n: u64) -> (bits: u64)
    ensures
        bits == nearest_pattern(n as nat),
        denotes(bits, nearest_count(n as nat)),
        n <= MAX_EXACT_COUNT ==> denotes(bits, n as nat),
{
    proof {
        lemma_exact_counts(n as nat);
    }
    let bits = if n <= MAX_EXACT_COUNT {
        exact_pattern(n)
    } else {
        rounded_pattern(n)
    };
    proof {
        lemma_denotes_unique(bits, nearest_pattern(n as nat), nearest_count(n as nat));
    }
    bits
}

/// The nearest count is a multiple of the unit of the 53 leading bits, and
/// no further from the count than half that unit.
pub proof fn lemma_nearest_count_is_near(n: nat)
    ensures
        nearest_count(n) % pow2(excess_bits(n)) == 0,
        2 * (nearest_count(n) - n) <= pow2(excess_bits(n)),
        2 * (n - nearest_count(n)) <= pow2(excess_bits(n)),
{
    let unit = pow2(excess_bits(n)) as int;
    lemma_pow2_pos(excess_bits(n));
    let lead = n as int / unit;
    let rest = n as int % unit;
    lemma_fundamental_div_mod(n as int, unit);
    assert(unit * lead == lead * unit) by (nonlinear_arith);
    assert((lead + 1) * unit == lead * unit + unit) by (nonlinear_arith);
    lemma_mod_multiples_basic(lead, unit);
    lemma_mod_multiples_basic(lead + 1, unit);
    if excess_bits(n) == 0 {
        lemma2_to64();
    }
}

/// A count of no more than 53 bits is its own nearest count.
pub proof fn lemma_exact_counts(n: nat)
    ensures
        n <= MAX_EXACT_COUNT ==> nearest_count(n) == n,
{
    lemma2_to64();
    lemma2_to64_rest();
    if n == MAX_EXACT_COUNT {
        assert(excess_bits(n / 2) == 0);
        assert(excess_bits(n) == 1);
        assert(pow2(1) == 2);
    }
}

/// Two normal significands that differ by a power of two are the same.
proof fn lemma_same_significand(s1: int, s2: int, k: nat)
    requires
        0x10000000000000 <= s1 < 0x20000000000000,
        0x10000000000000 <= s2 < 0x20000000000000,
        s1 == s2 * pow2(k),
    ensures
        k == 0,
        s1 == s2,
{
    lemma2_to64();
    if k > 0 {
        if k > 1 {
            lemma_pow2_strictly_increases(1, k);
        }
        assert(s2 * pow2(k) >= 2 * s2) by (nonlinear_arith)
            requires
                pow2(k) >= 2,
                s2 >= 0,
        ;
    } else {
        assert(pow2(0) == 1);
        assert(s2 * 1 == s2);
    }
}

/// A pattern with a clear sign bit is its exponent field times two to the
/// power 52, plus its fraction field.
proof fn lemma_fields(bits: u64)
    requires
        !is_negative(bits),
    ensures
        bits as int == biased_exponent(bits) * 0x10000000000000 + fraction(bits),
        0 <= fraction(bits) < 0x10000000000000,
        0 <= biased_exponent(bits) < 0x800,
{
}

/// No two patterns stand for the same count.
#[verifier::rlimit(50)]
pub proof fn lemma_denotes_unique(a: u64, b: u64, n: nat)
    requires
        denotes(a, n),
        denotes(b, n),
    ensures
        a == b,
{
    lemma_fields(a);
    lemma_fields(b);
    lemma_significand_of_count(a, n);
    lemma_significand_of_count(b, n);
    if n > 0 {
        let sa = significand(a);
        let sb = significand(b);
        let ca = scale(a);
        let cb = scale(b);
        if ca >= 0 && cb >= 0 {
            if ca <= cb {
                lemma_cancel(sa, sb, ca as nat, cb as nat);
                lemma_same_significand(sa, sb, (cb - ca) as nat);
            } else {
                lemma_cancel(sb, sa, cb as nat, ca as nat);
                lemma_same_significand(sb, sa, (ca - cb) as nat);
            }
        } else if ca < 0 && cb < 0 {
            let da = (-ca) as nat;
            let db = (-cb) as nat;
            if da <= db {
                lemma_pow2_adds(da, (db - da) as nat);
                assert(sb == sa * pow2((db - da) as nat)) by (nonlinear_arith)
                    requires
                        sa == n * pow2(da),
                        sb == n * pow2(db),
                        pow2(db) == pow2(da) * pow2((db - da) as nat),
                ;
                lemma_same_significand(sb, sa, (db - da) as nat);
            } else {
                lemma_pow2_adds(db, (da - db) as nat);
                assert(sa == sb * pow2((da - db) as nat)) by (nonlinear_arith)
                    requires
                        sa == n * pow2(da),
                        sb == n * pow2(db),
                        pow2(da) == pow2(db) * pow2((da - db) as nat),
                ;
                lemma_same_significand(sa, sb, (da - db) as nat);
            }
        } else if ca >= 0 {
            let db = (-cb) as nat;
            lemma_pow2_adds(ca as nat, db);
            assert(sb == sa * pow2(ca as nat + db)) by (nonlinear_arith)
                requires
                    sa * pow2(ca as nat) == n,
                    sb == n * pow2(db),
                    pow2(ca as nat + db) == pow2(ca as nat) * pow2(db),
            ;
            lemma_same_significand(sb, sa, ca as nat + db);
        } else {
            let da = (-ca) as nat;
            lemma_pow2_adds(cb as nat, da);
            assert(sa == sb * pow2(cb as nat + da)) by (nonlinear_arith)
                requires
                    sb * pow2(cb as nat) == n,
                    sa == n * pow2(da),
                    pow2(cb as nat + da) == pow2(cb as nat) * pow2(da),
            ;
            lemma_same_significand(sa, sb, cb as nat + da);
        }
    }
}

/// From `s1 * 2^c1 == s2 * 2^c2` with `c1 <= c2` follows
/// `s1 == s2 * 2^(c2 - c1)`.
proof fn lemma_cancel(s1: int, s2: int, c1: nat, c2: nat)
    requires
        c1 <= c2,
        s1 * pow2(c1) == s2 * pow2(c2),
    ensures
        s1 == s2 * pow2((c2 - c1) as nat),
{
    lemma_pow2_adds(c1, (c2 - c1) as nat);
    lemma_pow2_pos(c1);
    let p = pow2(c1) as int;
    let q = pow2((c2 - c1) as nat) as int;
    assert(s1 * p == (s2 * q) * p) by (nonlinear_arith)
        requires
            s1 * p == s2 * (p * q),
    ;
    assert(s1 == s2 * q) by (nonlinear_arith)
        requires
            s1 * p == (s2 * q) * p,
            p > 0,
    ;
}

/// The pattern of zero has an empty significand; the pattern of any other
/// count is a normal number.
proof fn lemma_significand_of_count(bits: u64, n: nat)
    requires
        denotes(bits, n),
    ensures
        n == 0 ==> biased_exponent(bits) == 0 && fraction(bits) == 0,
        n > 0 ==> biased_exponent(bits) != 0 && 0x10000000000000 <= significand(bits)
            < 0x20000000000000,
{
    let s = significand(bits);
    let c = scale(bits);
    if c >= 0 {
        lemma_pow2_pos(c as nat);
        if n == 0 {
            assert(s == 0) by (nonlinear_arith)
                requires
                    s * pow2(c as nat) == 0,
                    pow2(c as nat) > 0,
            ;
        }
    } else {
        let p = pow2((-c) as nat);
        lemma_pow2_pos((-c) as nat);
        if n == 0 {
            assert(n * p == 0) by (nonlinear_arith)
                requires
                    n == 0,
            ;
        } else if biased_exponent(bits) == 0 {
            lemma_pow2_strictly_increases(52, 1074);
            lemma2_to64_rest();
            assert(n * p >= p) by (nonlinear_arith)
                requires
                    n >= 1,
                    p > 0,
            ;
        }
    }
}


/// A pattern that stands for a count greater than zero is read back as that
/// count; the pattern of zero is read as nothing to resume from.
pub proof fn lemma_count_round_trip(bits: u64, n: nat)
    requires
        denotes(bits, n),
        n <= u64::MAX,
    ensures
        n > 0 ==> resume_count(bits) == Some(n as u64),
        n == 0 ==> resume_count(bits).is_none(),
{
    let s = significand(bits);
    let c = scale(bits);
    if c >= 0 {
        lemma_pow2_pos(c as nat);
        if n == 0 {
            assert(s == 0) by (nonlinear_arith)
                requires
                    s * pow2(c as nat) == 0,
                    pow2(c as nat) > 0,
            ;
        } else {
            assert(s > 0) by (nonlinear_arith)
                requires
                    s * pow2(c as nat) == n,
                    n > 0,
                    pow2(c as nat) > 0,
                    s >= 0,
            ;
        }
    } else {
        let p = pow2((-c) as nat);
        lemma_pow2_pos((-c) as nat);
        if n == 0 {
            assert(n * p == 0) by (nonlinear_arith)
                requires
                    n == 0,
            ;
        } else {
            assert(n * p > 0) by (nonlinear_arith)
                requires
                    n > 0,
                    p > 0,
            ;
            assert((n * p) as int / (p as int) == n) by (nonlinear_arith)
                requires
                    p > 0,
                    n >= 0,
            ;
        }
    }
}

} // verus!
