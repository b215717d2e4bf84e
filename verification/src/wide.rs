//! Exact wide arithmetic for the oracle price comparison.
//!
//! The policy engine compares `price_a * amount_a` against
//! `price_b * amount_b` through the integer ratio
//! `(price_a * amount_a) / (price_b * amount_b)`, computed in 256-bit
//! intermediates and truncated toward zero. Only whether that ratio is
//! strictly positive or exactly zero is ever consumed, so the executable
//! code decides it from one 256-bit magnitude comparison and the signs,
//! and never divides.

use vstd::prelude::*;
use vstd::arithmetic::div_mod::{
    lemma_basic_div,
    lemma_div_by_multiple,
    lemma_div_is_ordered,
    lemma_fundamental_div_mod,
};
use vstd::arithmetic::mul::{lemma_mul_inequality, lemma_mul_is_distributive_add_other_way};

verus! {

/// 2^64, the limb base of the long multiplication.
pub const LIMB: u128 = 0x10000000000000000;

/// 2^128 as a mathematical integer.
pub open spec fn two128() -> int {
    0x100000000000000000000000000000000int
}

/// The unsigned value carried by a high/low pair of 128-bit limbs.
pub open spec fn u256_val(w: (u128, u128)) -> int {
    w.0 * two128() + w.1
}

/// Absolute value.
pub open spec fn mag(x: int) -> int {
    if x >= 0 {
        x
    } else {
        -x
    }
}

/// Integer division truncating toward zero, for any nonzero divisor.
pub open spec fn div_toward_zero(a: int, b: int) -> int
    recommends
        b != 0,
{
    if (a < 0) == (b < 0) {
        mag(a) / mag(b)
    } else {
        -(mag(a) / mag(b))
    }
}

/// The 256-bit ratio of the two oracle-valued totals, truncated toward
/// zero.
pub open spec fn spec_ratio(pa: i128, aa: i128, pb: i128, ab: i128) -> int {
    div_toward_zero(pa * aa, pb * ab)
}

/// The outcome of a price comparison between nonzero totals: with the
/// `greater` direction the ratio must be strictly positive, and with the
/// other direction it must be exactly zero.
pub open spec fn spec_price_condition(
    pa: i128,
    aa: i128,
    pb: i128,
    ab: i128,
    greater: bool,
) -> bool {
    if greater {
        spec_ratio(pa, aa, pb, ab) > 0
    } else {
        spec_ratio(pa, aa, pb, ab) == 0
    }
}

proof fn lemma_mag_mul(x: int, y: int)
    ensures
        mag(x * y) == mag(x) * mag(y),
        (x * y < 0) <==> (x != 0 && y != 0 && ((x < 0) != (y < 0))),
        (x * y == 0) <==> (x == 0 || y == 0),
{
    if x >= 0 && y >= 0 {
        assert(x * y >= 0) by (nonlinear_arith)
            requires
                x >= 0 && y >= 0,
        ;
    } else if x >= 0 && y < 0 {
        assert(x * y <= 0 && x * y == -(x * (-y)) && x * (-y) >= 0) by (nonlinear_arith)
            requires
                x >= 0 && y < 0,
        ;
    } else if x < 0 && y >= 0 {
        assert(x * y <= 0 && x * y == -((-x) * y) && (-x) * y >= 0) by (nonlinear_arith)
            requires
                x < 0 && y >= 0,
        ;
    } else {
        assert(x * y > 0 && x * y == (-x) * (-y)) by (nonlinear_arith)
            requires
                x < 0 && y < 0,
        ;
    }
    assert((x * y == 0) <==> (x == 0 || y == 0)) by (nonlinear_arith);
}

/// For a nonnegative dividend and positive divisor, the quotient clears a
/// threshold exactly when the dividend clears the scaled threshold.
pub proof fn lemma_div_ge_iff(a: int, b: int, k: int)
    requires
        a >= 0,
        b >= 1,
        k >= 0,
    ensures
        (a / b >= k) <==> (a >= k * b),
{
    if a >= k * b {
        lemma_div_is_ordered(k * b, a, b);
        lemma_div_by_multiple(k, b);
    }
    if a / b >= k {
        lemma_fundamental_div_mod(a, b);
        lemma_mul_inequality(k, a / b, b);
    }
}

/// The magnitude of a signed 128-bit value, exactly.
pub fn mag_i128(x: i128) -> (m: u128)
    ensures
        m as int == mag(x as int),
        m <= 0x80000000000000000000000000000000u128,
{
    if x >= 0 {
        x as u128
    } else if x == i128::MIN {
        0x80000000000000000000000000000000u128
    } else {
        (-x) as u128
    }
}

/// Long multiplication of two unsigned 128-bit values into a high/low
/// pair of 128-bit limbs.
pub fn mul_u128(a: u128, b: u128) -> (r: (u128, u128))
    ensures
        u256_val(r) == a * b,
{
    let a1 = a / LIMB;
    let a0 = a % LIMB;
    let b1 = b / LIMB;
    let b0 = b % LIMB;
    proof {
        lemma_fundamental_div_mod(a as int, LIMB as int);
        lemma_fundamental_div_mod(b as int, LIMB as int);
        assert(a1 < LIMB && b1 < LIMB);
    }
    proof {
        assert(a0 * b0 < LIMB * LIMB && a0 * b1 < LIMB * LIMB && a1 * b0 < LIMB * LIMB && a1 * b1
            < LIMB * LIMB) by (nonlinear_arith)
            requires
                a0 < LIMB && a1 < LIMB && b0 < LIMB && b1 < LIMB && LIMB == 0x10000000000000000u128,
        ;
    }
    let ll = a0 * b0;
    let lh = a0 * b1;
    let hl = a1 * b0;
    let hh = a1 * b1;
    proof {
        // each partial product stays at or below (2^64 - 1)^2, so the
        // carries that feed the high limb stay small enough to add
        assert(ll <= 0xfffffffffffffffe0000000000000001u128 && lh
            <= 0xfffffffffffffffe0000000000000001u128 && hl
            <= 0xfffffffffffffffe0000000000000001u128 && hh
            <= 0xfffffffffffffffe0000000000000001u128) by (nonlinear_arith)
            requires
                a0 <= 0xffffffffffffffffu128 && a1 <= 0xffffffffffffffffu128 && b0
                    <= 0xffffffffffffffffu128 && b1 <= 0xffffffffffffffffu128 && ll == a0 * b0 && lh
                    == a0 * b1 && hl == a1 * b0 && hh == a1 * b1,
        ;
        lemma_div_ge_iff(ll as int, LIMB as int, LIMB - 1);
        lemma_div_ge_iff(lh as int, LIMB as int, LIMB - 1);
        lemma_div_ge_iff(hl as int, LIMB as int, LIMB - 1);
        assert(ll / LIMB <= LIMB - 2 && lh / LIMB <= LIMB - 2 && hl / LIMB <= LIMB - 2);
    }
    let mid = ll / LIMB + lh % LIMB + hl % LIMB;
    proof {
        lemma_fundamental_div_mod(mid as int, LIMB as int);
        lemma_div_ge_iff(mid as int, LIMB as int, 3);
        assert(mid / LIMB <= 2);
    }
    let lo = (mid % LIMB) * LIMB + ll % LIMB;
    let hi = hh + lh / LIMB + hl / LIMB + mid / LIMB;
    proof {
        let d = LIMB as int;
        let ai = a as int;
        let bi = b as int;
        let a1i = a1 as int;
        let a0i = a0 as int;
        let b1i = b1 as int;
        let b0i = b0 as int;
        lemma_fundamental_div_mod(ll as int, d);
        lemma_fundamental_div_mod(lh as int, d);
        lemma_fundamental_div_mod(hl as int, d);
        // expand the product over the limbs, one distribution at a time
        assert(ai * bi == (a1i * d + a0i) * (b1i * d + b0i));
        lemma_mul_is_distributive_add_other_way(b1i * d + b0i, a1i * d, a0i);
        vstd::arithmetic::mul::lemma_mul_is_distributive_add(a1i * d, b1i * d, b0i);
        vstd::arithmetic::mul::lemma_mul_is_distributive_add(a0i, b1i * d, b0i);
        assert((a1i * d) * (b1i * d) == (a1i * b1i) * (d * d)) by (nonlinear_arith);
        assert((a1i * d) * b0i == (a1i * b0i) * d) by (nonlinear_arith);
        assert(a0i * (b1i * d) == (a0i * b1i) * d) by (nonlinear_arith);
        lemma_mul_is_distributive_add_other_way(d, a0i * b1i, a1i * b0i);
        assert(ai * bi == (a1i * b1i) * (d * d) + (a0i * b1i + a1i * b0i) * d + a0i * b0i);
        // reassemble the carries
        let lli = ll as int;
        let lhi = lh as int;
        let hli = hl as int;
        let hhi = hh as int;
        let midi = mid as int;
        assert(midi == lli / d + lhi % d + hli % d);
        assert(hi as int == hhi + lhi / d + hli / d + midi / d);
        assert(lo as int == (midi % d) * d + lli % d);
        assert((hi as int) * (d * d) + lo as int == hhi * (d * d) + (lhi / d) * (d * d) + (hli / d)
            * (d * d) + (midi / d) * (d * d) + (midi % d) * d + lli % d) by (nonlinear_arith)
            requires
                hi as int == hhi + lhi / d + hli / d + midi / d && lo as int == (midi % d) * d + lli
                    % d,
        ;
        assert((midi / d) * (d * d) + (midi % d) * d == midi * d) by (nonlinear_arith)
            requires
                midi == (midi / d) * d + midi % d,
        ;
        assert(midi * d == (lli / d) * d + (lhi % d) * d + (hli % d) * d) by (nonlinear_arith)
            requires
                midi == lli / d + lhi % d + hli % d,
        ;
        assert((lhi / d) * (d * d) + (lhi % d) * d == lhi * d) by (nonlinear_arith)
            requires
                lhi == (lhi / d) * d + lhi % d,
        ;
        assert((hli / d) * (d * d) + (hli % d) * d == hli * d) by (nonlinear_arith)
            requires
                hli == (hli / d) * d + hli % d,
        ;
        assert((lli / d) * d + lli % d == lli);
        assert((hi as int) * (d * d) + lo as int == hhi * (d * d) + lhi * d + hli * d + lli);
        assert(hhi * (d * d) + (lhi + hli) * d + lli == (a1i * b1i) * (d * d) + (a0i * b1i + a1i
            * b0i) * d + a0i * b0i) by (nonlinear_arith)
            requires
                hhi == a1i * b1i && lhi == a0i * b1i && hli == a1i * b0i && lli == a0i * b0i,
        ;
        lemma_mul_is_distributive_add_other_way(d, lhi, hli);
        assert(d * d == two128());
        assert(u256_val((hi, lo)) == a * b);
    }
    (hi, lo)
}

/// True exactly when the first 256-bit value is below the second.
pub fn u256_lt(x: (u128, u128), y: (u128, u128)) -> (r: bool)
    ensures
        r == (u256_val(x) < u256_val(y)),
{
    let r = x.0 < y.0 || (x.0 == y.0 && x.1 < y.1);
    proof {
        if x.0 < y.0 {
            assert((x.0 as int) * two128() + x.1 < (y.0 as int) * two128() + y.1)
                by (nonlinear_arith)
                requires
                    (x.0 as int) < y.0 as int && x.1 < two128() && y.1 >= 0,
            ;
        } else if x.0 > y.0 {
            assert((x.0 as int) * two128() + x.1 > (y.0 as int) * two128() + y.1)
                by (nonlinear_arith)
                requires
                    (x.0 as int) > y.0 as int && y.1 < two128() && x.1 >= 0,
            ;
        }
    }
    r
}

/// Decides the oracle price comparison exactly: whether the 256-bit
/// ratio of `price_a * amount_a` to `price_b * amount_b`, truncated
/// toward zero, is strictly positive (direction `greater`) or exactly
/// zero (otherwise).
pub fn price_condition_holds(pa: i128, aa: i128, pb: i128, ab: i128, greater: bool) -> (r: bool)
    requires
        pb != 0,
        ab != 0,
    ensures
        r == spec_price_condition(pa, aa, pb, ab, greater),
{
    let ma = mag_i128(pa);
    let mb = mag_i128(aa);
    let mc = mag_i128(pb);
    let md = mag_i128(ab);
    let av = mul_u128(ma, mb);
    let bv = mul_u128(mc, md);
    let sa = (pa < 0) != (aa < 0);
    let sb = (pb < 0) != (ab < 0);
    let same = sa == sb;
    let lt_ab = u256_lt(av, bv);
    let r = if greater {
        !lt_ab && same
    } else {
        lt_ab
    };
    proof {
        let va = (pa as int) * (aa as int);
        let vb = (pb as int) * (ab as int);
        let biga = u256_val(av);
        let bigb = u256_val(bv);
        let t = biga / bigb;
        let q = spec_ratio(pa, aa, pb, ab);
        lemma_mag_mul(pa as int, aa as int);
        lemma_mag_mul(pb as int, ab as int);
        assert(mag(va) == biga && mag(vb) == bigb) by {
            assert((ma as int) * (mb as int) == mag(pa as int) * mag(aa as int));
            assert((mc as int) * (md as int) == mag(pb as int) * mag(ab as int));
        }
        // the divisor's magnitude is at least one, and the sign bits agree
        // with the products' signs wherever the products are nonzero
        assert(bigb >= 1) by (nonlinear_arith)
            requires
                bigb == (mc as int) * md && mc >= 1 && md >= 1,
        ;
        assert(vb != 0);
        assert((vb < 0) == sb);
        assert(va != 0 ==> (va < 0) == sa);
        assert(q == if (va < 0) == (vb < 0) {
            t
        } else {
            -t
        });
        // the quotient's sign class is decided by one magnitude comparison
        lemma_div_ge_iff(biga, bigb, 0);
        lemma_div_ge_iff(biga, bigb, 1);
        assert(t >= 0);
        assert((t >= 1) <==> (biga >= bigb));
        if biga == 0 {
            assert(va == 0);
            assert(t == 0) by {
                lemma_basic_div(0, bigb);
            }
        }
        if biga >= bigb {
            assert(va != 0);
            assert(same == ((va < 0) == (vb < 0)));
        }
    }
    r
}

} // verus!
