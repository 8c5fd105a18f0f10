//! Literal values of the expression language.
//!
//! A literal is one of `Number` (signed 32-bit integer), `Decimal`, `Bool`,
//! `Str` or `Nil`. Decimals are held exactly as a scaled integer
//! `units / 10^scale` in canonical form (no trailing zero digits in the
//! fraction), so that every arithmetic result the type can hold is exact;
//! an operation whose exact result needs more than [`MAX_SCALE`] fractional
//! digits or does not fit in the 64-bit mantissa reports an overflow error
//! instead of rounding silently.
use crate::ast::Op;
use crate::errors::{EvalError, EvalErrorV, YamlError, YamlErrorV};
use vstd::arithmetic::power::*;
use vstd::prelude::*;
use vstd::string::StringExecFns;

verus! {

/// The largest number of fractional digits a [`Decimal`] can carry.
pub const MAX_SCALE: u32 = 18;

/// Ten to the power `e`.
pub open spec fn pow10(e: nat) -> int {
    pow(10, e)
}

/// A decimal number held exactly: the rational `units / 10^scale`.
#[derive(Debug, PartialEq, Eq, Structural, Clone, Copy, Hash)]
pub struct Decimal {
    /// The scaled mantissa, including the sign.
    pub units: i64,
    /// How many of the mantissa's low digits lie right of the decimal point.
    pub scale: u32,
}

impl Decimal {
    /// A decimal is well formed when its scale is within bounds and the
    /// representation is canonical: a nonzero scale implies the mantissa is
    /// not divisible by ten, so each value has exactly one representation.
    pub open spec fn wf(self) -> bool {
        self.scale <= MAX_SCALE && (self.scale == 0 || self.units % 10 != 0)
    }

    /// The decimal holding the integer `n`.
    pub fn from_i32(n: i32) -> (r: Decimal)
        ensures
            r == spec_dec_from_int(n as int),
            r.wf(),
    {
        Decimal { units: n as i64, scale: 0 }
    }

}

/// The decimal denoting the integer `n` (well formed whenever `n` fits in
/// the mantissa).
pub open spec fn spec_dec_from_int(n: int) -> Decimal {
    Decimal { units: n as i64, scale: 0 }
}

/// Strips trailing zero digits from a scaled-integer representation:
/// the canonical pair denoting the same value `u / 10^s`.
pub open spec fn dec_canon(u: int, s: nat) -> (int, nat)
    decreases s,
{
    if s == 0 {
        (u, 0)
    } else if u % 10 == 0 {
        dec_canon(u / 10, (s - 1) as nat)
    } else {
        (u, s)
    }
}

/// Packs a scaled-integer value into a canonical [`Decimal`], or nothing
/// when even the canonical form exceeds the mantissa or the scale bound.
pub open spec fn spec_dec_make(u: int, s: nat) -> Option<Decimal> {
    let c = dec_canon(u, s);
    if i64::MIN <= c.0 <= i64::MAX && c.1 <= MAX_SCALE {
        Some(Decimal { units: c.0 as i64, scale: c.1 as u32 })
    } else {
        None
    }
}

/// The exact sum of two decimals, aligned to the larger scale.
pub open spec fn spec_dec_add(a: Decimal, b: Decimal) -> Option<Decimal> {
    let m = if a.scale >= b.scale {
        a.scale
    } else {
        b.scale
    };
    spec_dec_make(
        a.units * pow10((m - a.scale) as nat) + b.units * pow10((m - b.scale) as nat),
        m as nat,
    )
}

/// The exact difference of two decimals, aligned to the larger scale.
pub open spec fn spec_dec_sub(a: Decimal, b: Decimal) -> Option<Decimal> {
    let m = if a.scale >= b.scale {
        a.scale
    } else {
        b.scale
    };
    spec_dec_make(
        a.units * pow10((m - a.scale) as nat) - b.units * pow10((m - b.scale) as nat),
        m as nat,
    )
}

/// The exact product of two decimals.
pub open spec fn spec_dec_mul(a: Decimal, b: Decimal) -> Option<Decimal> {
    spec_dec_make(a.units * b.units, (a.scale + b.scale) as nat)
}

proof fn lemma_pow10_pos(e: nat)
    ensures
        pow10(e) >= 1,
{
    lemma_pow_positive(10, e);
}

proof fn lemma_pow10_le_36(e: nat)
    requires
        e <= 36,
    ensures
        1 <= pow10(e) <= pow10(36),
{
    lemma_pow10_pos(e);
    if e < 36 {
        lemma_pow_strictly_increases(10, e, 36);
    }
}

proof fn lemma_pow10_18_value()
    ensures
        pow10(18) == 1000000000000000000int,
{
    reveal_with_fuel(pow, 19);
}

proof fn lemma_pow10_36_value()
    ensures
        pow10(36) == 1000000000000000000000000000000000000int,
{
    lemma_pow10_18_value();
    lemma_pow_adds(10, 18, 18);
}

/// Ten to the power `e`, computed executably.
pub fn pow10_i128(e: u32) -> (r: i128)
    requires
        e <= 36,
    ensures
        r == pow10(e as nat),
{
    let mut r: i128 = 1;
    let mut i: u32 = 0;
    proof {
        lemma_pow0(10);
    }
    while i < e
        invariant
            i <= e <= 36,
            r == pow10(i as nat),
        decreases e - i,
    {
        proof {
            lemma_pow10_le_36(i as nat);
            lemma_pow10_le_36((i + 1) as nat);
            lemma_pow10_36_value();
            lemma_pow1(10);
            lemma_pow_adds(10, i as nat, 1);
        }
        r = r * 10;
        i = i + 1;
    }
    r
}

/// Canonicalizes `u / 10^s` and packs it, matching [`spec_dec_make`].
fn dec_norm(mut u: i128, mut s: u32) -> (r: Option<Decimal>)
    requires
        s <= 36,
    ensures
        r == spec_dec_make(u as int, s as nat),
        r is Some ==> r.unwrap().wf(),
{
    let ghost u0: int = u as int;
    let ghost s0: nat = s as nat;
    while s > 0 && (u % 10 == 0)
        invariant
            s <= 36,
            dec_canon(u as int, s as nat) == dec_canon(u0, s0),
        decreases s,
    {
        proof {
            assert(u as int % 10 == 0);
        }
        u = u / 10;
        s = s - 1;
    }
    proof {
        assert(dec_canon(u as int, s as nat) == (u as int, s as nat));
    }
    if s <= MAX_SCALE && u >= i64::MIN as i128 && u <= i64::MAX as i128 {
        Some(Decimal { units: u as i64, scale: s })
    } else {
        None
    }
}

proof fn lemma_pow10_le_18(e: nat)
    requires
        e <= 18,
    ensures
        1 <= pow10(e) <= 1000000000000000000int,
{
    lemma_pow10_pos(e);
    lemma_pow10_18_value();
    if e < 18 {
        lemma_pow_strictly_increases(10, e, 18);
    }
}

/// Canonicalization keeps the denoted value, the sign, and the magnitude
/// bound of the mantissa, and yields a canonical pair.
proof fn lemma_dec_canon_props(u: int, s: nat)
    ensures
        dec_canon(u, s).1 <= s,
        u * pow10(dec_canon(u, s).1) == dec_canon(u, s).0 * pow10(s),
        dec_canon(u, s).1 == 0 || dec_canon(u, s).0 % 10 != 0,
        u >= 0 ==> 0 <= dec_canon(u, s).0 <= u,
        u <= 0 ==> u <= dec_canon(u, s).0 <= 0,
    decreases s,
{
    lemma_pow10_pos(s);
    if s == 0 {
        lemma_pow0(10);
    } else if u % 10 == 0 {
        let v = u / 10;
        vstd::arithmetic::div_mod::lemma_fundamental_div_mod(u, 10);
        lemma_dec_canon_props(v, (s - 1) as nat);
        let c = dec_canon(v, (s - 1) as nat);
        lemma_pow_adds(10, 1, (s - 1) as nat);
        lemma_pow1(10);
        assert(u == 10 * v);
        assert(v * pow10(c.1) == c.0 * pow10((s - 1) as nat));
        assert(u * pow10(c.1) == 10 * (v * pow10(c.1))) by (nonlinear_arith)
            requires
                u == 10 * v,
        ;
        assert(10 * (c.0 * pow10((s - 1) as nat)) == c.0 * (10 * pow10((s - 1) as nat)))
            by (nonlinear_arith);
        assert(u >= 0 ==> 0 <= v <= u);
        assert(u <= 0 ==> u <= v <= 0);
    }
}

/// A 64-bit mantissa times a power of ten up to `10^18` stays well inside
/// the 128-bit range.
proof fn lemma_units_times_pow_bound(u: int, p: int)
    requires
        -9223372036854775808 <= u <= 9223372036854775807,
        1 <= p <= 1000000000000000000,
    ensures
        -9223372036854775808000000000000000000 <= u * p
            <= 9223372036854775807000000000000000000,
{
    assert(-9223372036854775808000000000000000000 <= u * p
        <= 9223372036854775807000000000000000000) by (nonlinear_arith)
        requires
            -9223372036854775808 <= u <= 9223372036854775807,
            1 <= p <= 1000000000000000000,
    ;
}

/// The exact sum, or nothing when it does not fit.
pub fn dec_add(a: Decimal, b: Decimal) -> (r: Option<Decimal>)
    requires
        a.wf(),
        b.wf(),
    ensures
        r == spec_dec_add(a, b),
        r matches Some(d) ==> d.wf(),
{
    let m = if a.scale >= b.scale {
        a.scale
    } else {
        b.scale
    };
    proof {
        lemma_pow10_le_18((m - a.scale) as nat);
        lemma_pow10_le_18((m - b.scale) as nat);
    }
    let pa = pow10_i128(m - a.scale);
    let pb = pow10_i128(m - b.scale);
    proof {
        lemma_units_times_pow_bound(a.units as int, pa as int);
        lemma_units_times_pow_bound(b.units as int, pb as int);
    }
    let ua = (a.units as i128) * pa;
    let ub = (b.units as i128) * pb;
    dec_norm(ua + ub, m)
}

/// The exact difference, or nothing when it does not fit.
pub fn dec_sub(a: Decimal, b: Decimal) -> (r: Option<Decimal>)
    requires
        a.wf(),
        b.wf(),
    ensures
        r == spec_dec_sub(a, b),
        r matches Some(d) ==> d.wf(),
{
    let m = if a.scale >= b.scale {
        a.scale
    } else {
        b.scale
    };
    proof {
        lemma_pow10_le_18((m - a.scale) as nat);
        lemma_pow10_le_18((m - b.scale) as nat);
    }
    let pa = pow10_i128(m - a.scale);
    let pb = pow10_i128(m - b.scale);
    proof {
        lemma_units_times_pow_bound(a.units as int, pa as int);
        lemma_units_times_pow_bound(b.units as int, pb as int);
    }
    let ua = (a.units as i128) * pa;
    let ub = (b.units as i128) * pb;
    dec_norm(ua - ub, m)
}

/// The exact product, or nothing when it does not fit.
pub fn dec_mul(a: Decimal, b: Decimal) -> (r: Option<Decimal>)
    requires
        a.wf(),
        b.wf(),
    ensures
        r == spec_dec_mul(a, b),
        r matches Some(d) ==> d.wf(),
{
    proof {
        assert(-170141183460469231731687303715884105728 <= (a.units as int) * (b.units as int)
            <= 170141183460469231731687303715884105727) by (nonlinear_arith)
            requires
                -9223372036854775808 <= a.units as int <= 9223372036854775807,
                -9223372036854775808 <= b.units as int <= 9223372036854775807,
        ;
    }
    let u = (a.units as i128) * (b.units as i128);
    dec_norm(u, a.scale + b.scale)
}

/// The remainder with truncating semantics: its sign follows the dividend,
/// its magnitude is the magnitude remainder.
pub open spec fn trunc_rem(x: int, d: int) -> int
    recommends
        d != 0,
{
    let dm = if d >= 0 {
        d
    } else {
        -d
    };
    if x >= 0 {
        x % dm
    } else {
        -((-x) % dm)
    }
}

/// The exact truncating remainder of two decimals, aligned to the larger
/// scale, as a floating-point `%` computes it.
pub open spec fn spec_dec_rem(a: Decimal, b: Decimal) -> Option<Decimal>
    recommends
        b.units != 0,
{
    let m = if a.scale >= b.scale {
        a.scale
    } else {
        b.scale
    };
    spec_dec_make(
        trunc_rem(
            a.units * pow10((m - a.scale) as nat),
            b.units * pow10((m - b.scale) as nat),
        ),
        m as nat,
    )
}

/// The exact remainder, or nothing when it does not fit.
pub fn dec_rem(a: Decimal, b: Decimal) -> (r: Option<Decimal>)
    requires
        a.wf(),
        b.wf(),
        b.units != 0,
    ensures
        r == spec_dec_rem(a, b),
        r matches Some(d) ==> d.wf(),
{
    let m = if a.scale >= b.scale {
        a.scale
    } else {
        b.scale
    };
    proof {
        lemma_pow10_le_18((m - a.scale) as nat);
        lemma_pow10_le_18((m - b.scale) as nat);
    }
    let pa = pow10_i128(m - a.scale);
    let pb = pow10_i128(m - b.scale);
    proof {
        lemma_units_times_pow_bound(a.units as int, pa as int);
        lemma_units_times_pow_bound(b.units as int, pb as int);
    }
    let ua = (a.units as i128) * pa;
    let ub = (b.units as i128) * pb;
    proof {
        assert(ub != 0) by (nonlinear_arith)
            requires
                b.units != 0,
                pb >= 1,
                ub == (b.units as i128) * pb,
        ;
    }
    let um: u128 = if ua >= 0 {
        ua as u128
    } else {
        (-ua) as u128
    };
    let vm: u128 = if ub >= 0 {
        ub as u128
    } else {
        (-ub) as u128
    };
    let rm = um % vm;
    let rr: i128 = if ua < 0 {
        -(rm as i128)
    } else {
        rm as i128
    };
    dec_norm(rr, m)
}

/// The exact quotient of two decimals, written out to [`MAX_SCALE`]
/// fractional digits; nothing when the exact quotient needs more digits
/// than that or does not fit in the mantissa.
pub open spec fn spec_dec_div(a: Decimal, b: Decimal) -> Option<Decimal>
    recommends
        b.units != 0,
{
    let n = a.units * pow10(b.scale as nat);
    let d = b.units * pow10(a.scale as nat);
    let nm = if n >= 0 {
        n
    } else {
        -n
    };
    let dm = if d >= 0 {
        d
    } else {
        -d
    };
    let neg = (n < 0) <==> (d >= 0);
    if (nm * pow10(MAX_SCALE as nat)) % dm == 0 {
        let qm = (nm * pow10(MAX_SCALE as nat)) / dm;
        spec_dec_make(
            if neg {
                -qm
            } else {
                qm
            },
            MAX_SCALE as nat,
        )
    } else {
        None
    }
}

/// A value whose magnitude exceeds `2^63 * 10^18` cannot be packed: even
/// after stripping all trailing zeros its mantissa misses the 64-bit range.
proof fn lemma_make_too_big(u: int, s: nat)
    requires
        s <= 18,
        u > 9223372036854775808 * pow10(18) || u < -9223372036854775808 * pow10(18),
    ensures
        spec_dec_make(u, s) is None,
{
    let c = dec_canon(u, s);
    lemma_dec_canon_props(u, s);
    lemma_pow10_pos(c.1);
    lemma_pow10_le_18(s);
    lemma_pow10_18_value();
    if i64::MIN <= c.0 <= i64::MAX && c.1 <= MAX_SCALE {
        assert(u * pow10(c.1) == c.0 * pow10(s));
        if u >= 0 {
            assert(u <= u * pow10(c.1)) by (nonlinear_arith)
                requires
                    u >= 0,
                    pow10(c.1) >= 1,
            ;
            assert(c.0 * pow10(s) <= c.0 * pow10(18)) by (nonlinear_arith)
                requires
                    0 <= c.0,
                    0 < pow10(s) <= pow10(18),
            ;
            assert(false);
        } else {
            assert(u * pow10(c.1) <= u) by (nonlinear_arith)
                requires
                    u <= 0,
                    pow10(c.1) >= 1,
            ;
            assert(c.0 * pow10(18) <= c.0 * pow10(s)) by (nonlinear_arith)
                requires
                    c.0 <= 0,
                    0 < pow10(s) <= pow10(18),
            ;
            assert(false);
        }
    }
}

/// The exact quotient, or nothing when the decimal expansion does not
/// terminate within bounds.
pub fn dec_div(a: Decimal, b: Decimal) -> (r: Option<Decimal>)
    requires
        a.wf(),
        b.wf(),
        b.units != 0,
    ensures
        r == spec_dec_div(a, b),
        r matches Some(d) ==> d.wf(),
{
    proof {
        lemma_pow10_le_18(a.scale as nat);
        lemma_pow10_le_18(b.scale as nat);
        lemma_pow10_18_value();
    }
    let pa = pow10_i128(a.scale);
    let pb = pow10_i128(b.scale);
    proof {
        lemma_units_times_pow_bound(a.units as int, pb as int);
        lemma_units_times_pow_bound(b.units as int, pa as int);
    }
    let n = (a.units as i128) * pb;
    let d = (b.units as i128) * pa;
    proof {
        assert(d != 0) by (nonlinear_arith)
            requires
                b.units != 0,
                pa >= 1,
                d == (b.units as i128) * pa,
        ;
    }
    let nm: u128 = if n >= 0 {
        n as u128
    } else {
        (-n) as u128
    };
    let dm: u128 = if d >= 0 {
        d as u128
    } else {
        (-d) as u128
    };
    let neg: bool = (n < 0) != (d < 0);
    let q0 = nm / dm;
    let mut rem = nm % dm;
    if q0 > 9223372036854775808u128 {
        proof {
            let qm = (nm as int * pow10(18)) / (dm as int);
            vstd::arithmetic::div_mod::lemma_fundamental_div_mod(nm as int, dm as int);
            vstd::arithmetic::div_mod::lemma_mod_bound(nm as int, dm as int);
            assert(nm as int >= q0 * dm) by (nonlinear_arith)
                requires
                    dm >= 1,
                    nm as int == dm as int * q0 + nm as int % dm as int,
                    nm as int % dm as int >= 0,
            ;
            assert(nm as int * pow10(18) >= (q0 * dm) * pow10(18)) by (nonlinear_arith)
                requires
                    nm as int >= q0 * dm,
                    pow10(18) >= 1,
            ;
            assert((q0 * dm) * pow10(18) == (q0 * pow10(18)) * dm) by (nonlinear_arith);
            vstd::arithmetic::div_mod::lemma_div_multiples_vanish(q0 * pow10(18), dm as int);
            assert((q0 * pow10(18)) * dm == dm as int * (q0 * pow10(18))) by (nonlinear_arith);
            vstd::arithmetic::div_mod::lemma_div_is_ordered(
                (q0 * pow10(18)) * dm as int,
                nm as int * pow10(18),
                dm as int,
            );
            assert(qm >= q0 * pow10(18));
            assert(q0 * pow10(18) > 9223372036854775808 * pow10(18)) by (nonlinear_arith)
                requires
                    q0 > 9223372036854775808,
                    pow10(18) >= 1,
            ;
            if (nm as int * pow10(18)) % (dm as int) == 0 {
                if neg {
                    lemma_make_too_big(-qm, 18);
                } else {
                    lemma_make_too_big(qm, 18);
                }
            }
        }
        return None;
    }
    let mut q: u128 = q0;
    let mut i: u32 = 0;
    proof {
        lemma_pow0(10);
        lemma_pow10_le_18(18);
        assert(pow10(0) == 1);
        assert(nm as int * pow10(0) == nm as int);
        vstd::arithmetic::div_mod::lemma_mod_bound(nm as int, dm as int);
    }
    while i < 18
        invariant
            i <= 18,
            dm >= 1,
            nm <= 9223372036854775808000000000000000000u128,
            dm <= 9223372036854775808000000000000000000u128,
            rem < dm,
            q0 == nm as int / dm as int,
            q0 <= 9223372036854775808u128,
            q == (nm as int * pow10(i as nat)) / dm as int,
            rem == (nm as int * pow10(i as nat)) % dm as int,
            q < (q0 + 1) * pow10(i as nat),
        decreases 18 - i,
    {
        proof {
            lemma_pow10_18_value();
            let nn = nm as int * pow10(i as nat);
            vstd::arithmetic::div_mod::lemma_fundamental_div_mod(nn, dm as int);
            vstd::arithmetic::div_mod::lemma_mod_bound(nn, dm as int);
            assert(rem < dm);
            let r10 = rem as int * 10;
            vstd::arithmetic::div_mod::lemma_fundamental_div_mod(r10, dm as int);
            vstd::arithmetic::div_mod::lemma_mod_bound(r10, dm as int);
            lemma_pow_adds(10, i as nat, 1);
            lemma_pow1(10);
            assert(nn * 10 == (q * dm + rem) * 10) by (nonlinear_arith)
                requires
                    nn == q * dm + rem,
            ;
            assert((q * dm + rem) * 10 == (10 * q) * dm + r10) by (nonlinear_arith)
                requires
                    r10 == rem * 10,
            ;
            let dq = r10 / dm as int;
            let dr = r10 % dm as int;
            assert((10 * q) * dm + r10 == (10 * q + dq) * dm + dr) by (nonlinear_arith)
                requires
                    r10 == dq * dm + dr,
            ;
            vstd::arithmetic::div_mod::lemma_fundamental_div_mod_converse(
                nn * 10,
                dm as int,
                10 * q + dq,
                dr,
            );
            // magnitude bound for the next step
            lemma_pow10_le_18((i + 1) as nat);
            assert(pow10((i + 1) as nat) == pow10(i as nat) * 10);
            assert(nn * 10 == nm as int * pow10((i + 1) as nat)) by (nonlinear_arith)
                requires
                    nn == nm as int * pow10(i as nat),
                    pow10((i + 1) as nat) == pow10(i as nat) * 10,
            ;
            vstd::arithmetic::div_mod::lemma_fundamental_div_mod(nm as int, dm as int);
            vstd::arithmetic::div_mod::lemma_mod_bound(nm as int, dm as int);
            assert((nm as int) < (q0 + 1) * dm) by (nonlinear_arith)
                requires
                    dm >= 1,
                    nm as int == dm as int * q0 + nm as int % dm as int,
                    (nm as int % dm as int) < dm,
            ;
            assert(nm as int * pow10((i + 1) as nat) < ((q0 + 1) * pow10((i + 1) as nat)) * dm)
                by (nonlinear_arith)
                requires
                    (nm as int) < (q0 + 1) * dm,
                    pow10((i + 1) as nat) >= 1,
            ;
            vstd::arithmetic::div_mod::lemma_multiply_divide_lt(
                nm as int * pow10((i + 1) as nat),
                dm as int,
                (q0 + 1) * pow10((i + 1) as nat),
            );
            lemma_pow10_le_18((i + 1) as nat);
            assert((q0 + 1) * pow10((i + 1) as nat) <= (q0 + 1) * pow10(18)) by (nonlinear_arith)
                requires
                    q0 + 1 >= 1,
                    0 < pow10((i + 1) as nat) <= pow10(18),
            ;
        }
        let r10 = rem * 10;
        let digit = r10 / dm;
        rem = r10 % dm;
        q = q * 10 + digit;
        i = i + 1;
    }
    if rem != 0 {
        return None;
    }
    let qs: i128 = if neg {
        -(q as i128)
    } else {
        q as i128
    };
    proof {
        assert((q0 + 1) * pow10(18) <= (9223372036854775808 + 1) * 1000000000000000000int)
            by (nonlinear_arith)
            requires
                q0 <= 9223372036854775808u128,
                pow10(18) == 1000000000000000000int,
        ;
    }
    dec_norm(qs, MAX_SCALE)
}

/// The integer power `base ^ e` of the `Number` type: exact for
/// non-negative exponents when the result fits, and the truncation of
/// `1 / base^(-e)` toward zero for negative ones.
pub open spec fn spec_i32_pow(base: i32, e: i32) -> Option<i32> {
    if e >= 0 {
        let v = pow(base as int, e as nat);
        if i32::MIN <= v <= i32::MAX {
            Some(v as i32)
        } else {
            None
        }
    } else if base == 0 {
        None
    } else if base == 1 {
        Some(1i32)
    } else if base == -1 {
        Some(
            if e % 2 == 0 {
                1i32
            } else {
                -1i32
            },
        )
    } else {
        Some(0i32)
    }
}

proof fn lemma_pow_one_base(e: nat)
    ensures
        pow(1, e) == 1,
    decreases e,
{
    reveal(pow);
    if e > 0 {
        lemma_pow_one_base((e - 1) as nat);
    }
}

proof fn lemma_pow_neg_one(e: nat)
    ensures
        pow(-1, e) == if e % 2 == 0 {
            1int
        } else {
            -1int
        },
    decreases e,
{
    reveal(pow);
    if e > 0 {
        lemma_pow_neg_one((e - 1) as nat);
    }
}

/// For a base of magnitude at least two, powers are never zero and their
/// magnitude at least doubles with each further exponent step.
proof fn lemma_pow_mag_nondec(b: int, e1: nat, e2: nat)
    requires
        b >= 2 || b <= -2,
        e1 <= e2,
    ensures
        vstd::math::abs(pow(b, e1)) >= 1,
        vstd::math::abs(pow(b, e1)) <= vstd::math::abs(pow(b, e2)),
        e1 < e2 ==> 2 * vstd::math::abs(pow(b, e1)) <= vstd::math::abs(pow(b, e2)),
    decreases e2 - e1,
{
    if e1 == e2 {
        lemma_pow_positive_or_zero(b, e1);
    } else {
        lemma_pow_mag_nondec(b, e1, (e2 - 1) as nat);
        let p = pow(b, (e2 - 1) as nat);
        assert(pow(b, e2) == b * p) by {
            lemma_pow1(b);
            lemma_pow_adds(b, 1, (e2 - 1) as nat);
        }
        assert(2 * vstd::math::abs(p) <= vstd::math::abs(b * p)) by (nonlinear_arith)
            requires
                b >= 2 || b <= -2,
        ;
    }
}

/// A nonzero base has nonzero powers.
proof fn lemma_pow_positive_or_zero(b: int, e: nat)
    requires
        b != 0,
    ensures
        vstd::math::abs(pow(b, e)) >= 1,
    decreases e,
{
    reveal(pow);
    if e == 0 {
    } else {
        lemma_pow_positive_or_zero(b, (e - 1) as nat);
        let p = pow(b, (e - 1) as nat);
        assert(vstd::math::abs(b * p) >= vstd::math::abs(p)) by (nonlinear_arith)
            requires
                b <= -1 || b >= 1,
        ;
    }
}

/// The integer power, or nothing when the exact result leaves the 32-bit
/// range (including a negative exponent on base zero).
pub fn i32_pow(base: i32, e: i32) -> (r: Option<i32>)
    ensures
        r == spec_i32_pow(base, e),
{
    if e < 0 {
        if base == 0 {
            return None;
        }
        if base == 1 {
            return Some(1);
        }
        if base == -1 {
            return Some(
                if e % 2 == 0 {
                    1
                } else {
                    -1
                },
            );
        }
        return Some(0);
    }
    if base == 0 {
        proof {
            if e > 0 {
                lemma0_pow(e as nat);
            } else {
                lemma_pow0(0);
            }
        }
        return Some(
            if e == 0 {
                1
            } else {
                0
            },
        );
    }
    if base == 1 {
        proof {
            lemma_pow_one_base(e as nat);
        }
        return Some(1);
    }
    if base == -1 {
        proof {
            lemma_pow_neg_one(e as nat);
        }
        return Some(
            if e % 2 == 0 {
                1
            } else {
                -1
            },
        );
    }
    let mut acc: i64 = 1;
    let mut k: i32 = 0;
    proof {
        lemma_pow0(base as int);
    }
    while k < e
        invariant
            0 <= k <= e,
            base >= 2 || base <= -2,
            acc == pow(base as int, k as nat),
            i32::MIN <= acc <= i32::MAX,
        decreases e - k,
    {
        proof {
            lemma_pow1(base as int);
            lemma_pow_adds(base as int, k as nat, 1);
            assert(pow(base as int, (k + 1) as nat) == acc * base) by (nonlinear_arith)
                requires
                    pow(base as int, (k + 1) as nat) == pow(base as int, k as nat) * pow(
                        base as int,
                        1,
                    ),
                    pow(base as int, 1) == base as int,
                    acc == pow(base as int, k as nat),
            ;
            assert(-4611686018427387904 <= (acc as int) * (base as int)
                <= 4611686018427387904) by (nonlinear_arith)
                requires
                    -2147483648 <= acc as int <= 2147483647,
                    -2147483648 <= base as int <= 2147483647,
            ;
        }
        let next = acc * (base as i64);
        if next > i32::MAX as i64 || next < i32::MIN as i64 {
            proof {
                let pk1 = pow(base as int, (k + 1) as nat);
                assert(vstd::math::abs(pk1) >= 2147483648);
                if k + 1 < e {
                    lemma_pow_mag_nondec(base as int, (k + 1) as nat, e as nat);
                    assert(vstd::math::abs(pow(base as int, e as nat)) >= 4294967296);
                }
            }
            return None;
        }
        acc = next;
        k = k + 1;
    }
    Some(acc as i32)
}

/// `d ^ k` for a non-negative exponent, exact step by step; nothing as soon
/// as an intermediate product leaves the representation.
pub open spec fn spec_dec_pow_nat(d: Decimal, k: nat) -> Option<Decimal>
    decreases k,
{
    if k == 0 {
        Some(Decimal { units: 1, scale: 0 })
    } else {
        match spec_dec_pow_nat(d, (k - 1) as nat) {
            Some(p) => spec_dec_mul(p, d),
            None => None,
        }
    }
}

/// `d ^ e` for any exponent: negative exponents take the exact reciprocal
/// of the positive power, when it exists.
pub open spec fn spec_dec_pow(d: Decimal, e: i32) -> Option<Decimal> {
    if e >= 0 {
        spec_dec_pow_nat(d, e as nat)
    } else {
        match spec_dec_pow_nat(d, (-(e as int)) as nat) {
            Some(p) => if p.units == 0 {
                None
            } else {
                spec_dec_div(Decimal { units: 1, scale: 0 }, p)
            },
            None => None,
        }
    }
}

/// The exact decimal power, or nothing when it does not fit.
pub fn dec_pow(d: Decimal, e: i32) -> (r: Option<Decimal>)
    requires
        d.wf(),
    ensures
        r == spec_dec_pow(d, e),
        r matches Some(p) ==> p.wf(),
{
    let mag: u32 = if e >= 0 {
        e as u32
    } else if e == i32::MIN {
        2147483648u32
    } else {
        (-e) as u32
    };
    let mut acc = Decimal { units: 1, scale: 0 };
    let mut k: u32 = 0;
    while k < mag
        invariant
            k <= mag,
            d.wf(),
            acc.wf(),
            Some(acc) == spec_dec_pow_nat(d, k as nat),
            e >= 0 ==> mag == e,
            e < 0 ==> mag as int == -(e as int),
        decreases mag - k,
    {
        match dec_mul(acc, d) {
            Some(p) => {
                acc = p;
            },
            None => {
                proof {
                    assert(spec_dec_pow_nat(d, (k + 1) as nat) is None);
                    lemma_dec_pow_nat_none(d, (k + 1) as nat, mag as nat);
                    assert(spec_dec_pow_nat(d, mag as nat) is None);
                    if e >= 0 {
                        assert(mag as nat == e as nat);
                    } else if e == i32::MIN {
                        assert(mag as nat == (-(e as int)) as nat);
                    } else {
                        assert(mag as nat == (-(e as int)) as nat);
                    }
                }
                return None;
            },
        }
        k = k + 1;
    }
    if e >= 0 {
        Some(acc)
    } else {
        if acc.units == 0 {
            None
        } else {
            dec_div(Decimal { units: 1, scale: 0 }, acc)
        }
    }
}

/// Once a power step fails to fit, all higher powers fail too.
proof fn lemma_dec_pow_nat_none(d: Decimal, k1: nat, k2: nat)
    requires
        k1 <= k2,
        spec_dec_pow_nat(d, k1) is None,
    ensures
        spec_dec_pow_nat(d, k2) is None,
    decreases k2 - k1,
{
    if k1 < k2 {
        lemma_dec_pow_nat_none(d, k1, (k2 - 1) as nat);
    }
}

/// Whether `c` is an ASCII digit.
pub open spec fn spec_is_digit_char(c: char) -> bool {
    48 <= c as u32 <= 57
}

/// The numeric value of a sequence of ASCII digits, most significant first.
pub open spec fn digits_val(s: Seq<char>) -> int
    decreases s.len(),
{
    if s.len() == 0 {
        0
    } else {
        10 * digits_val(s.drop_last()) + (s.last() as u32 - 48)
    }
}

/// The `Number` a digit token denotes: its value when that fits in 32 bits,
/// and zero otherwise (an unparseable literal falls back to zero).
pub open spec fn spec_number_token_val(s: Seq<char>) -> i32 {
    if digits_val(s) <= i32::MAX {
        digits_val(s) as i32
    } else {
        0i32
    }
}

proof fn lemma_digits_val_nonneg(s: Seq<char>)
    requires
        forall|j: int| 0 <= j < s.len() ==> spec_is_digit_char(s[j]),
    ensures
        digits_val(s) >= 0,
    decreases s.len(),
{
    if s.len() > 0 {
        lemma_digits_val_nonneg(s.drop_last());
    }
}

/// The integer a digit token denotes, with the out-of-range fallback to zero.
pub fn number_from_chars(v: &Vec<char>) -> (r: i32)
    requires
        forall|j: int| 0 <= j < v@.len() ==> spec_is_digit_char(v@[j]),
    ensures
        r == spec_number_token_val(v@),
{
    let mut acc: u128 = 0;
    let mut over: bool = false;
    let mut i: usize = 0;
    proof {
        assert(v@.take(0) =~= Seq::<char>::empty());
    }
    while i < v.len()
        invariant
            i <= v@.len(),
            forall|j: int| 0 <= j < v@.len() ==> spec_is_digit_char(v@[j]),
            !over ==> acc == digits_val(v@.take(i as int)) && acc <= i32::MAX,
            over ==> digits_val(v@.take(i as int)) > i32::MAX,
        decreases v@.len() - i,
    {
        let c = v[i];
        let d = (c as u32) - 48;
        proof {
            assert(v@.take(i + 1).drop_last() =~= v@.take(i as int));
            assert(v@.take(i + 1).last() == v@[i as int]);
            lemma_digits_val_nonneg(v@.take(i as int));
        }
        if over {
        } else {
            let next = acc * 10 + (d as u128);
            if next > i32::MAX as u128 {
                over = true;
            } else {
                acc = next;
            }
        }
        i += 1;
    }
    proof {
        assert(v@.take(v@.len() as int) =~= v@);
    }
    if over {
        0
    } else {
        acc as i32
    }
}

/// Whether `c` is the dot, by its code point.
pub open spec fn spec_is_dot_char(c: char) -> bool {
    c as u32 == 46
}

/// The index of the first `.` in `s` (meaningful only when one exists).
pub open spec fn spec_find_dot(s: Seq<char>) -> int
    decreases s.len(),
{
    if s.len() == 0 {
        0
    } else if spec_is_dot_char(s[0]) {
        0
    } else {
        1 + spec_find_dot(s.drop_first())
    }
}

/// Whether `s` has the shape of a decimal token: a single dot, digits
/// everywhere else.
pub open spec fn spec_is_decimal_token(s: Seq<char>) -> bool {
    let i = spec_find_dot(s);
    0 <= i < s.len() && spec_is_dot_char(s[i]) && forall|j: int|
        0 <= j < s.len() && j != i ==> spec_is_digit_char(s[j])
}

/// The `Decimal` a decimal token denotes: the exact value of its digits
/// around the dot when the canonical form fits the representation, and
/// zero otherwise (an unparseable literal falls back to zero).
pub open spec fn spec_decimal_token_val(s: Seq<char>) -> Decimal {
    let i = spec_find_dot(s);
    let digits = s.take(i) + s.skip(i + 1);
    let scale = s.len() - i - 1;
    match spec_dec_make(digits_val(digits), scale as nat) {
        Some(d) => d,
        None => Decimal { units: 0, scale: 0 },
    }
}

/// Dropping trailing zero digits from the token moves the zeros into the
/// scale: the canonical form is unchanged.
proof fn lemma_canon_strip_zeros(full: Seq<char>, pre: Seq<char>, sc: nat)
    requires
        pre.len() <= full.len(),
        forall|j: int| 0 <= j < pre.len() ==> full[j] == pre[j],
        forall|j: int| pre.len() <= j < full.len() ==> (full[j] as u32) == 48,
    ensures
        dec_canon(digits_val(full), (sc + full.len() - pre.len()) as nat) == dec_canon(
            digits_val(pre),
            sc,
        ),
    decreases full.len() - pre.len(),
{
    if full.len() > pre.len() {
        let fd = full.drop_last();
        assert(forall|j: int| 0 <= j < pre.len() ==> fd[j] == pre[j]);
        assert(forall|j: int| pre.len() <= j < fd.len() ==> (fd[j] as u32) == 48);
        lemma_canon_strip_zeros(fd, pre, sc);
        let dv = digits_val(fd);
        assert(digits_val(full) == 10 * dv + ((full.last() as u32) - 48));
        assert((full.last() as u32) == 48);
        assert(digits_val(full) == 10 * dv);
        assert((10 * dv) % 10 == 0) by (nonlinear_arith);
        assert((10 * dv) / 10 == dv) by (nonlinear_arith);
        assert(dec_canon(10 * dv, (sc + full.len() - pre.len()) as nat) == dec_canon(
            dv,
            (sc + fd.len() - pre.len()) as nat,
        ));
    } else {
        assert(full =~= pre);
    }
}

/// The decimal a decimal token denotes, with the fallback to zero.
#[verifier::rlimit(60)]
pub fn decimal_from_chars(v: &Vec<char>) -> (r: Decimal)
    requires
        spec_is_decimal_token(v@),
    ensures
        r == spec_decimal_token_val(v@),
        r.wf(),
{
    // find the dot
    let mut di: usize = 0;
    proof {
        lemma_find_dot_step(v@, 0);
    }
    while di < v.len() && (v[di] as u32) != 46
        invariant
            0 <= di <= v@.len(),
            spec_is_decimal_token(v@),
            forall|j: int| 0 <= j < di ==> !spec_is_dot_char(v@[j]),
            spec_find_dot(v@) >= di,
        decreases v@.len() - di,
    {
        di += 1;
        proof {
            lemma_find_dot_step(v@, di as int);
        }
    }
    proof {
        lemma_find_dot_found(v@, di as int);
    }
    // gather the digits with trailing fraction zeros stripped
    let mut last: usize = v.len();
    while last > di + 1 && (v[last - 1] as u32) == 48
        invariant
            di + 1 <= last <= v@.len(),
            spec_is_decimal_token(v@),
            di == spec_find_dot(v@),
            di < v@.len(),
            spec_is_dot_char(v@[di as int]),
            forall|j: int| last <= j < v@.len() ==> (v@[j] as u32) == 48,
        decreases last,
    {
        last -= 1;
    }
    let ghost digits_all = v@.take(di as int) + v@.skip(di + 1);
    let ghost digits_trim = v@.take(di as int) + v@.subrange(di + 1, last as int);
    let scale_full = v.len() - di - 1;
    let scale: usize = last - di - 1;
    let mut acc: u128 = 0;
    let mut over: bool = false;
    let mut i: usize = 0;
    proof {
        assert(digits_trim.take(0) =~= Seq::<char>::empty());
        assert(forall|j: int|
            0 <= j < digits_trim.len() ==> spec_is_digit_char(#[trigger] digits_trim[j]));
    }
    while i < last - 1
        invariant
            di < last <= v@.len(),
            di == spec_find_dot(v@),
            spec_is_decimal_token(v@),
            spec_is_dot_char(v@[di as int]),
            digits_trim == v@.take(di as int) + v@.subrange(di + 1, last as int),
            digits_trim.len() == last - 1,
            i <= last - 1,
            forall|j: int|
                0 <= j < digits_trim.len() ==> spec_is_digit_char(#[trigger] digits_trim[j]),
            !over ==> acc == digits_val(digits_trim.take(i as int)) && acc <= i64::MAX,
            over ==> digits_val(digits_trim.take(i as int)) > i64::MAX,
        decreases last - 1 - i,
    {
        let c = if i < di {
            v[i]
        } else {
            v[i + 1]
        };
        proof {
            assert(digits_trim[i as int] == c);
            assert(digits_trim.take(i + 1).drop_last() =~= digits_trim.take(i as int));
            assert(digits_trim.take(i + 1).last() == digits_trim[i as int]);
            lemma_digits_val_nonneg(digits_trim.take(i as int));
        }
        let d = (c as u32) - 48;
        if over {
        } else {
            let next = acc * 10 + (d as u128);
            if next > i64::MAX as u128 {
                over = true;
            } else {
                acc = next;
            }
        }
        i += 1;
    }
    proof {
        assert(digits_trim.take((last - 1) as int) =~= digits_trim);
        assert(digits_all.len() == v@.len() - 1);
        assert(digits_trim.len() == last - 1);
        assert(forall|j: int| 0 <= j < digits_trim.len() ==> digits_all[j] == digits_trim[j]);
        assert(forall|j: int|
            digits_trim.len() <= j < digits_all.len() ==> (digits_all[j] as u32) == 48);
        lemma_canon_strip_zeros(digits_all, digits_trim, scale as nat);
        lemma_digits_val_nonneg(digits_trim);
    }
    if over || scale > 18 {
        proof {
            if !over {
                lemma_scale_too_big(digits_trim, scale as nat);
            } else {
                lemma_units_too_big(digits_trim, scale as nat);
            }
        }
        Decimal { units: 0, scale: 0 }
    } else {
        match dec_norm(acc as i128, scale as u32) {
            Some(d) => d,
            None => Decimal { units: 0, scale: 0 },
        }
    }
}

/// A trimmed fraction longer than the scale bound cannot be packed.
proof fn lemma_scale_too_big(s: Seq<char>, sc: nat)
    requires
        sc > 18,
        s.len() > 0 && (s.last() as u32) != 48,
        forall|j: int| 0 <= j < s.len() ==> spec_is_digit_char(s[j]),
    ensures
        spec_dec_make(digits_val(s), sc) is None,
{
    lemma_digits_val_nonneg(s);
    lemma_canon_identity(s, sc);
}

/// A trimmed mantissa beyond the 64-bit range cannot be packed.
proof fn lemma_units_too_big(s: Seq<char>, sc: nat)
    requires
        digits_val(s) > i64::MAX,
        sc == 0 || (s.len() > 0 && (s.last() as u32) != 48),
        forall|j: int| 0 <= j < s.len() ==> spec_is_digit_char(s[j]),
    ensures
        spec_dec_make(digits_val(s), sc) is None,
{
    lemma_digits_val_nonneg(s);
    lemma_canon_identity(s, sc);
}

/// When the scale is zero, or the last digit is not zero, canonicalization
/// keeps the mantissa (except on the zero value).
proof fn lemma_canon_identity(s: Seq<char>, sc: nat)
    requires
        sc == 0 || (s.len() > 0 && (s.last() as u32) != 48),
        forall|j: int| 0 <= j < s.len() ==> spec_is_digit_char(s[j]),
    ensures
        dec_canon(digits_val(s), sc).0 == digits_val(s),
        dec_canon(digits_val(s), sc).1 == sc,
{
    lemma_digits_val_nonneg(s);
    if sc == 0 {
    } else {
        assert(forall|j: int| 0 <= j < s.drop_last().len() ==> spec_is_digit_char(
            #[trigger] s.drop_last()[j],
        )) by {
            assert(forall|j: int|
                0 <= j < s.drop_last().len() ==> s.drop_last()[j] == s[j]);
        }
        lemma_digits_val_nonneg(s.drop_last());
        let u = digits_val(s);
        assert(spec_is_digit_char(s[s.len() - 1]));
        let lo = s.last() as u32;
        assert(48 <= lo <= 57);
        assert(u == 10 * digits_val(s.drop_last()) + (lo - 48));
        assert(lo != 48);
        assert(u % 10 == lo - 48) by (nonlinear_arith)
            requires
                u == 10 * digits_val(s.drop_last()) + (lo - 48),
                0 <= lo - 48 < 10,
                digits_val(s.drop_last()) >= 0,
        ;
        assert(dec_canon(u, sc) == (u, sc));
    }
}

proof fn lemma_find_dot_step(s: Seq<char>, i: int)
    requires
        0 <= i <= s.len(),
        forall|j: int| 0 <= j < i ==> !spec_is_dot_char(s[j]),
    ensures
        spec_find_dot(s) >= i,
    decreases s.len(),
{
    if s.len() == 0 {
    } else if spec_is_dot_char(s[0]) {
        assert(i == 0) by {
            if i > 0 {
                assert(!spec_is_dot_char(s[0]));
            }
        }
    } else {
        let i2 = if i >= 1 {
            i - 1
        } else {
            0
        };
        assert(forall|j: int| 0 <= j < i2 ==> !spec_is_dot_char(s.drop_first()[j])) by {
            assert(forall|j: int| 0 <= j < i2 ==> s.drop_first()[j] == s[j + 1]);
        }
        lemma_find_dot_step(s.drop_first(), i2);
        assert(spec_find_dot(s) == 1 + spec_find_dot(s.drop_first()));
    }
}

/// The first dot sits at `i` when everything before `i` is no dot and `i`
/// holds one.
pub proof fn lemma_find_dot_found(s: Seq<char>, i: int)
    requires
        0 <= i < s.len(),
        forall|j: int| 0 <= j < i ==> !spec_is_dot_char(s[j]),
        spec_is_dot_char(s[i]),
    ensures
        spec_find_dot(s) == i,
    decreases i,
{
    if i > 0 {
        assert(!spec_is_dot_char(s[0]));
        assert(forall|j: int| 0 <= j < i - 1 ==> !spec_is_dot_char(s.drop_first()[j])) by {
            assert(forall|j: int| 0 <= j < i - 1 ==> s.drop_first()[j] == s[j + 1]);
        }
        assert(s.drop_first()[i - 1] == s[i as int]);
        lemma_find_dot_found(s.drop_first(), i - 1);
    }
}

/// A literal value: a fully reduced result of evaluation.
#[derive(Debug, PartialEq, Clone)]
pub enum Lit {
    /// A signed 32-bit integer.
    Number(i32),
    /// A boolean.
    Bool(bool),
    /// An exact decimal number.
    Decimal(Decimal),
    /// An owned text string.
    Str(String),
    /// The absent value.
    Nil,
}

/// The mathematical shape of a [`Lit`], with strings as character sequences.
pub enum LitV {
    Number(i32),
    Bool(bool),
    Decimal(Decimal),
    Str(Seq<char>),
    Nil,
}

impl View for Lit {
    type V = LitV;

    open spec fn view(&self) -> LitV {
        match self {
            Lit::Number(n) => LitV::Number(*n),
            Lit::Bool(b) => LitV::Bool(*b),
            Lit::Decimal(d) => LitV::Decimal(*d),
            Lit::Str(s) => LitV::Str(s@),
            Lit::Nil => LitV::Nil,
        }
    }
}

impl LitV {
    /// Every decimal payload is canonical and within bounds.
    pub open spec fn wf(self) -> bool {
        match self {
            LitV::Decimal(d) => d.wf(),
            _ => true,
        }
    }
}

impl Lit {
    /// Every decimal payload is canonical and within bounds.
    pub open spec fn wf(&self) -> bool {
        self@.wf()
    }

    /// An exact copy.
    pub fn duplicate(&self) -> (r: Lit)
        ensures
            r == *self,
    {
        match self {
            Lit::Number(n) => Lit::Number(*n),
            Lit::Bool(b) => Lit::Bool(*b),
            Lit::Decimal(d) => Lit::Decimal(*d),
            Lit::Str(s) => Lit::Str(s.clone()),
            Lit::Nil => Lit::Nil,
        }
    }

    /// Structural equality of literal values. Literals of different kinds
    /// are unequal; in particular an integer never equals a decimal.
    pub fn lit_eq(&self, other: &Lit) -> (r: bool)
        ensures
            r == (self@ == other@),
    {
        match (self, other) {
            (Lit::Number(a), Lit::Number(b)) => a == b,
            (Lit::Bool(a), Lit::Bool(b)) => a == b,
            (Lit::Decimal(a), Lit::Decimal(b)) => a.units == b.units && a.scale == b.scale,
            (Lit::Str(a), Lit::Str(b)) => crate::helpers::str_eqs(a.as_str(), b.as_str()),
            (Lit::Nil, Lit::Nil) => true,
            _ => false,
        }
    }
}


/// A binary-operator type error.
pub open spec fn spec_invalid_bin(op: Op, a: LitV, b: LitV) -> YamlErrorV {
    YamlErrorV::EvalError(EvalErrorV::InvalidBinOp(op, a, b))
}

/// A division-by-zero error.
pub open spec fn spec_div_zero(op: Op, a: LitV, b: LitV) -> YamlErrorV {
    YamlErrorV::EvalError(EvalErrorV::DivisionByZero(op, a, b))
}

/// An out-of-representation error.
pub open spec fn spec_overflow(op: Op, a: LitV, b: LitV) -> YamlErrorV {
    YamlErrorV::EvalError(EvalErrorV::Overflow(op, a, b))
}

/// The view of an operation result, component by component.
pub open spec fn lit_result_view(r: Result<Lit, YamlError>) -> Result<LitV, YamlErrorV> {
    match r {
        Ok(l) => Ok(l@),
        Err(e) => Err(e@),
    }
}

/// `a + b`: 32-bit wrapping addition on two numbers, exact decimal addition
/// when either side is a decimal, concatenation on two strings; any other
/// pair of operands is a type error.
pub open spec fn spec_lit_add(a: LitV, b: LitV) -> Result<LitV, YamlErrorV> {
    match (a, b) {
        (LitV::Number(n1), LitV::Number(n2)) => Ok(
            LitV::Number(vstd::wrapping::i32_specs::wrapping_add(n1, n2)),
        ),
        (LitV::Number(n), LitV::Decimal(d)) => match spec_dec_add(spec_dec_from_int(n as int), d) {
            Some(x) => Ok(LitV::Decimal(x)),
            None => Err(spec_overflow(Op::Plus, a, b)),
        },
        (LitV::Decimal(d), LitV::Number(n)) => match spec_dec_add(d, spec_dec_from_int(n as int)) {
            Some(x) => Ok(LitV::Decimal(x)),
            None => Err(spec_overflow(Op::Plus, a, b)),
        },
        (LitV::Str(s1), LitV::Str(s2)) => Ok(LitV::Str(s1 + s2)),
        _ => Err(spec_invalid_bin(Op::Plus, a, b)),
    }
}

/// `a - b`: wrapping on numbers, exact on decimal mixes; a type error
/// otherwise.
pub open spec fn spec_lit_sub(a: LitV, b: LitV) -> Result<LitV, YamlErrorV> {
    match (a, b) {
        (LitV::Number(n1), LitV::Number(n2)) => Ok(
            LitV::Number(vstd::wrapping::i32_specs::wrapping_sub(n1, n2)),
        ),
        (LitV::Number(n), LitV::Decimal(d)) => match spec_dec_sub(spec_dec_from_int(n as int), d) {
            Some(x) => Ok(LitV::Decimal(x)),
            None => Err(spec_overflow(Op::Minus, a, b)),
        },
        (LitV::Decimal(d), LitV::Number(n)) => match spec_dec_sub(d, spec_dec_from_int(n as int)) {
            Some(x) => Ok(LitV::Decimal(x)),
            None => Err(spec_overflow(Op::Minus, a, b)),
        },
        _ => Err(spec_invalid_bin(Op::Minus, a, b)),
    }
}

/// `a * b`: wrapping on numbers, exact on decimal mixes; a type error
/// otherwise.
pub open spec fn spec_lit_mul(a: LitV, b: LitV) -> Result<LitV, YamlErrorV> {
    match (a, b) {
        (LitV::Number(n1), LitV::Number(n2)) => Ok(
            LitV::Number(vstd::wrapping::i32_specs::wrapping_mul(n1, n2)),
        ),
        (LitV::Number(n), LitV::Decimal(d)) => match spec_dec_mul(spec_dec_from_int(n as int), d) {
            Some(x) => Ok(LitV::Decimal(x)),
            None => Err(spec_overflow(Op::Times, a, b)),
        },
        (LitV::Decimal(d), LitV::Number(n)) => match spec_dec_mul(d, spec_dec_from_int(n as int)) {
            Some(x) => Ok(LitV::Decimal(x)),
            None => Err(spec_overflow(Op::Times, a, b)),
        },
        _ => Err(spec_invalid_bin(Op::Times, a, b)),
    }
}

/// `a / b`: truncating division on numbers, the exact quotient on decimal
/// mixes; zero divisors raise a dedicated error, and a quotient that leaves
/// the representation reports overflow.
pub open spec fn spec_lit_div(a: LitV, b: LitV) -> Result<LitV, YamlErrorV> {
    match (a, b) {
        (LitV::Number(n1), LitV::Number(n2)) => if n2 == 0 {
            Err(spec_div_zero(Op::Divide, a, b))
        } else {
            match n1.checked_div(n2) {
                Some(q) => Ok(LitV::Number(q)),
                None => Err(spec_overflow(Op::Divide, a, b)),
            }
        },
        (LitV::Number(n), LitV::Decimal(d)) => if d.units == 0 {
            Err(spec_div_zero(Op::Divide, a, b))
        } else {
            match spec_dec_div(spec_dec_from_int(n as int), d) {
                Some(x) => Ok(LitV::Decimal(x)),
                None => Err(spec_overflow(Op::Divide, a, b)),
            }
        },
        (LitV::Decimal(d), LitV::Number(n)) => if n == 0 {
            Err(spec_div_zero(Op::Divide, a, b))
        } else {
            match spec_dec_div(d, spec_dec_from_int(n as int)) {
                Some(x) => Ok(LitV::Decimal(x)),
                None => Err(spec_overflow(Op::Divide, a, b)),
            }
        },
        _ => Err(spec_invalid_bin(Op::Divide, a, b)),
    }
}

/// `a % b`: the truncating remainder (its sign follows the dividend), exact
/// on decimal mixes; zero divisors raise a dedicated error.
pub open spec fn spec_lit_rem(a: LitV, b: LitV) -> Result<LitV, YamlErrorV> {
    match (a, b) {
        (LitV::Number(n1), LitV::Number(n2)) => if n2 == 0 {
            Err(spec_div_zero(Op::Modulo, a, b))
        } else {
            match n1.checked_rem(n2) {
                Some(q) => Ok(LitV::Number(q)),
                None => Err(spec_overflow(Op::Modulo, a, b)),
            }
        },
        (LitV::Number(n), LitV::Decimal(d)) => if d.units == 0 {
            Err(spec_div_zero(Op::Modulo, a, b))
        } else {
            match spec_dec_rem(spec_dec_from_int(n as int), d) {
                Some(x) => Ok(LitV::Decimal(x)),
                None => Err(spec_overflow(Op::Modulo, a, b)),
            }
        },
        (LitV::Decimal(d), LitV::Number(n)) => if n == 0 {
            Err(spec_div_zero(Op::Modulo, a, b))
        } else {
            match spec_dec_rem(d, spec_dec_from_int(n as int)) {
                Some(x) => Ok(LitV::Decimal(x)),
                None => Err(spec_overflow(Op::Modulo, a, b)),
            }
        },
        _ => Err(spec_invalid_bin(Op::Modulo, a, b)),
    }
}

/// `a ^ b`: the exact integer power on numbers; with a decimal on either
/// side, the exact power for an integral exponent. A result, or an
/// exponent, that the exact representation cannot hold reports overflow.
pub open spec fn spec_lit_exp(a: LitV, b: LitV) -> Result<LitV, YamlErrorV> {
    match (a, b) {
        (LitV::Number(n1), LitV::Number(n2)) => match spec_i32_pow(n1, n2) {
            Some(v) => Ok(LitV::Number(v)),
            None => Err(spec_overflow(Op::Exponent, a, b)),
        },
        (LitV::Number(n), LitV::Decimal(d)) => if d.scale == 0 && i32::MIN <= d.units
            <= i32::MAX {
            match spec_dec_pow(spec_dec_from_int(n as int), d.units as i32) {
                Some(x) => Ok(LitV::Decimal(x)),
                None => Err(spec_overflow(Op::Exponent, a, b)),
            }
        } else {
            Err(spec_overflow(Op::Exponent, a, b))
        },
        (LitV::Decimal(d), LitV::Number(n)) => match spec_dec_pow(d, n) {
            Some(x) => Ok(LitV::Decimal(x)),
            None => Err(spec_overflow(Op::Exponent, a, b)),
        },
        _ => Err(spec_invalid_bin(Op::Exponent, a, b)),
    }
}

/// `a && b`: defined on two booleans only.
pub open spec fn spec_lit_and(a: LitV, b: LitV) -> Result<LitV, YamlErrorV> {
    match (a, b) {
        (LitV::Bool(b1), LitV::Bool(b2)) => Ok(LitV::Bool(b1 && b2)),
        _ => Err(spec_invalid_bin(Op::And, a, b)),
    }
}

/// `a || b`: defined on two booleans only.
pub open spec fn spec_lit_or(a: LitV, b: LitV) -> Result<LitV, YamlErrorV> {
    match (a, b) {
        (LitV::Bool(b1), LitV::Bool(b2)) => Ok(LitV::Bool(b1 || b2)),
        _ => Err(spec_invalid_bin(Op::Or, a, b)),
    }
}

/// `!a`: defined on a boolean only.
pub open spec fn spec_lit_not(a: LitV) -> Result<LitV, YamlErrorV> {
    match a {
        LitV::Bool(b) => Ok(LitV::Bool(!b)),
        _ => Err(YamlErrorV::EvalError(EvalErrorV::InvalidUnOp(Op::Not, a))),
    }
}

impl Lit {
    /// Addition; see [`spec_lit_add`].
    pub fn add(self, other: Lit) -> (r: Result<Lit, YamlError>)
        requires
            self.wf(),
            other.wf(),
        ensures
            lit_result_view(r) == spec_lit_add(self@, other@),
            r matches Ok(l) ==> l.wf(),
    {
        match (self, other) {
            (Lit::Number(n1), Lit::Number(n2)) => Ok(Lit::Number(n1.wrapping_add(n2))),
            (Lit::Number(n), Lit::Decimal(d)) => match dec_add(Decimal::from_i32(n), d) {
                Some(x) => Ok(Lit::Decimal(x)),
                None => Err(
                    YamlError::EvalError(
                        EvalError::Overflow(Op::Plus, Lit::Number(n), Lit::Decimal(d)),
                    ),
                ),
            },
            (Lit::Decimal(d), Lit::Number(n)) => match dec_add(d, Decimal::from_i32(n)) {
                Some(x) => Ok(Lit::Decimal(x)),
                None => Err(
                    YamlError::EvalError(
                        EvalError::Overflow(Op::Plus, Lit::Decimal(d), Lit::Number(n)),
                    ),
                ),
            },
            (Lit::Str(s1), Lit::Str(s2)) => Ok(Lit::Str(s1.concat(s2.as_str()))),
            (a, b) => Err(YamlError::EvalError(EvalError::InvalidBinOp(Op::Plus, a, b))),
        }
    }

    /// Subtraction; see [`spec_lit_sub`].
    pub fn sub(self, other: Lit) -> (r: Result<Lit, YamlError>)
        requires
            self.wf(),
            other.wf(),
        ensures
            lit_result_view(r) == spec_lit_sub(self@, other@),
            r matches Ok(l) ==> l.wf(),
    {
        match (self, other) {
            (Lit::Number(n1), Lit::Number(n2)) => Ok(Lit::Number(n1.wrapping_sub(n2))),
            (Lit::Number(n), Lit::Decimal(d)) => match dec_sub(Decimal::from_i32(n), d) {
                Some(x) => Ok(Lit::Decimal(x)),
                None => Err(
                    YamlError::EvalError(
                        EvalError::Overflow(Op::Minus, Lit::Number(n), Lit::Decimal(d)),
                    ),
                ),
            },
            (Lit::Decimal(d), Lit::Number(n)) => match dec_sub(d, Decimal::from_i32(n)) {
                Some(x) => Ok(Lit::Decimal(x)),
                None => Err(
                    YamlError::EvalError(
                        EvalError::Overflow(Op::Minus, Lit::Decimal(d), Lit::Number(n)),
                    ),
                ),
            },
            (a, b) => Err(YamlError::EvalError(EvalError::InvalidBinOp(Op::Minus, a, b))),
        }
    }

    /// Multiplication; see [`spec_lit_mul`].
    pub fn mul(self, other: Lit) -> (r: Result<Lit, YamlError>)
        requires
            self.wf(),
            other.wf(),
        ensures
            lit_result_view(r) == spec_lit_mul(self@, other@),
            r matches Ok(l) ==> l.wf(),
    {
        match (self, other) {
            (Lit::Number(n1), Lit::Number(n2)) => Ok(Lit::Number(n1.wrapping_mul(n2))),
            (Lit::Number(n), Lit::Decimal(d)) => match dec_mul(Decimal::from_i32(n), d) {
                Some(x) => Ok(Lit::Decimal(x)),
                None => Err(
                    YamlError::EvalError(
                        EvalError::Overflow(Op::Times, Lit::Number(n), Lit::Decimal(d)),
                    ),
                ),
            },
            (Lit::Decimal(d), Lit::Number(n)) => match dec_mul(d, Decimal::from_i32(n)) {
                Some(x) => Ok(Lit::Decimal(x)),
                None => Err(
                    YamlError::EvalError(
                        EvalError::Overflow(Op::Times, Lit::Decimal(d), Lit::Number(n)),
                    ),
                ),
            },
            (a, b) => Err(YamlError::EvalError(EvalError::InvalidBinOp(Op::Times, a, b))),
        }
    }

    /// Division; see [`spec_lit_div`].
    pub fn div(self, other: Lit) -> (r: Result<Lit, YamlError>)
        requires
            self.wf(),
            other.wf(),
        ensures
            lit_result_view(r) == spec_lit_div(self@, other@),
            r matches Ok(l) ==> l.wf(),
    {
        match (self, other) {
            (Lit::Number(n1), Lit::Number(n2)) => if n2 == 0 {
                Err(
                    YamlError::EvalError(
                        EvalError::DivisionByZero(Op::Divide, Lit::Number(n1), Lit::Number(n2)),
                    ),
                )
            } else {
                match n1.checked_div(n2) {
                    Some(q) => Ok(Lit::Number(q)),
                    None => Err(
                        YamlError::EvalError(
                            EvalError::Overflow(Op::Divide, Lit::Number(n1), Lit::Number(n2)),
                        ),
                    ),
                }
            },
            (Lit::Number(n), Lit::Decimal(d)) => if d.units == 0 {
                Err(
                    YamlError::EvalError(
                        EvalError::DivisionByZero(Op::Divide, Lit::Number(n), Lit::Decimal(d)),
                    ),
                )
            } else {
                match dec_div(Decimal::from_i32(n), d) {
                    Some(x) => Ok(Lit::Decimal(x)),
                    None => Err(
                        YamlError::EvalError(
                            EvalError::Overflow(Op::Divide, Lit::Number(n), Lit::Decimal(d)),
                        ),
                    ),
                }
            },
            (Lit::Decimal(d), Lit::Number(n)) => if n == 0 {
                Err(
                    YamlError::EvalError(
                        EvalError::DivisionByZero(Op::Divide, Lit::Decimal(d), Lit::Number(n)),
                    ),
                )
            } else {
                match dec_div(d, Decimal::from_i32(n)) {
                    Some(x) => Ok(Lit::Decimal(x)),
                    None => Err(
                        YamlError::EvalError(
                            EvalError::Overflow(Op::Divide, Lit::Decimal(d), Lit::Number(n)),
                        ),
                    ),
                }
            },
            (a, b) => Err(YamlError::EvalError(EvalError::InvalidBinOp(Op::Divide, a, b))),
        }
    }

    /// Remainder; see [`spec_lit_rem`].
    pub fn rem(self, other: Lit) -> (r: Result<Lit, YamlError>)
        requires
            self.wf(),
            other.wf(),
        ensures
            lit_result_view(r) == spec_lit_rem(self@, other@),
            r matches Ok(l) ==> l.wf(),
    {
        match (self, other) {
            (Lit::Number(n1), Lit::Number(n2)) => if n2 == 0 {
                Err(
                    YamlError::EvalError(
                        EvalError::DivisionByZero(Op::Modulo, Lit::Number(n1), Lit::Number(n2)),
                    ),
                )
            } else {
                match n1.checked_rem(n2) {
                    Some(q) => Ok(Lit::Number(q)),
                    None => Err(
                        YamlError::EvalError(
                            EvalError::Overflow(Op::Modulo, Lit::Number(n1), Lit::Number(n2)),
                        ),
                    ),
                }
            },
            (Lit::Number(n), Lit::Decimal(d)) => if d.units == 0 {
                Err(
                    YamlError::EvalError(
                        EvalError::DivisionByZero(Op::Modulo, Lit::Number(n), Lit::Decimal(d)),
                    ),
                )
            } else {
                match dec_rem(Decimal::from_i32(n), d) {
                    Some(x) => Ok(Lit::Decimal(x)),
                    None => Err(
                        YamlError::EvalError(
                            EvalError::Overflow(Op::Modulo, Lit::Number(n), Lit::Decimal(d)),
                        ),
                    ),
                }
            },
            (Lit::Decimal(d), Lit::Number(n)) => if n == 0 {
                Err(
                    YamlError::EvalError(
                        EvalError::DivisionByZero(Op::Modulo, Lit::Decimal(d), Lit::Number(n)),
                    ),
                )
            } else {
                match dec_rem(d, Decimal::from_i32(n)) {
                    Some(x) => Ok(Lit::Decimal(x)),
                    None => Err(
                        YamlError::EvalError(
                            EvalError::Overflow(Op::Modulo, Lit::Decimal(d), Lit::Number(n)),
                        ),
                    ),
                }
            },
            (a, b) => Err(YamlError::EvalError(EvalError::InvalidBinOp(Op::Modulo, a, b))),
        }
    }

    /// Exponentiation; see [`spec_lit_exp`].
    pub fn exp(self, other: Lit) -> (r: Result<Lit, YamlError>)
        requires
            self.wf(),
            other.wf(),
        ensures
            lit_result_view(r) == spec_lit_exp(self@, other@),
            r matches Ok(l) ==> l.wf(),
    {
        match (self, other) {
            (Lit::Number(n1), Lit::Number(n2)) => match i32_pow(n1, n2) {
                Some(v) => Ok(Lit::Number(v)),
                None => Err(
                    YamlError::EvalError(
                        EvalError::Overflow(Op::Exponent, Lit::Number(n1), Lit::Number(n2)),
                    ),
                ),
            },
            (Lit::Number(n), Lit::Decimal(d)) => if d.scale == 0 && d.units >= i32::MIN as i64
                && d.units <= i32::MAX as i64 {
                match dec_pow(Decimal::from_i32(n), d.units as i32) {
                    Some(x) => Ok(Lit::Decimal(x)),
                    None => Err(
                        YamlError::EvalError(
                            EvalError::Overflow(Op::Exponent, Lit::Number(n), Lit::Decimal(d)),
                        ),
                    ),
                }
            } else {
                Err(
                    YamlError::EvalError(
                        EvalError::Overflow(Op::Exponent, Lit::Number(n), Lit::Decimal(d)),
                    ),
                )
            },
            (Lit::Decimal(d), Lit::Number(n)) => match dec_pow(d, n) {
                Some(x) => Ok(Lit::Decimal(x)),
                None => Err(
                    YamlError::EvalError(
                        EvalError::Overflow(Op::Exponent, Lit::Decimal(d), Lit::Number(n)),
                    ),
                ),
            },
            (a, b) => Err(YamlError::EvalError(EvalError::InvalidBinOp(Op::Exponent, a, b))),
        }
    }

    /// Boolean conjunction; see [`spec_lit_and`]. Both operands have
    /// already been evaluated: there is no short-circuit at this layer.
    pub fn and(self, other: Lit) -> (r: Result<Lit, YamlError>)
        ensures
            lit_result_view(r) == spec_lit_and(self@, other@),
            r matches Ok(l) ==> l.wf(),
    {
        match (self, other) {
            (Lit::Bool(b1), Lit::Bool(b2)) => Ok(Lit::Bool(b1 && b2)),
            (a, b) => Err(YamlError::EvalError(EvalError::InvalidBinOp(Op::And, a, b))),
        }
    }

    /// Boolean disjunction; see [`spec_lit_or`].
    pub fn or(self, other: Lit) -> (r: Result<Lit, YamlError>)
        ensures
            lit_result_view(r) == spec_lit_or(self@, other@),
            r matches Ok(l) ==> l.wf(),
    {
        match (self, other) {
            (Lit::Bool(b1), Lit::Bool(b2)) => Ok(Lit::Bool(b1 || b2)),
            (a, b) => Err(YamlError::EvalError(EvalError::InvalidBinOp(Op::Or, a, b))),
        }
    }

    /// Boolean negation; see [`spec_lit_not`].
    pub fn not(self) -> (r: Result<Lit, YamlError>)
        ensures
            lit_result_view(r) == spec_lit_not(self@),
            r matches Ok(l) ==> l.wf(),
    {
        match self {
            Lit::Bool(b) => Ok(Lit::Bool(!b)),
            a => Err(YamlError::EvalError(EvalError::InvalidUnOp(Op::Not, a))),
        }
    }
}


/// The digit character for `d` (a value below ten).
pub open spec fn spec_digit_char(d: int) -> char {
    if d == 0 {
        '0'
    } else if d == 1 {
        '1'
    } else if d == 2 {
        '2'
    } else if d == 3 {
        '3'
    } else if d == 4 {
        '4'
    } else if d == 5 {
        '5'
    } else if d == 6 {
        '6'
    } else if d == 7 {
        '7'
    } else if d == 8 {
        '8'
    } else {
        '9'
    }
}

/// The decimal digits of a non-negative number, most significant first.
pub open spec fn spec_nat_digits(n: int) -> Seq<char>
    recommends
        n >= 0,
    decreases n,
{
    if n < 10 {
        seq![spec_digit_char(n)]
    } else {
        spec_nat_digits(n / 10).push(spec_digit_char(n % 10))
    }
}

/// Exactly `k` digits of `n`'s low end, zero-padded at the front.
pub open spec fn spec_frac_digits(n: int, k: nat) -> Seq<char>
    decreases k,
{
    if k == 0 {
        Seq::empty()
    } else {
        spec_frac_digits(n / 10, (k - 1) as nat).push(spec_digit_char(n % 10))
    }
}

/// How a decimal renders to text: the integer digits, and for a nonzero
/// scale a dot and exactly `scale` fraction digits, with a leading minus
/// for negative values.
pub open spec fn spec_dec_to_text(d: Decimal) -> Seq<char> {
    let m = if d.units >= 0 {
        d.units as int
    } else {
        -(d.units as int)
    };
    let sign: Seq<char> = if d.units < 0 {
        seq!['-']
    } else {
        Seq::empty()
    };
    if d.scale == 0 {
        sign + spec_nat_digits(m)
    } else {
        sign + spec_nat_digits(m / pow10(d.scale as nat)) + seq!['.'] + spec_frac_digits(
            m % pow10(d.scale as nat),
            d.scale as nat,
        )
    }
}

/// The digit character for `d`, executably.
fn digit_char(d: u128) -> (r: char)
    requires
        d < 10,
    ensures
        r == spec_digit_char(d as int),
{
    if d == 0 {
        '0'
    } else if d == 1 {
        '1'
    } else if d == 2 {
        '2'
    } else if d == 3 {
        '3'
    } else if d == 4 {
        '4'
    } else if d == 5 {
        '5'
    } else if d == 6 {
        '6'
    } else if d == 7 {
        '7'
    } else if d == 8 {
        '8'
    } else {
        '9'
    }
}

/// The digits of `n`, most significant first.
fn nat_digits(n: u128) -> (r: Vec<char>)
    ensures
        r@ == spec_nat_digits(n as int),
    decreases n,
{
    if n < 10 {
        let mut v: Vec<char> = Vec::new();
        v.push(digit_char(n));
        proof {
            assert(v@ =~= seq![spec_digit_char(n as int)]);
        }
        v
    } else {
        let mut v = nat_digits(n / 10);
        v.push(digit_char(n % 10));
        v
    }
}

/// Exactly `k` low digits of `n`, zero-padded.
fn frac_digits(n: u128, k: u32) -> (r: Vec<char>)
    ensures
        r@ == spec_frac_digits(n as int, k as nat),
    decreases k,
{
    if k == 0 {
        let v: Vec<char> = Vec::new();
        proof {
            assert(v@ =~= Seq::<char>::empty());
        }
        v
    } else {
        let mut v = frac_digits(n / 10, k - 1);
        v.push(digit_char(n % 10));
        v
    }
}

impl Decimal {
    /// Renders the decimal as text, as [`spec_dec_to_text`] lays it out.
    pub fn to_text(&self) -> (r: String)
        requires
            self.wf(),
        ensures
            r@ == spec_dec_to_text(*self),
    {
        let m: u128 = if self.units >= 0 {
            self.units as u128
        } else {
            ((-(self.units as i128)) as u128)
        };
        let mut chars: Vec<char> = Vec::new();
        if self.units < 0 {
            chars.push('-');
        }
        if self.scale == 0 {
            let mut ds = nat_digits(m);
            chars.append(&mut ds);
            proof {
                if self.units < 0 {
                    assert(chars@ =~= seq!['-'] + spec_nat_digits(m as int));
                } else {
                    assert(chars@ =~= Seq::<char>::empty() + spec_nat_digits(m as int));
                }
            }
        } else {
            proof {
                lemma_pow10_le_18(self.scale as nat);
            }
            let p = pow10_i128(self.scale) as u128;
            let mut ip = nat_digits(m / p);
            let mut fp = frac_digits(m % p, self.scale);
            chars.append(&mut ip);
            chars.push('.');
            chars.append(&mut fp);
            proof {
                let sign: Seq<char> = if self.units < 0 {
                    seq!['-']
                } else {
                    Seq::<char>::empty()
                };
                assert(chars@ =~= sign + spec_nat_digits(m as int / pow10(self.scale as nat))
                    + seq!['.'] + spec_frac_digits(
                    m as int % pow10(self.scale as nat),
                    self.scale as nat,
                ));
            }
        }
        crate::helpers::chars_to_string(&chars)
    }
}

} // verus!
