//! Scaling an image edge exactly as IEEE 754 double precision does it, in integers: the
//! factor `m / l` is rounded to 53 significant bits (round to nearest, ties to even),
//! its product with the edge is rounded to 53 significant bits again, and the result is
//! rounded to the nearest integer, halves away from zero, then saturated into a `u32`.
use vstd::prelude::*;
use vstd::arithmetic::power2::{lemma2_to64, lemma2_to64_rest, lemma_pow2_pos, lemma_pow2_strictly_increases, lemma_pow2_unfold, pow2};

verus! {

/// `n / d` rounded to the nearest integer, ties to even.
pub open spec fn div_ne(n: nat, d: nat) -> nat {
    let q = n / d;
    let r = n % d;
    if 2 * r > d || (2 * r == d && q % 2 == 1) {
        q + 1
    } else {
        q
    }
}

/// `m · 2^k / l` lies in `[2^52, 2^53)`: `k` puts the quotient's 53 significant bits
/// in front of the binary point.
pub open spec fn quotient_exp_ok(m: nat, l: nat, k: nat) -> bool {
    pow2(52) * l <= m * pow2(k) && m * pow2(k) < pow2(53) * l
}

/// The double-precision quotient `m / l` as `(mantissa, k)`, worth `mantissa / 2^k`.
pub open spec fn quotient(m: nat, l: nat) -> (nat, nat) {
    if m == 0 {
        (0, 0)
    } else {
        let k = choose|k: nat| quotient_exp_ok(m, l, k);
        (div_ne(m * pow2(k), l), k)
    }
}

/// `p / 2^t` lies below `2^53`, and (unless `t` is 0) at or above `2^52`.
pub open spec fn shift_ok(p: nat, t: nat) -> bool {
    p < pow2(53 + t) && (t == 0 || pow2(52 + t) <= p)
}

/// `p` rounded to 53 significant bits, ties to even.
pub open spec fn round53(p: nat) -> nat {
    let t = choose|t: nat| shift_ok(p, t);
    div_ne(p, pow2(t)) * pow2(t)
}

/// The edge `x` times the double-precision factor `q`, rounded to 53 significant bits,
/// then to the nearest integer, halves away from zero.
pub open spec fn scaled_product(x: nat, q: (nat, nat)) -> nat {
    (round53(x * q.0) + pow2(q.1) / 2) / pow2(q.1)
}

/// The scaled edge saturated into a `u32`, and at least 1.
pub open spec fn scaled_edge(x: nat, q: (nat, nat)) -> nat {
    let v = scaled_product(x, q);
    let s = if v > u32::MAX { u32::MAX as nat } else { v };
    if s >= 1 {
        s
    } else {
        1
    }
}

proof fn lemma_pow2_ge_double(a: nat, b: nat)
    requires
        a < b,
    ensures
        pow2(b) >= 2 * pow2(a),
    decreases b,
{
    lemma_pow2_unfold(b);
    if a + 1 < b {
        lemma_pow2_ge_double(a, (b - 1) as nat);
    }
}

proof fn lemma_pow2_le(a: nat, b: nat)
    requires
        a <= b,
    ensures
        pow2(a) <= pow2(b),
{
    if a < b {
        lemma_pow2_strictly_increases(a, b);
    }
}

proof fn lemma_quotient_exp_unique(m: nat, l: nat, k1: nat, k2: nat)
    requires
        m > 0,
        quotient_exp_ok(m, l, k1),
        quotient_exp_ok(m, l, k2),
    ensures
        k1 == k2,
{
    lemma2_to64_rest();
    if k1 < k2 {
        lemma_pow2_ge_double(k1, k2);
        assert(m * pow2(k2) >= 2 * (m * pow2(k1))) by (nonlinear_arith)
            requires pow2(k2) >= 2 * pow2(k1), m > 0;
    } else if k2 < k1 {
        lemma_pow2_ge_double(k2, k1);
        assert(m * pow2(k1) >= 2 * (m * pow2(k2))) by (nonlinear_arith)
            requires pow2(k1) >= 2 * pow2(k2), m > 0;
    }
}

proof fn lemma_shift_unique(p: nat, t1: nat, t2: nat)
    requires
        shift_ok(p, t1),
        shift_ok(p, t2),
    ensures
        t1 == t2,
{
    if t1 < t2 {
        lemma_pow2_le(53 + t1, 52 + t2);
    } else if t2 < t1 {
        lemma_pow2_le(53 + t2, 52 + t1);
    }
}

proof fn exp_from(m: nat, l: nat, k: nat) -> (c: nat)
    requires
        1 <= m,
        m * pow2(k) < pow2(53) * l,
    ensures
        quotient_exp_ok(m, l, c),
    decreases (if m * pow2(k) < pow2(52) * l { (pow2(52) * l - m * pow2(k)) as nat } else { 0nat }),
{
    if m * pow2(k) >= pow2(52) * l {
        k
    } else {
        lemma_pow2_unfold(k + 1);
        lemma_pow2_unfold(53);
        lemma_pow2_pos(k);
        assert(m * pow2(k + 1) == 2 * (m * pow2(k))) by (nonlinear_arith)
            requires pow2(k + 1) == 2 * pow2(k);
        assert(pow2(53) * l == 2 * (pow2(52) * l)) by (nonlinear_arith)
            requires pow2(53) == 2 * pow2(52);
        assert(m * pow2(k) > 0) by (nonlinear_arith) requires m >= 1, pow2(k) > 0;
        exp_from(m, l, k + 1)
    }
}

proof fn shift_from(p: nat, t: nat) -> (c: nat)
    requires
        t == 0 || pow2(52 + t) <= p,
    ensures
        shift_ok(p, c),
    decreases (if p >= pow2(53 + t) { (p - pow2(53 + t)) as nat + 1 } else { 0nat }),
{
    if p < pow2(53 + t) {
        t
    } else {
        lemma_pow2_unfold(53 + t + 1);
        lemma_pow2_pos(53 + t);
        assert(pow2(52 + (t + 1)) == pow2(53 + t));
        shift_from(p, t + 1)
    }
}

/// Twice a round-to-nearest quotient times the divisor is at most twice the dividend
/// plus the divisor.
proof fn lemma_div_ne_bound(n: nat, d: nat)
    requires
        d > 0,
    ensures
        2 * (div_ne(n, d) * d) <= 2 * n + d,
        div_ne(n, d) * d >= n - d,
{
    let q = n / d;
    let r = n % d;
    vstd::arithmetic::div_mod::lemma_fundamental_div_mod(n as int, d as int);
    assert(n == d * q + r);
    assert(0 <= r < d);
    if 2 * r > d || (2 * r == d && q % 2 == 1) {
        assert((q + 1) * d == q * d + d) by (nonlinear_arith);
        assert(d * q == q * d) by (nonlinear_arith);
    } else {
        assert(d * q == q * d) by (nonlinear_arith);
    }
}

fn div_ne_exec(n: u128, d: u128) -> (r: u128)
    requires
        d > 0,
        n < 0x1_0000_0000_0000_0000_0000_0000,
        d < 0x1_0000_0000_0000_0000_0000_0000,
    ensures
        r == div_ne(n as nat, d as nat),
{
    let q = n / d;
    let r = n % d;
    if 2 * r > d || (2 * r == d && q % 2 == 1) {
        q + 1
    } else {
        q
    }
}

/// The double-precision quotient `m / l` of two `u32`s with `m < l`: the mantissa and
/// `2^k`.
fn quotient_exec(m: u32, l: u32) -> (r: (u128, u128))
    requires
        m < l,
    ensures
        r.0 == quotient(m as nat, l as nat).0,
        r.1 == pow2(quotient(m as nat, l as nat).1),
        r.0 <= 0x20_0000_0000_0000,
        1 <= r.1 <= 0x20_0000_0000_0000_0000_0000,
{
    proof {
        lemma2_to64();
        lemma2_to64_rest();
    }
    if m == 0 {
        return (0, 1);
    }
    let target: u128 = (l as u128) * 0x10_0000_0000_0000;
    let mut mk: u128 = m as u128;
    let mut pk: u128 = 1;
    let ghost mut k: nat = 0;
    while mk < target
        invariant
            1 <= m < l,
            target == pow2(52) * l,
            pow2(52) == 0x10_0000_0000_0000,
            mk == m * pk,
            pk == pow2(k),
            1 <= pk <= mk,
            mk < 2 * target,
        decreases (if mk < target { target - mk } else { 0 }),
    {
        proof {
            lemma_pow2_unfold(k + 1);
        }
        mk = mk * 2;
        pk = pk * 2;
        proof {
            k = k + 1;
        }
        assert(mk == m * pk) by (nonlinear_arith)
            requires mk == 2 * (m * (pk / 2)), pk == 2 * (pk / 2);
    }
    proof {
        assert(quotient_exp_ok(m as nat, l as nat, k));
        let c = choose|c: nat| quotient_exp_ok(m as nat, l as nat, c);
        lemma_quotient_exp_unique(m as nat, l as nat, k, c);
    }
    let big = div_ne_exec(mk, l as u128);
    proof {
        lemma_div_ne_bound(mk as nat, l as nat);
        assert(big <= 0x20_0000_0000_0000) by (nonlinear_arith)
            requires 2 * (big * l) <= 2 * mk + l, mk < 2 * (0x10_0000_0000_0000 * l), l >= 1;
    }
    (big, pk)
}

/// The edge `x` scaled by the double-precision factor `(big, 2^k)`, as `scaled_edge`.
fn scaled_edge_exec(x: u32, big: u128, pk: u128, Ghost(q): Ghost<(nat, nat)>) -> (r: u32)
    requires
        big == q.0,
        pk == pow2(q.1),
        big <= 0x20_0000_0000_0000,
        1 <= pk <= 0x20_0000_0000_0000_0000_0000,
    ensures
        r == scaled_edge(x as nat, q),
{
    proof {
        lemma2_to64();
        lemma2_to64_rest();
    }
    assert((x as int) * (big as int) <= 0xffff_ffff * 0x20_0000_0000_0000) by (nonlinear_arith)
        requires x <= 0xffff_ffff, big <= 0x20_0000_0000_0000;
    let p: u128 = (x as u128) * big;
    let mut lim: u128 = 0x20_0000_0000_0000;
    let mut unit: u128 = 1;
    let ghost mut t: nat = 0;
    while p >= lim
        invariant
            p <= 0xffff_ffff * 0x20_0000_0000_0000,
            lim == pow2(53 + t),
            unit == pow2(t),
            lim == unit * 0x20_0000_0000_0000,
            unit >= 1,
            t == 0 || pow2(52 + t) <= p,
            lim <= 0x40_0000_0000_0000_0000_0000,
        decreases 0x40_0000_0000_0000_0000_0000 - lim,
    {
        proof {
            lemma_pow2_unfold(53 + t + 1);
            lemma_pow2_unfold(t + 1);
            assert(pow2(52 + (t + 1)) == pow2(53 + t));
        }
        lim = lim * 2;
        unit = unit * 2;
        proof {
            t = t + 1;
        }
    }
    proof {
        assert(shift_ok(p as nat, t));
        let c = choose|c: nat| shift_ok(p as nat, c);
        lemma_shift_unique(p as nat, t, c);
        lemma_pow2_pos(t);
    }
    let d = div_ne_exec(p, unit);
    proof {
        lemma_div_ne_bound(p as nat, unit as nat);
        assert(d * unit <= p + unit) by (nonlinear_arith)
            requires 2 * (d * unit) <= 2 * p + unit;
    }
    let rounded: u128 = d * unit;
    assert(rounded == round53((x as nat) * q.0));
    let v: u128 = (rounded + pk / 2) / pk;
    assert(v == scaled_product(x as nat, q));
    let s: u32 = if v > 0xffff_ffff { 0xffff_ffff } else { v as u32 };
    if s >= 1 {
        s
    } else {
        1
    }
}

/// Scales the edge `x` by `m / l` as double precision does (`m < l`), rounded to the
/// nearest integer, saturated into a `u32`, and at least 1.
pub fn scale_edge(x: u32, m: u32, l: u32) -> (r: u32)
    requires
        m < l,
    ensures
        r == scaled_edge(x as nat, quotient(m as nat, l as nat)),
{
    let (big, pk) = quotient_exec(m, l);
    scaled_edge_exec(x, big, pk, Ghost(quotient(m as nat, l as nat)))
}

/// The scaled edge stays within the edge itself and within `m`, for an edge no longer
/// than `l`.
pub proof fn lemma_scaled_product_bounds(x: nat, m: nat, l: nat)
    requires
        m < l,
        l <= u32::MAX,
        x <= l,
    ensures
        scaled_product(x, quotient(m, l)) <= x,
        scaled_product(x, quotient(m, l)) <= m,
{
    lemma2_to64();
    lemma2_to64_rest();
    let q = quotient(m, l);
    if m == 0 {
        assert(shift_ok(0, 0));
        let t0 = choose|t: nat| shift_ok(0, t);
        lemma_shift_unique(0, 0, t0);
        assert(round53(0) == 0);
        assert(q == (0nat, 0nat));
        assert(x * q.0 == 0) by (nonlinear_arith) requires q.0 == 0;
        assert(pow2(0) == 1);
        assert(scaled_product(x, q) == (0 + pow2(0) / 2) / pow2(0));
        assert(scaled_product(x, q) == 0);
        return;
    }
    let k = q.1;
    let big = q.0;
    let pk = pow2(k);
    assert(shift_ok(0, 0));
    // k exists and satisfies its bounds.
    assert(exists|c: nat| quotient_exp_ok(m, l, c)) by {
        // The exponent that the executable search finds.
        let c = exp_from(m, l, 0);
        lemma_pow2_pos(0);
        assert(m * pow2(0) < pow2(53) * l) by (nonlinear_arith) requires pow2(0) == 1, m < l, pow2(53) >= 1;
        assert(quotient_exp_ok(m, l, c));
    }
    assert(quotient_exp_ok(m, l, k));
    lemma_pow2_pos(k);
    lemma_div_ne_bound(m * pk, l);
    // 2^k > 2^52 >= 2^33 > l.
    assert(pk > 0x10_0000_0000_0000) by (nonlinear_arith)
        requires m * pk >= 0x10_0000_0000_0000 * l, m < l, pk > 0, m > 0;
    assert(big <= pk) by (nonlinear_arith)
        requires 2 * (big * l) <= 2 * (m * pk) + l, m < l, l >= 1, pk > 0;
    assert(big <= 0x20_0000_0000_0000) by (nonlinear_arith)
        requires 2 * (big * l) <= 2 * (m * pk) + l, m * pk < 0x20_0000_0000_0000 * l, l >= 1;
    let p = x * big;
    assert(p < 0x2_0000_0000 * 0x20_0000_0000_0000) by (nonlinear_arith)
        requires p == x * big, x <= 0xffff_ffff, big <= 0x20_0000_0000_0000;
    let t = choose|t: nat| shift_ok(p, t);
    assert(exists|c: nat| shift_ok(p, c)) by {
        let c = shift_from(p, 0);
        assert(shift_ok(p, c));
    }
    assert(shift_ok(p, t));
    lemma_pow2_pos(t);
    let unit = pow2(t);
    // unit <= 2^33: p < 2^86, so 52 + t < 86.
    if t > 33 {
        lemma_pow2_le(86, 52 + t);
        vstd::arithmetic::power2::lemma_pow2_adds(64, 22);
        assert(pow2(86) == 0x40_0000_0000_0000_0000_0000);
        assert(false);
    }
    lemma_pow2_le(t, 33);
    lemma_div_ne_bound(p, unit);
    let rp = round53(p);
    assert(rp == div_ne(p, unit) * unit);
    assert(2 * rp <= 2 * p + unit);
    // k >= 1, so 2^k is even.
    lemma_pow2_unfold(k);
    assert(pk / 2 * 2 == pk);
    assert(2 * p <= 2 * (l * big)) by (nonlinear_arith)
        requires p == x * big, x <= l;
    assert(2 * p <= 2 * (x * pk)) by (nonlinear_arith)
        requires p == x * big, big <= pk;
    assert((rp + pk / 2) / pk <= m) by (nonlinear_arith)
        requires
            2 * rp <= 2 * p + unit,
            2 * p <= 2 * (l * big),
            2 * (big * l) <= 2 * (m * pk) + l,
            unit <= 0x2_0000_0000,
            l <= 0xffff_ffff,
            pk > 0x10_0000_0000_0000,
            pk / 2 * 2 == pk;
    assert((rp + pk / 2) / pk <= x) by (nonlinear_arith)
        requires
            2 * rp <= 2 * p + unit,
            2 * p <= 2 * (x * pk),
            unit <= 0x2_0000_0000,
            pk > 0x10_0000_0000_0000,
            pk / 2 * 2 == pk;
}

} // verus!
