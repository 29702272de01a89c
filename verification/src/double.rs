//! Ratios and sizes as double-precision numbers hold them, worked out on
//! whole numbers. A double that is not negative is given by its 64 bits,
//! which order as the numbers do.

use vstd::arithmetic::power2::*;
use vstd::prelude::*;

verus! {

/// `n / d` rounded to a whole number, a tie to the even one.
pub open spec fn nearest_even(n: nat, d: nat) -> nat {
    let q = n / d;
    let r = n % d;
    if 2 * r < d || (2 * r == d && q % 2 == 0) {
        q
    } else {
        q + 1
    }
}

/// `n / d` rounded to a whole number, a tie to the even one.
pub fn round_even(n: u128, d: u128) -> (r: u128)
    requires
        0 < d <= u64::MAX * 0x10_0000_0000_0000,
        n < u128::MAX,
    ensures
        r == nearest_even(n as nat, d as nat),
{
    let q: u128 = n / d;
    let r: u128 = n % d;
    assert(q <= n) by (nonlinear_arith)
        requires
            d > 0,
            q == n / d,
    ;
    if 2 * r < d || (2 * r == d && q % 2 == 0) {
        q
    } else {
        q + 1
    }
}

/// Whether `n` needs `k` bits more than the 53 that a double has.
pub open spec fn excess(n: nat, k: nat) -> bool {
    n < 0x20_0000_0000_0000 * pow2(k) && (k > 0 ==> 0x10_0000_0000_0000 * pow2(k) <= n)
}

/// The double nearest to the whole number `n`, which is whole as well.
pub open spec fn nearest_whole(n: nat) -> nat {
    let k = choose|k: nat| excess(n, k);
    nearest_even(n, pow2(k)) * pow2(k)
}

proof fn excess_unique(n: nat, j: nat, k: nat)
    requires
        excess(n, j),
        excess(n, k),
    ensures
        j == k,
{
    if j < k {
        lemma_pow2_unfold(k);
        if j < k - 1 {
            lemma_pow2_strictly_increases(j, (k - 1) as nat);
        }
    } else if k < j {
        lemma_pow2_unfold(j);
        if k < j - 1 {
            lemma_pow2_strictly_increases(k, (j - 1) as nat);
        }
    }
}

/// The double nearest to `n`: `n as f64`.
pub fn whole(n: u64) -> (r: u128)
    ensures
        r == nearest_whole(n as nat),
        r <= 0x1_0000_0000_0000_0000,
        n > 0 ==> r > 0,
        n == 0 ==> r == 0,
{
    let mut k: u32 = 0;
    let mut step: u128 = 1;
    proof {
        lemma2_to64();
        lemma2_to64_rest();
    }
    while n as u128 >= 0x20_0000_0000_0000 * step
        invariant
            k <= 11,
            step == pow2(k as nat),
            step <= 0x800,
            k > 0 ==> 0x10_0000_0000_0000 * step <= n,
            n <= u64::MAX,
            pow2(11) == 0x800,
            pow2(0) == 1,
        decreases 11 - k,
    {
        proof {
            lemma_pow2_unfold((k + 1) as nat);
            if k == 11 {
                assert(false);
            }
            if k < 10 {
                lemma_pow2_strictly_increases((k + 1) as nat, 11);
            }
        }
        k = k + 1;
        step = step * 2;
    }
    assert(excess(n as nat, k as nat));
    proof {
        excess_unique(n as nat, k as nat, choose|k: nat| excess(n as nat, k));
    }
    let m: u128 = round_even(n as u128, step);
    proof {
        let nn = n as int;
        let d = step as int;
        let q = nn / d;
        let rr = nn % d;
        assert(nn == q * d + rr && 0 <= rr < d) by (nonlinear_arith)
            requires
                d > 0,
                q == nn / d,
                rr == nn % d,
        ;
        assert(q <= 0x1f_ffff_ffff_ffff) by (nonlinear_arith)
            requires
                nn < 0x20_0000_0000_0000 * d,
                nn == q * d + rr,
                0 <= rr,
                d > 0,
        ;
        assert(m <= 0x20_0000_0000_0000);
        assert(m * step <= 0x20_0000_0000_0000 * 0x800) by (nonlinear_arith)
            requires
                m <= 0x20_0000_0000_0000,
                step <= 0x800,
        ;
        if nn > 0 {
            assert(m > 0) by {
                if k == 0 {
                    assert(d == 1);
                    assert(q == nn) by (nonlinear_arith)
                        requires
                            d == 1,
                            q == nn / d,
                    ;
                } else {
                    assert(q > 0) by (nonlinear_arith)
                        requires
                            0x10_0000_0000_0000 * d <= nn,
                            nn == q * d + rr,
                            rr < d,
                            d > 0,
                    ;
                }
            }
            assert(m * step > 0) by (nonlinear_arith)
                requires
                    m > 0,
                    step > 0,
            ;
        } else {
            assert(k == 0);
            assert(q == 0 && rr == 0);
            assert(m == 0);
        }
    }
    m * step
}

/// Whether `a * 2^up` divided by `b * 2^down` has a whole part of 53 bits.
pub open spec fn aligned(a: nat, b: nat, up: nat, down: nat) -> bool {
    &&& up == 0 || down == 0
    &&& 0x10_0000_0000_0000 * (b * pow2(down)) <= a * pow2(up)
    &&& a * pow2(up) < 0x20_0000_0000_0000 * (b * pow2(down))
}

/// The bits of the double nearest to `a / b`.
pub open spec fn quotient_bits(a: nat, b: nat) -> nat {
    if a == 0 {
        0
    } else {
        let (up, down) = choose|up: nat, down: nat| aligned(a, b, up, down);
        let m = nearest_even(a * pow2(up), b * pow2(down));
        ((1074 - up + down) * 0x10_0000_0000_0000 + m) as nat
    }
}

/// Scaling by a larger power of two at least doubles more often.
proof fn scale_grows(x: nat, i: nat, j: nat)
    requires
        i < j,
    ensures
        x * pow2(j) >= 2 * (x * pow2(i)),
{
    lemma_pow2_unfold(j);
    if i < j - 1 {
        lemma_pow2_strictly_increases(i, (j - 1) as nat);
    }
    let p = pow2(i) as int;
    let q = pow2(j) as int;
    assert(q >= 2 * p);
    assert(x * q >= 2 * (x * p)) by (nonlinear_arith)
        requires
            q >= 2 * p,
            x >= 0,
    ;
}

/// There is one scale at which a quotient has a whole part of 53 bits.
pub proof fn aligned_unique(a: nat, b: nat, u: nat, d: nat, v: nat, e: nat)
    requires
        a > 0,
        b > 0,
        aligned(a, b, u, d),
        aligned(a, b, v, e),
    ensures
        u == v,
        d == e,
{
    lemma2_to64();
    assert(a * pow2(0) == a);
    assert(b * pow2(0) == b);
    if u < v {
        scale_grows(a, u, v);
        if e < d {
            scale_grows(b, e, d);
        }
    } else if v < u {
        scale_grows(a, v, u);
        if d < e {
            scale_grows(b, d, e);
        }
    } else if d < e {
        scale_grows(b, d, e);
    } else if e < d {
        scale_grows(b, e, d);
    }
}

/// The bits of the double nearest to `a / b`.
pub fn quotient(a: u128, b: u128) -> (r: u64)
    requires
        a <= 0x1_0000_0000_0000_0000,
        0 < b <= 0x1_0000_0000_0000_0000,
    ensures
        r == quotient_bits(a as nat, b as nat),
{
    if a == 0 {
        return 0;
    }
    let mut num: u128 = a;
    let mut den: u128 = b;
    let mut up: u64 = 0;
    let mut down: u64 = 0;
    proof {
        lemma2_to64();
        lemma2_to64_rest();
        lemma_pow2_adds(64, 64);
    }
    while num < 0x10_0000_0000_0000 * den
        invariant
            a > 0,
            den == b,
            b <= 0x1_0000_0000_0000_0000,
            up <= 128,
            num > 0,
            num == a * pow2(up as nat),
            num < 0x20_0000_0000_0000 * den || up == 0,
            pow2(128) == 0x1_0000_0000_0000_0000 * 0x1_0000_0000_0000_0000,
        decreases 128 - up,
    {
        proof {
            lemma_pow2_unfold((up + 1) as nat);
            let p = pow2(up as nat);
            assert(a * (2 * p) == 2 * (a * p)) by (nonlinear_arith);
            if up == 128 {
                assert(a * p >= p) by (nonlinear_arith)
                    requires
                        a >= 1,
                        p >= 0,
                ;
                assert(false);
            }
        }
        num = num * 2;
        up = up + 1;
    }
    while num >= 0x20_0000_0000_0000 * den
        invariant
            0 < a <= 0x1_0000_0000_0000_0000,
            0 < b,
            down <= 12,
            up == 0 || down == 0,
            num == a * pow2(up as nat),
            den == b * pow2(down as nat),
            den > 0,
            0x10_0000_0000_0000 * den <= num,
            num < 0x20_0000_0000_0000 * den || up == 0,
            up == 0 ==> num == a,
            den <= 0x1_0000_0000_0000_0000,
            up <= 128,
            pow2(12) == 0x1000,
        decreases 12 - down,
    {
        proof {
            lemma_pow2_unfold((down + 1) as nat);
            let p = pow2(down as nat);
            assert(b * (2 * p) == 2 * (b * p)) by (nonlinear_arith);
            if down == 12 {
                assert(b * p >= p) by (nonlinear_arith)
                    requires
                        b >= 1,
                        p >= 0,
                ;
                assert(false);
            }
        }
        den = den * 2;
        down = down + 1;
    }
    assert(aligned(a as nat, b as nat, up as nat, down as nat));
    proof {
        let (u, d) = choose|u: nat, d: nat| aligned(a as nat, b as nat, u, d);
        aligned_unique(a as nat, b as nat, up as nat, down as nat, u, d);
    }
    let m: u128 = round_even(num, den);
    proof {
        let n = num as int;
        let d = den as int;
        let q = n / d;
        assert(0x10_0000_0000_0000 <= q < 0x20_0000_0000_0000) by (nonlinear_arith)
            requires
                0x10_0000_0000_0000 * d <= n < 0x20_0000_0000_0000 * d,
                d > 0,
                q == n / d,
        ;
    }
    (1074 - up + down) * 0x10_0000_0000_0000 + m as u64
}

/// The bits of `a / b` where the two are doubles nearest to whole numbers, and
/// of zero where there is nothing to divide by.
pub open spec fn ratio_bits(a: u64, b: u64) -> nat {
    if b == 0 {
        0
    } else {
        quotient_bits(nearest_whole(a as nat), nearest_whole(b as nat))
    }
}

/// The bits of `a as f64 / b as f64`, and of zero where `b` is.
pub fn ratio(a: u64, b: u64) -> (r: u64)
    ensures
        r == ratio_bits(a, b),
{
    if b == 0 {
        return 0;
    }
    let x: u128 = whole(a);
    let y: u128 = whole(b);
    quotient(x, y)
}

/// Rounding moves a quotient by half a unit at most.
pub proof fn nearest_even_close(n: nat, d: nat)
    requires
        d > 0,
    ensures
        2 * (nearest_even(n, d) * d) <= 2 * n + d,
        2 * n <= 2 * (nearest_even(n, d) * d) + d,
{
    let q = (n / d) as int;
    let r = (n % d) as int;
    let e = d as int;
    assert(n == q * e + r) by (nonlinear_arith)
        requires
            e > 0,
            e == d,
            q == n as int / e,
            r == n as int % e,
    ;
    assert((q + 1) * e == q * e + e) by (nonlinear_arith);
}

/// Of two quotients with one divisor the larger one rounds no lower.
proof fn nearest_even_grows(n: nat, k: nat, d: nat)
    requires
        d > 0,
        n <= k,
    ensures
        nearest_even(n, d) <= nearest_even(k, d),
{
    let e = d as int;
    let (q, r) = (n as int / e, n as int % e);
    let (p, s) = (k as int / e, k as int % e);
    assert(n == q * e + r && k == p * e + s && 0 <= r < e && 0 <= s < e) by (nonlinear_arith)
        requires
            e > 0,
            q == n as int / e,
            r == n as int % e,
            p == k as int / e,
            s == k as int % e,
    ;
    assert(q <= p) by (nonlinear_arith)
        requires
            q * e + r <= p * e + s,
            0 <= r < e,
            0 <= s < e,
    ;
    if q == p {
        assert(q * e == p * e);
    }
}

/// A quotient that is more than one larger rounds higher.
proof fn nearest_even_tells_apart(n: nat, k: nat, d: nat)
    requires
        d > 0,
        n + d < k,
    ensures
        nearest_even(n, d) < nearest_even(k, d),
{
    nearest_even_close(n, d);
    nearest_even_close(k, d);
    let (a, b, e) = (nearest_even(n, d) as int, nearest_even(k, d) as int, d as int);
    assert(a < b) by (nonlinear_arith)
        requires
            a * e < b * e,
            e > 0,
    ;
}

/// A fraction rounds alike however it is written.
proof fn nearest_even_scales(n: nat, d: nat, k: nat)
    requires
        d > 0,
        k > 0,
    ensures
        nearest_even(n * k, d * k) == nearest_even(n, d),
{
    let e = d as int;
    let c = k as int;
    let (q, r) = (n as int / e, n as int % e);
    assert(n == q * e + r && 0 <= r < e) by (nonlinear_arith)
        requires
            e > 0,
            q == n as int / e,
            r == n as int % e,
    ;
    assert(n * k == q * (e * c) + r * c && 0 <= r * c < e * c) by (nonlinear_arith)
        requires
            n == q * e + r,
            0 <= r < e,
            c > 0,
            c == k,
    ;
    vstd::arithmetic::div_mod::lemma_fundamental_div_mod_converse((n * k) as int, e * c, q, r * c);
    assert(d * k == e * c);
    assert((2 * r < e) == (2 * (r * c) < e * c)) by (nonlinear_arith)
        requires
            c > 0,
    ;
    assert((2 * r == e) == (2 * (r * c) == e * c)) by (nonlinear_arith)
        requires
            c > 0,
    ;
}

proof fn raised(a: nat, b: nat, up: nat)
    requires
        a > 0,
        b > 0,
        a * pow2(up) < 0x20_0000_0000_0000 * b,
    ensures
        exists|u: nat, d: nat| aligned(a, b, u, d),
    decreases 0x20_0000_0000_0000 * b - a * pow2(up),
{
    lemma2_to64();
    assert(b * pow2(0) == b);
    if 0x10_0000_0000_0000 * b <= a * pow2(up) {
        assert(aligned(a, b, up, 0));
    } else {
        lemma_pow2_unfold(up + 1);
        lemma_pow2_pos(up);
        let p = pow2(up);
        assert(a * (2 * p) == 2 * (a * p) && a * p > 0) by (nonlinear_arith)
            requires
                a > 0,
                p > 0,
        ;
        raised(a, b, up + 1);
    }
}

proof fn lowered(a: nat, b: nat, down: nat)
    requires
        a > 0,
        b > 0,
        0x10_0000_0000_0000 * (b * pow2(down)) <= a,
    ensures
        exists|u: nat, d: nat| aligned(a, b, u, d),
    decreases a - b * pow2(down),
{
    lemma2_to64();
    assert(a * pow2(0) == a);
    if a < 0x20_0000_0000_0000 * (b * pow2(down)) {
        assert(aligned(a, b, 0, down));
    } else {
        lemma_pow2_unfold(down + 1);
        lemma_pow2_pos(down);
        let p = pow2(down);
        assert(b * (2 * p) == 2 * (b * p) && b * p > 0) by (nonlinear_arith)
            requires
                b > 0,
                p > 0,
        ;
        lowered(a, b, down + 1);
    }
}

/// How the bits of a quotient come about: an exponent, and a whole part of 53
/// bits that rounding may carry over by one.
proof fn quotient_form(a: nat, b: nat) -> (s: (nat, nat))
    requires
        0 < a,
        0 < b <= 0x1_0000_0000_0000_0000,
    ensures
        aligned(a, b, s.0, s.1),
        s.0 <= 128,
        b * pow2(s.1) > 0,
        ({
            let m = nearest_even(a * pow2(s.0), b * pow2(s.1));
            &&& 0x10_0000_0000_0000 <= m <= 0x20_0000_0000_0000
            &&& quotient_bits(a, b) == (1074 - s.0 + s.1) * 0x10_0000_0000_0000 + m
        }),
{
    lemma2_to64();
    lemma2_to64_rest();
    lemma_pow2_adds(64, 64);
    assert(a * pow2(0) == a);
    assert(b * pow2(0) == b);
    if a < 0x20_0000_0000_0000 * b {
        raised(a, b, 0);
    } else {
        lowered(a, b, 0);
    }
    let (up, down) = choose|up: nat, down: nat| aligned(a, b, up, down);
    if up > 128 {
        lemma_pow2_strictly_increases(128, up);
        let p = pow2(up);
        assert(a * p >= p) by (nonlinear_arith)
            requires
                a >= 1,
                p >= 0,
        ;
        assert(false);
    }
    lemma_pow2_pos(down);
    let (n, q) = (a * pow2(up), pow2(down));
    assert(b * q > 0) by (nonlinear_arith)
        requires
            b > 0,
            q > 0,
    ;
    let d = b * q;
    let m = nearest_even(n, d);
    nearest_even_close(n, d);
    assert(0x10_0000_0000_0000 <= m <= 0x20_0000_0000_0000) by (nonlinear_arith)
        requires
            0x10_0000_0000_0000 * d <= n < 0x20_0000_0000_0000 * d,
            2 * (m * d) <= 2 * n + d,
            2 * n <= 2 * (m * d) + d,
            d > 0,
    ;
    (up, down)
}

/// Two quotients brought to one scale, as `x / p` and `y / q`.
proof fn on_one_scale(a: nat, b: nat, c: nat, d: nat, u: nat, v: nat, s: nat, t: nat) -> (r: (
    nat,
    nat,
    nat,
    nat,
))
    requires
        a > 0,
        b > 0,
        c > 0,
        d > 0,
        b * pow2(v) > 0,
        d * pow2(t) > 0,
        aligned(a, b, u, v),
        aligned(c, d, s, t),
    ensures
        ({
            let (x, p, y, q) = r;
            &&& p > 0
            &&& q > 0
            &&& x == (a * d) * pow2(u + s)
            &&& y == (c * b) * pow2(u + s)
            &&& p == (b * d) * pow2(v + s)
            &&& q == (b * d) * pow2(t + u)
            &&& 0x10_0000_0000_0000 * p <= x < 0x20_0000_0000_0000 * p
            &&& 0x10_0000_0000_0000 * q <= y < 0x20_0000_0000_0000 * q
            &&& nearest_even(x, p) == nearest_even(a * pow2(u), b * pow2(v))
            &&& nearest_even(y, q) == nearest_even(c * pow2(s), d * pow2(t))
        }),
{
    lemma_pow2_adds(u, s);
    lemma_pow2_adds(v, s);
    lemma_pow2_adds(t, u);
    lemma_pow2_pos(s);
    lemma_pow2_pos(u);
    let (pu, pv, ps, pt) = (pow2(u), pow2(v), pow2(s), pow2(t));
    let (n, m) = (a * pu, b * pv);
    let (k, l) = (c * ps, d * pt);
    let (f, g) = (d * ps, b * pu);
    assert(f > 0 && g > 0) by (nonlinear_arith)
        requires
            f == d * ps,
            g == b * pu,
            d > 0,
            b > 0,
            ps > 0,
            pu > 0,
    ;
    let (x, p, y, q) = (n * f, m * f, k * g, l * g);
    assert((a * pu) * (d * ps) == (a * d) * (pu * ps)) by (nonlinear_arith);
    assert((c * ps) * (b * pu) == (c * b) * (pu * ps)) by (nonlinear_arith);
    assert((b * pv) * (d * ps) == (b * d) * (pv * ps)) by (nonlinear_arith);
    assert((d * pt) * (b * pu) == (b * d) * (pt * pu)) by (nonlinear_arith);
    nearest_even_scales(n, m, f);
    nearest_even_scales(k, l, g);
    assert(0x10_0000_0000_0000 * (m * f) <= n * f < 0x20_0000_0000_0000 * (m * f) && m * f > 0)
        by (nonlinear_arith)
        requires
            0x10_0000_0000_0000 * m <= n < 0x20_0000_0000_0000 * m,
            m > 0,
            f > 0,
    ;
    assert(0x10_0000_0000_0000 * (l * g) <= k * g < 0x20_0000_0000_0000 * (l * g) && l * g > 0)
        by (nonlinear_arith)
        requires
            0x10_0000_0000_0000 * l <= k < 0x20_0000_0000_0000 * l,
            l > 0,
            g > 0,
    ;
    (x, p, y, q)
}

/// A quotient that is no larger than another has bits that are no larger.
pub proof fn quotient_bits_grow(a: nat, b: nat, c: nat, d: nat)
    requires
        0 < b <= 0x1_0000_0000_0000_0000,
        0 < d <= 0x1_0000_0000_0000_0000,
        a * d <= c * b,
    ensures
        quotient_bits(a, b) <= quotient_bits(c, d),
{
    if a > 0 {
        assert(c > 0) by (nonlinear_arith)
            requires
                a * d <= c * b,
                a > 0,
                d > 0,
                c >= 0,
        ;
        let (u, v) = quotient_form(a, b);
        let (s, t) = quotient_form(c, d);
        let (x, p, y, q) = on_one_scale(a, b, c, d, u, v, s, t);
        let (g, h, w) = (a * d, c * b, pow2(u + s));
        assert(g * w <= h * w) by (nonlinear_arith)
            requires
                g <= h,
                w >= 0,
        ;
        assert(x <= y);
        if v + s > t + u {
            scale_grows(b * d, t + u, v + s);
            assert(false);
        } else if v + s == t + u {
            nearest_even_grows(x, y, p);
        }
    }
}

/// A quotient that is larger than another by more than its 2^52nd part has
/// bits that are larger.
pub proof fn quotient_bits_tell_apart(a: nat, b: nat, c: nat, d: nat)
    requires
        0 < b <= 0x1_0000_0000_0000_0000,
        0 < d <= 0x1_0000_0000_0000_0000,
        0x10_0000_0000_0001 * (a * d) < 0x10_0000_0000_0000 * (c * b),
    ensures
        quotient_bits(a, b) < quotient_bits(c, d),
{
    assert(c > 0) by (nonlinear_arith)
        requires
            0 < 0x10_0000_0000_0000 * (c * b),
            c >= 0,
            b > 0,
    ;
    let (s, t) = quotient_form(c, d);
    if a > 0 {
        let (u, v) = quotient_form(a, b);
        let (x, p, y, q) = on_one_scale(a, b, c, d, u, v, s, t);
        let (g, h, w) = (a * d, c * b, pow2(u + s));
        lemma_pow2_pos(u + s);
        assert(0x10_0000_0000_0001 * (g * w) < 0x10_0000_0000_0000 * (h * w)) by (nonlinear_arith)
            requires
                0x10_0000_0000_0001 * g < 0x10_0000_0000_0000 * h,
                w > 0,
        ;
        assert(0x10_0000_0000_0001 * x < 0x10_0000_0000_0000 * y);
        if v + s > t + u {
            scale_grows(b * d, t + u, v + s);
            assert(false);
        } else if v + s == t + u {
            assert(x + p < y);
            nearest_even_tells_apart(x, y, p);
        } else if v + s + 1 == t + u {
            lemma_pow2_unfold(t + u);
            let (z, o) = (b * d, pow2(v + s));
            assert(z * (2 * o) == 2 * (z * o)) by (nonlinear_arith);
            assert(q == 2 * p);
            nearest_even_close(x, p);
            nearest_even_close(y, q);
            let (i, j) = (nearest_even(x, p), nearest_even(y, q));
            if i == 0x20_0000_0000_0000 && j == 0x10_0000_0000_0000 {
                assert(i * p == 0x20_0000_0000_0000 * p);
                assert(j * q == 0x10_0000_0000_0000 * q);
                assert(false);
            }
        }
    }
}

/// A whole number of 53 bits is a double as it is.
pub proof fn small_wholes_are_exact(n: nat)
    requires
        n < 0x20_0000_0000_0000,
    ensures
        nearest_whole(n) == n,
{
    lemma2_to64();
    assert(excess(n, 0));
    let k = choose|k: nat| excess(n, k);
    excess_unique(n, 0, k);
    assert(n / 1 == n && n % 1 == 0);
}

/// The share `a / b` of whole numbers of 53 bits is no larger than `c / d` only
/// where its bits are no larger: shares are compared as fractions, whatever
/// the size of the numbers.
pub proof fn ratio_bits_grow(a: u64, b: u64, c: u64, d: u64)
    requires
        a < 0x20_0000_0000_0000,
        0 < b < 0x20_0000_0000_0000,
        c < 0x20_0000_0000_0000,
        0 < d < 0x20_0000_0000_0000,
        a * d <= c * b,
    ensures
        ratio_bits(a, b) <= ratio_bits(c, d),
{
    small_wholes_are_exact(a as nat);
    small_wholes_are_exact(b as nat);
    small_wholes_are_exact(c as nat);
    small_wholes_are_exact(d as nat);
    quotient_bits_grow(a as nat, b as nat, c as nat, d as nat);
}

/// Two shares of whole numbers of 53 bits, of which one is larger by more than
/// its 2^52nd part, have bits that order as the shares do.
pub proof fn ratio_bits_tell_apart(a: u64, b: u64, c: u64, d: u64)
    requires
        a < 0x20_0000_0000_0000,
        0 < b < 0x20_0000_0000_0000,
        c < 0x20_0000_0000_0000,
        0 < d < 0x20_0000_0000_0000,
        0x10_0000_0000_0001 * (a * d) < 0x10_0000_0000_0000 * (c * b),
    ensures
        ratio_bits(a, b) < ratio_bits(c, d),
{
    small_wholes_are_exact(a as nat);
    small_wholes_are_exact(b as nat);
    small_wholes_are_exact(c as nat);
    small_wholes_are_exact(d as nat);
    quotient_bits_tell_apart(a as nat, b as nat, c as nat, d as nat);
}

proof fn excess_found(n: nat, k: nat)
    requires
        k > 0 ==> 0x10_0000_0000_0000 * pow2(k) <= n,
    ensures
        exists|j: nat| excess(n, j),
    decreases n - pow2(k),
{
    if n < 0x20_0000_0000_0000 * pow2(k) {
        assert(excess(n, k));
    } else {
        lemma_pow2_unfold(k + 1);
        lemma_pow2_pos(k);
        excess_found(n, k + 1);
    }
}

/// The double nearest to a whole number is off by no more than its 2^53rd part.
pub proof fn nearest_whole_close(n: nat)
    requires
        n <= u64::MAX,
    ensures
        0x20_0000_0000_0000 * nearest_whole(n) <= 0x20_0000_0000_0001 * n,
        0x1F_FFFF_FFFF_FFFF * n <= 0x20_0000_0000_0000 * nearest_whole(n),
        n > 0 ==> nearest_whole(n) > 0,
        nearest_whole(n) <= 0x1_0000_0000_0000_0000,
{
    lemma2_to64();
    if n < 0x20_0000_0000_0000 {
        small_wholes_are_exact(n);
    } else {
        assert(0x10_0000_0000_0000 * pow2(1) <= n);
        excess_found(n, 1);
        let k = choose|k: nat| excess(n, k);
        if k > 11 {
            lemma_pow2_strictly_increases(11, k);
            lemma_pow2_unfold(12);
            if k > 12 {
                lemma_pow2_strictly_increases(12, k);
            }
            assert(false);
        }
        if k < 11 {
            lemma_pow2_strictly_increases(k, 11);
        }
        let p = pow2(k);
        lemma_pow2_pos(k);
        nearest_even_close(n, p);
        let m = nearest_even(n, p);
        assert(m <= 0x20_0000_0000_0000) by (nonlinear_arith)
            requires
                2 * (m * p) <= 2 * n + p,
                n < 0x20_0000_0000_0000 * p,
                p > 0,
        ;
        assert(m * p <= 0x20_0000_0000_0000 * 0x800) by (nonlinear_arith)
            requires
                m <= 0x20_0000_0000_0000,
                p <= 0x800,
        ;
        assert(nearest_whole(n) == m * p);
        if k == 0 {
            assert(p == 1);
        }
    }
}

/// Two shares of whole numbers, of which one is larger by more than its 2^50th
/// part, have bits that order as the shares do, however large the numbers.
pub proof fn ratio_bits_tell_large_apart(a: u64, b: u64, c: u64, d: u64)
    requires
        0 < b,
        0 < d,
        0x4_0000_0000_0001 * (a * d) < 0x4_0000_0000_0000 * (c * b),
    ensures
        ratio_bits(a, b) < ratio_bits(c, d),
{
    nearest_whole_close(a as nat);
    nearest_whole_close(b as nat);
    nearest_whole_close(c as nat);
    nearest_whole_close(d as nat);
    let (w, x) = (nearest_whole(a as nat) as int, nearest_whole(b as nat) as int);
    let (y, z) = (nearest_whole(c as nat) as int, nearest_whole(d as nat) as int);
    let e = 0x20_0000_0000_0000int;
    let (p, q) = (a as int * d as int, c as int * b as int);
    product_at_most(w, z, a as int, d as int, e);
    product_at_least(y, x, c as int, b as int, e);
    let (m, n) = (w * z, y * x);
    assert(e * (e * m) <= (e + 1) * ((e + 1) * p));
    assert((e - 1) * ((e - 1) * q) <= e * (e * n));
    assert(0x10_0000_0000_0001 * m < 0x10_0000_0000_0000 * n);
    quotient_bits_tell_apart(w as nat, x as nat, y as nat, z as nat);
}

proof fn product_at_most(w: int, z: int, a: int, d: int, e: int)
    requires
        0 <= w,
        0 <= z,
        0 <= a,
        0 <= d,
        0 < e,
        e * w <= (e + 1) * a,
        e * z <= (e + 1) * d,
    ensures
        e * (e * (w * z)) <= (e + 1) * ((e + 1) * (a * d)),
{
    assert((e * w) * (e * z) <= ((e + 1) * a) * ((e + 1) * d)) by (nonlinear_arith)
        requires
            0 <= e * w <= (e + 1) * a,
            0 <= e * z <= (e + 1) * d,
    ;
    assert((e * w) * (e * z) == e * (e * (w * z))) by (nonlinear_arith);
    assert(((e + 1) * a) * ((e + 1) * d) == (e + 1) * ((e + 1) * (a * d))) by (nonlinear_arith);
}

proof fn product_at_least(y: int, x: int, c: int, b: int, e: int)
    requires
        0 <= y,
        0 <= x,
        0 <= c,
        0 <= b,
        1 < e,
        (e - 1) * c <= e * y,
        (e - 1) * b <= e * x,
    ensures
        (e - 1) * ((e - 1) * (c * b)) <= e * (e * (y * x)),
{
    assert(0 <= (e - 1) * c && 0 <= (e - 1) * b) by (nonlinear_arith)
        requires
            0 <= c,
            0 <= b,
            1 < e,
    ;
    assert(((e - 1) * c) * ((e - 1) * b) <= (e * y) * (e * x)) by (nonlinear_arith)
        requires
            0 <= (e - 1) * c <= e * y,
            0 <= (e - 1) * b <= e * x,
    ;
    assert((e * y) * (e * x) == e * (e * (y * x))) by (nonlinear_arith);
    assert(((e - 1) * c) * ((e - 1) * b) == (e - 1) * ((e - 1) * (c * b))) by (nonlinear_arith);
}

/// The whole of something is as much as the whole of anything else.
pub proof fn wholes_are_alike(a: u64, b: u64)
    requires
        0 < a,
        0 < b,
    ensures
        ratio_bits(a, a) == ratio_bits(b, b),
{
    nearest_whole_close(a as nat);
    nearest_whole_close(b as nat);
    let (x, y) = (nearest_whole(a as nat), nearest_whole(b as nat));
    assert(x * y == y * x) by (nonlinear_arith);
    quotient_bits_grow(x, x, y, y);
    quotient_bits_grow(y, y, x, x);
}

/// Nothing of something is less than any part of anything.
pub proof fn some_is_more_than_none(a: u64, b: u64, d: u64)
    requires
        0 < a,
        0 < b,
    ensures
        ratio_bits(0, d) == 0,
        ratio_bits(a, 0) == 0,
        0 < ratio_bits(a, b),
{
    small_wholes_are_exact(0);
    nearest_whole_close(a as nat);
    nearest_whole_close(b as nat);
    let (s, t) = quotient_form(nearest_whole(a as nat), nearest_whole(b as nat));
}

} // verus!
