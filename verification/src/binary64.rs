//! Double precision numbers, computed with whole numbers.
//!
//! A number is held as a count of the least positive double, two to the power of minus 1074. Every
//! double that is not negative is such a count, and a result of an operation is the nearest of
//! them, the even one where two are as near.
use vstd::prelude::*;
use vstd::arithmetic::power2::*;

use crate::natural::{compare, copy, multiply, natural, scale, shift, subtract, sum, Comparison};
use crate::natural;

verus! {

/// The number of steps between a whole number and the next.
pub open spec fn unit() -> nat {
    pow2(1074)
}

/// Two to the power of 53, which the significand of a double stays below.
pub const SIGNIFICANDS: u64 = 0x20_0000_0000_0000;

/// A quotient, to the nearest whole number, the even one where two are as near.
pub open spec fn rounded(n: nat, d: nat) -> nat {
    let q = n / d;
    let r = n % d;
    if 2 * r < d || (2 * r == d && q % 2 == 0) {
        q
    } else {
        q + 1
    }
}

/// The power of two that doubles of the size of a quotient are multiples of.
pub open spec fn granule(n: nat, d: nat) -> nat
    decreases
            (if n >= SIGNIFICANDS as nat * d {
                n - SIGNIFICANDS as nat * d + 1
            } else {
                0
            }),
{
    if d == 0 || n < SIGNIFICANDS as nat * d {
        1
    } else {
        2 * granule(n, 2 * d)
    }
}

/// The double nearest to a quotient.
pub open spec fn nearest(num: nat, den: nat) -> nat {
    let g = granule(num * unit(), den);
    rounded(num * unit(), den * g) * g
}

/// The double nearest to a whole number.
pub open spec fn of_whole(n: nat) -> nat {
    nearest(n, 1)
}

/// What a double times a whole number is as a double.
pub open spec fn times(x: nat, k: nat) -> nat {
    nearest(x * k, unit())
}

/// What a double over a whole number is as a double.
pub open spec fn over(x: nat, k: nat) -> nat {
    nearest(x, k * unit())
}

/// The whole part of a double, as far as 64 bits hold it.
pub open spec fn truncated(x: nat) -> u64 {
    if x / unit() <= u64::MAX {
        (x / unit()) as u64
    } else {
        u64::MAX
    }
}

proof fn lemma_unit()
    ensures
        unit() > 0,
{
    lemma_pow2_pos(1074);
}

proof fn lemma_quotient(n: nat, d: nat, q: nat, r: nat)
    requires
        n == q * d + r,
        r < d,
    ensures
        n / d == q,
        n % d == r,
{
    vstd::arithmetic::div_mod::lemma_fundamental_div_mod_converse(
        n as int,
        d as int,
        q as int,
        r as int,
    );
}

/// Divides, and tells how twice the remainder compares to the divisor.
fn divide(n: &Vec<u32>, d: &Vec<u32>, bits: u32) -> (r: (u64, Comparison))
    requires
        0 < bits <= 64,
        natural::value(n@) < natural::value(d@) * pow2(bits as nat),
    ensures
        r.0 == natural::value(n@) / natural::value(d@),
        r.0 < pow2(bits as nat),
        r.1 == natural::comparison(
            2 * (natural::value(n@) % natural::value(d@)),
            natural::value(d@),
        ),
{
    let ghost num = natural::value(n@);
    let ghost den = natural::value(d@);
    let mut t = copy(d);
    shift(&mut t, bits - 1);
    let mut rest = copy(n);
    let ghost top = natural::value(t@);
    let ghost last = pow2((bits - 1) as nat);
    let mut q: u64 = 0;
    let mut k: u32 = 0;
    proof {
        lemma2_to64();
        lemma2_to64_rest();
        lemma_pow2_unfold(bits as nat);
        lemma_pow2_pos((bits - 1) as nat);
        assert(den * pow2(bits as nat) == 2 * (den * last)) by (nonlinear_arith)
            requires
                pow2(bits as nat) == 2 * last,
        ;
        assert(num * 1 == num) by (nonlinear_arith);
    }
    while k < bits
        invariant
            0 < bits <= 64,
            k <= bits,
            top == natural::value(t@),
            natural::value(rest@) < 2 * top,
            k < bits ==> num * pow2(k as nat) == 2 * (q * top) + natural::value(rest@),
            k == bits ==> 2 * (num * pow2((bits - 1) as nat)) == 2 * (q * top)
                + natural::value(rest@),
            q < pow2(k as nat),
        decreases bits - k,
    {
        proof {
            lemma_pow2_unfold((k + 1) as nat);
            lemma2_to64();
            lemma2_to64_rest();
            if k < 63 {
                lemma_pow2_strictly_increases((k + 1) as nat, 64);
            }
            assert(pow2((k + 1) as nat) <= pow2(64));
        }
        let ghost before = natural::value(rest@);
        let ghost q0 = q;
        match compare(&rest, &t) {
            Comparison::Less => {
                q = 2 * q;
            },
            _ => {
                subtract(&mut rest, &t);
                q = 2 * q + 1;
            },
        }
        let ghost left = natural::value(rest@);
        scale(&mut rest, 2, 0);
        proof {
            let p = pow2(k as nat);
            assert(num * p == q * top + left) by (nonlinear_arith)
                requires
                    num * p == 2 * (q0 * top) + before,
                    (q == 2 * q0 && left == before) || (q == 2 * q0 + 1 && left == before - top),
            ;
            assert(num * (2 * p) == 2 * (num * p)) by (nonlinear_arith);
        }
        k += 1;
    }
    proof {
        // Both sides are multiples of the last power.
        let left = (natural::value(rest@)) as int;
        assert(top == den * last);
        assert(num * last == q * top + left / 2 && left % 2 == 0);
        let half = left / 2;
        assert(half == (num - q * den) * last) by (nonlinear_arith)
            requires
                num * last == q * top + half,
                top == den * last,
        ;
        let r0 = num - q * den;
        assert(0 <= r0 < den) by (nonlinear_arith)
            requires
                0 <= half,
                half == r0 * last,
                half < den * last,
                last > 0,
        ;
        lemma_quotient(num, den, q as nat, r0 as nat);
        assert(left == (2 * r0) * last) by (nonlinear_arith)
            requires
                left == 2 * half,
                half == r0 * last,
        ;
        assert(left < top <==> 2 * r0 < den) by (nonlinear_arith)
            requires
                left == (2 * r0) * last,
                top == den * last,
                last > 0,
        ;
        assert(left == top <==> 2 * r0 == den) by (nonlinear_arith)
            requires
                left == (2 * r0) * last,
                top == den * last,
                last > 0,
        ;
    }
    let c = compare(&rest, &t);
    (q, c)
}

/// Divides, to the nearest whole number.
fn round_quotient(n: &Vec<u32>, d: &Vec<u32>, bits: u32) -> (r: u64)
    requires
        0 < bits < 64,
        natural::value(n@) < natural::value(d@) * pow2(bits as nat),
    ensures
        r == rounded(natural::value(n@), natural::value(d@)),
{
    let (q, c) = divide(n, d, bits);
    proof {
        lemma_pow2_strictly_increases(bits as nat, 64);
        lemma2_to64_rest();
    }
    match c {
        Comparison::Less => q,
        Comparison::Equal => if q % 2 == 0 {
            q
        } else {
            q + 1
        },
        Comparison::Greater => q + 1,
    }
}

/// Doubles a number as often as one is doubled to give a power of two.
fn spread(out: &mut Vec<u32>, g: &Vec<u32>, Ghost(k): Ghost<nat>)
    requires
        natural::value(g@) == pow2(k),
    ensures
        natural::value(final(out)@) == natural::value(old(out)@) * natural::value(g@),
{
    let ghost before = natural::value(out@);
    let ghost mut j: nat = 0;
    let mut h = natural(1);
    proof {
        lemma2_to64();
        assert(before * 1 == before) by (nonlinear_arith);
        lemma_pow2_pos(k);
    }
    loop
        invariant
            natural::value(g@) == pow2(k),
            natural::value(h@) == pow2(j),
            j <= k,
            natural::value(out@) == before * natural::value(h@),
        ensures
            j == k,
        decreases k - j,
    {
        proof {
            if j < k {
                lemma_pow2_strictly_increases(j, k);
            }
        }
        match compare(&h, g) {
            Comparison::Less => {},
            _ => {
                break ;
            },
        }
        let ghost hv = natural::value(h@);
        scale(&mut h, 2, 0);
        scale(out, 2, 0);
        proof {
            lemma_pow2_unfold((j + 1) as nat);
            assert(before * hv * 2 == before * (hv * 2)) by (nonlinear_arith);
            j = j + 1;
        }
    }
}

/// The double nearest to a quotient.
fn nearest_of(num: &Vec<u32>, den: &Vec<u32>) -> (r: Vec<u32>)
    requires
        natural::value(den@) > 0,
    ensures
        natural::value(r@) == nearest(natural::value(num@), natural::value(den@)),
{
    let mut n = copy(num);
    shift(&mut n, 1074);
    let ghost nv = natural::value(n@);
    let ghost den0 = natural::value(den@);
    let mut d = copy(den);
    let mut t = copy(den);
    shift(&mut t, 53);
    let mut g = natural(1);
    let ghost mut k: nat = 0;
    proof {
        lemma2_to64();
        lemma2_to64_rest();
        assert(den0 * 1 == den0) by (nonlinear_arith);
        assert(1 * granule(nv, den0) == granule(nv, den0)) by (nonlinear_arith);
    }
    loop
        invariant_except_break
            den0 > 0,
            nv == natural::value(n@),
            natural::value(g@) == pow2(k),
            natural::value(d@) == den0 * pow2(k),
            natural::value(t@) == natural::value(d@) * SIGNIFICANDS,
            granule(nv, den0) == pow2(k) * granule(nv, natural::value(d@)),
        ensures
            nv == natural::value(n@),
            natural::value(g@) == pow2(k),
            natural::value(d@) == den0 * pow2(k),
            nv < natural::value(d@) * SIGNIFICANDS,
            granule(nv, den0) == pow2(k),
        decreases
                (if nv >= natural::value(t@) {
                    nv - natural::value(t@) + 1
                } else {
                    0
                }),
    {
        proof {
            lemma_pow2_pos(k);
            let dv = natural::value(d@);
            assert(dv > 0) by (nonlinear_arith)
                requires
                    dv == den0 * pow2(k),
                    den0 > 0,
                    pow2(k) > 0,
            ;
            assert(dv * SIGNIFICANDS == SIGNIFICANDS as nat * dv) by (nonlinear_arith);
        }
        match compare(&n, &t) {
            Comparison::Less => {
                proof {
                    assert(granule(nv, natural::value(d@)) == 1);
                    let p = pow2(k);
                    assert(p * 1 == p) by (nonlinear_arith);
                }
                break ;
            },
            _ => {},
        }
        let ghost dv = natural::value(d@);
        proof {
            lemma_pow2_unfold((k + 1) as nat);
        }
        scale(&mut d, 2, 0);
        scale(&mut t, 2, 0);
        scale(&mut g, 2, 0);
        proof {
            let p = pow2(k);
            let s = SIGNIFICANDS as int;
            assert(den0 * p * 2 == den0 * (2 * p)) by (nonlinear_arith);
            assert(dv * s * 2 == (dv * 2) * s) by (nonlinear_arith);
            assert(dv * s > 0) by (nonlinear_arith)
                requires
                    dv > 0,
                    s > 0,
            ;
            let more = granule(nv, 2 * dv);
            assert(granule(nv, dv) == 2 * more);
            assert(p * (2 * more) == (2 * p) * more) by (nonlinear_arith);
            k = k + 1;
        }
    }
    proof {
        lemma2_to64();
        lemma2_to64_rest();
    }
    let q = round_quotient(&n, &d, 53);
    let mut out = natural(q);
    spread(&mut out, &g, Ghost(k));
    out
}

/// One as a count of steps.
fn one() -> (r: Vec<u32>)
    ensures
        natural::value(r@) == unit(),
{
    let mut u = natural(1);
    shift(&mut u, 1074);
    assert(1 * unit() == unit()) by (nonlinear_arith);
    u
}

/// A double is at most twice the quotient that it is nearest to.
proof fn lemma_nearest_bound(num: nat, den: nat)
    requires
        den > 0,
    ensures
        nearest(num, den) * den <= 2 * (num * unit()),
{
    let n = num * unit();
    let g = granule(n, den);
    lemma_granule_positive(n, den);
    let d = den * g;
    assert(d > 0) by (nonlinear_arith)
        requires
            d == den * g,
            den > 0,
            g > 0,
    ;
    let q = n / d;
    let r = n % d;
    vstd::arithmetic::div_mod::lemma_fundamental_div_mod(n as int, d as int);
    let m = rounded(n, d);
    assert(m * d <= 2 * n) by (nonlinear_arith)
        requires
            n == d * q + r,
            0 <= r < d,
            (m == q && 2 * r <= d) || (m == q + 1 && 2 * r >= d),
            d > 0,
            q >= 0,
    {
        if m == q {
            assert(m * d == d * q);
        } else {
            assert(m * d == d * q + d);
            assert(d * q >= 0);
        }
    }
    assert((m * g) * den == m * (den * g)) by (nonlinear_arith);
}

proof fn lemma_granule_positive(n: nat, d: nat)
    ensures
        granule(n, d) > 0,
    decreases
            (if n >= SIGNIFICANDS as nat * d {
                n - SIGNIFICANDS as nat * d + 1
            } else {
                0
            }),
{
    if d == 0 || n < SIGNIFICANDS as nat * d {
    } else {
        lemma_granule_positive(n, 2 * d);
    }
}

/// A double, divided by a thousand while it is one at least, four times at most, and how often it
/// was.
pub open spec fn reduced(x: nat, times: nat) -> (nat, nat)
    decreases 4 - times,
{
    if times < 4 && x >= 1000 * unit() {
        reduced(over(x, 1000), times + 1)
    } else {
        (x, times)
    }
}

/// How often a number is divided by a thousand to be shown, and what is left of it, in tenths.
pub open spec fn shown(n: nat) -> (nat, nat) {
    let (x, times) = reduced(of_whole(n), 0);
    (times, rounded(10 * x, unit()))
}

proof fn lemma_over_shrinks(x: nat, limit: nat)
    requires
        x <= limit * unit(),
    ensures
        500 * over(x, 1000) <= limit * unit(),
{
    lemma_unit();
    let u = unit();
    let y = over(x, 1000);
    assert(1000 * u > 0);
    lemma_nearest_bound(x, 1000 * u);
    assert(500 * y <= x) by (nonlinear_arith)
        requires
            y * (1000 * u) <= 2 * (x * u),
            u > 0,
    ;
}

/// How often a number is divided by a thousand to be shown, and what is left of it, in tenths,
/// where it is divided at all.
pub fn show(n: u64) -> (r: Option<(u64, u64)>)
    ensures
        match r {
            None => shown(n as nat).0 == 0,
            Some((times, tenths)) => times > 0 && shown(n as nat) == (times as nat, tenths as nat),
        },
        r matches Some((times, _)) ==> times <= 4,
{
    let whole = natural(n);
    let first = natural(1);
    let mut x = nearest_of(&whole, &first);
    let ghost start = natural::value(x@);
    let mut times: u64 = 0;
    let u = one();
    let mut thousand = copy(&u);
    scale(&mut thousand, 1000, 0);
    proof {
        lemma_nearest_bound(n as nat, 1);
        let un = unit();
        assert(start <= 0x2_0000_0000_0000_0000 * un) by (nonlinear_arith)
            requires
                start * 1 <= 2 * (n * un),
                0 <= n <= 0xffff_ffff_ffff_ffff,
                un >= 0,
        ;
    }
    while times < 4 && !matches!(compare(&x, &thousand), Comparison::Less)
        invariant
            start == of_whole(n as nat),
            times <= 4,
            natural::value(thousand@) == 1000 * unit(),
            natural::value(x@) <= 0x2_0000_0000_0000_0000 * unit(),
            times > 0 ==> 500 * natural::value(x@) <= 0x2_0000_0000_0000_0000 * unit(),
            reduced(start, 0) == reduced(natural::value(x@), times as nat),
        decreases 4 - times,
    {
        proof {
            lemma_unit();
            lemma_over_shrinks(natural::value(x@), 0x2_0000_0000_0000_0000);
        }
        x = nearest_of(&x, &thousand);
        times += 1;
    }
    if times == 0 {
        return None;
    }
    scale(&mut x, 10, 0);
    proof {
        lemma_unit();
        lemma2_to64_rest();
        let un = unit();
        let v = natural::value(x@);
        assert(v < un * pow2(63)) by (nonlinear_arith)
            requires
                50 * v <= 0x2_0000_0000_0000_0000 * un,
                pow2(63) == 0x8000_0000_0000_0000,
                un > 0,
        ;
    }
    let tenths = round_quotient(&x, &u, 63);
    Some((times, tenths))
}

/// The double nearest to a decimal number, some of whose digits stand after the point, times a
/// scale, without its fraction.
pub open spec fn scaled_decimal(digits: nat, places: nat, scale: nat) -> u64 {
    truncated(times(nearest(digits, vstd::arithmetic::power::pow(10, places) as nat), scale))
}

/// A natural number as 64 bits hold it, over one.
fn truncate(x: &Vec<u32>) -> (r: u64)
    ensures
        r == truncated(natural::value(x@)),
{
    let u = one();
    let mut top = copy(&u);
    shift(&mut top, 64);
    let ghost un = unit();
    let ghost v = natural::value(x@);
    proof {
        lemma_unit();
        lemma2_to64();
        lemma2_to64_rest();
        vstd::arithmetic::div_mod::lemma_fundamental_div_mod(v as int, un as int);
        let q = v / un;
        assert(v < un * 0x1_0000_0000_0000_0000 <==> q <= 0xffff_ffff_ffff_ffff)
            by (nonlinear_arith)
            requires
                v == un * q + v % un,
                0 <= v % un < un,
        ;
    }
    match compare(x, &top) {
        Comparison::Less => {
            let (q, _) = divide(x, &u, 64);
            q
        },
        _ => u64::MAX,
    }
}

/// A decimal number times a scale, computed as doubles are.
pub fn scale_decimal(digits: &Vec<u32>, places: usize, by: u64) -> (r: u64)
    ensures
        r == scaled_decimal(natural::value(digits@), places as nat, by as nat),
{
    let mut den = natural(1);
    let mut i: usize = 0;
    proof {
        vstd::arithmetic::power::lemma_pow0(10);
    }
    while i < places
        invariant
            i <= places,
            natural::value(den@) == vstd::arithmetic::power::pow(10, i as nat),
        decreases places - i,
    {
        scale(&mut den, 10, 0);
        proof {
            reveal(vstd::arithmetic::power::pow);
        }
        i += 1;
    }
    proof {
        vstd::arithmetic::power::lemma_pow_positive(10, places as nat);
    }
    let x = nearest_of(digits, &den);
    let mut product = copy(&x);
    multiply(&mut product, by);
    let u = one();
    proof {
        lemma_unit();
    }
    let y = nearest_of(&product, &u);
    truncate(&y)
}

/// The double that so many nanoseconds are in seconds: whole seconds and their fraction are added.
pub open spec fn seconds(nanos: nat) -> nat {
    nearest(
        of_whole(nanos / 1_000_000_000) + over(of_whole(nanos % 1_000_000_000), 1_000_000_000),
        unit(),
    )
}

/// So many nanoseconds in fractions of a second.
pub open spec fn fractions(nanos: nat, per_second: nat) -> nat {
    rounded(per_second * seconds(nanos), unit())
}

/// So many nanoseconds in tenths or hundredths of a second.
pub fn round_seconds(nanos: u64, per_second: u32) -> (r: u64)
    requires
        per_second <= 100,
    ensures
        r == fractions(nanos as nat, per_second as nat),
{
    let first = natural(1);
    let u = one();
    let whole = nanos / 1_000_000_000;
    let part = nanos % 1_000_000_000;
    let mut x = nearest_of(&natural(whole), &first);
    let p = nearest_of(&natural(part), &first);
    let mut giga = copy(&u);
    scale(&mut giga, 1_000_000_000, 0);
    proof {
        lemma_unit();
    }
    let y = nearest_of(&p, &giga);
    proof {
        let un = unit();
        let xv = natural::value(x@);
        let pv = natural::value(p@);
        let yv = natural::value(y@);
        lemma_nearest_bound(whole as nat, 1);
        lemma_nearest_bound(part as nat, 1);
        lemma_nearest_bound(pv, 1_000_000_000 * un);
        assert(xv <= 0x1_0000_0000_0 * un) by (nonlinear_arith)
            requires
                xv * 1 <= 2 * (whole * un),
                0 <= whole <= 18_446_744_074,
                un > 0,
        ;
        assert(pv <= 2_000_000_000 * un) by (nonlinear_arith)
            requires
                pv * 1 <= 2 * (part * un),
                0 <= part < 1_000_000_000,
                un > 0,
        ;
        assert(yv <= 4 * un) by (nonlinear_arith)
            requires
                yv * (1_000_000_000 * un) <= 2 * (pv * un),
                pv <= 2_000_000_000 * un,
                un > 0,
        ;
    }
    x = sum(&x, &y);
    let ghost both = natural::value(x@);
    let mut z = nearest_of(&x, &u);
    proof {
        let un = unit();
        let zv = natural::value(z@);
        lemma_nearest_bound(both, un);
        assert(zv <= 2 * both) by (nonlinear_arith)
            requires
                zv * un <= 2 * (both * un),
                un > 0,
        ;
    }
    scale(&mut z, per_second, 0);
    proof {
        let un = unit();
        let v = natural::value(z@);
        lemma2_to64_rest();
        let zv = nearest(both, un);
        assert(v <= 100 * zv) by (nonlinear_arith)
            requires
                v == zv * per_second + 0,
                0 <= per_second <= 100,
                zv >= 0,
        ;
        assert(per_second * zv == zv * per_second) by (nonlinear_arith);
        assert(v < un * pow2(63)) by (nonlinear_arith)
            requires
                v <= 100 * (2 * (0x1_0000_0000_0 * un + 4 * un)),
                pow2(63) == 0x8000_0000_0000_0000,
                un > 0,
        ;
    }
    round_quotient(&z, &u, 63)
}

} // verus!
