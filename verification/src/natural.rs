//! Natural numbers of any size, in limbs of 32 bits.
use vstd::prelude::*;

verus! {

/// What a limb holds.
pub const BASE: u64 = 0x1_0000_0000;

/// The number that limbs stand for, the lowest first.
pub open spec fn value(limbs: Seq<u32>) -> nat
    decreases limbs.len(),
{
    if limbs.len() == 0 {
        0
    } else {
        limbs[0] as nat + BASE as nat * value(limbs.drop_first())
    }
}

/// The number that the limbs from a position on stand for.
pub open spec fn tail(limbs: Seq<u32>, i: int) -> nat {
    if i < limbs.len() {
        value(limbs.skip(i))
    } else {
        0
    }
}

/// The limb at a position, or zero.
pub open spec fn limb(limbs: Seq<u32>, i: int) -> nat {
    if i < limbs.len() {
        limbs[i] as nat
    } else {
        0
    }
}

proof fn lemma_tail(limbs: Seq<u32>, i: int)
    requires
        0 <= i,
    ensures
        tail(limbs, i) == limb(limbs, i) + BASE as nat * tail(limbs, i + 1),
        tail(limbs, 0) == value(limbs),
{
    assert(limbs.skip(0) =~= limbs);
    assert(BASE as nat * 0 == 0) by (nonlinear_arith);
    if i < limbs.len() {
        assert(limbs.skip(i).drop_first() =~= limbs.skip(i + 1));
        if i + 1 == limbs.len() {
            assert(limbs.skip(i + 1) =~= Seq::<u32>::empty());
            assert(value(limbs.skip(i + 1)) == 0);
        }
    }
}

/// A number as limbs.
pub fn natural(n: u64) -> (r: Vec<u32>)
    ensures
        value(r@) == n,
{
    let mut out: Vec<u32> = Vec::new();
    out.push((n % BASE) as u32);
    out.push((n / BASE) as u32);
    proof {
        lemma_tail(out@, 0);
        lemma_tail(out@, 1);
    }
    out
}

fn scale_from(v: &mut Vec<u32>, i: usize, m: u32, carry: u32)
    requires
        i <= old(v)@.len(),
    ensures
        final(v)@.len() >= old(v)@.len(),
        forall|j: int| 0 <= j < i ==> final(v)@[j] == old(v)@[j],
        tail(final(v)@, i as int) == tail(old(v)@, i as int) * m + carry,
    decreases old(v)@.len() - i,
{
    let ghost before = v@;
    if i == v.len() {
        if carry > 0 {
            v.push(carry);
            proof {
                lemma_tail(v@, i as int);
            }
        }
        assert(tail(before, i as int) * m == 0) by (nonlinear_arith)
            requires
                tail(before, i as int) == 0,
        ;
    } else {
        let x = v[i];
        assert(x * m <= 0xffff_fffe_0000_0001) by (nonlinear_arith)
            requires
                0 <= x <= 0xffff_ffff,
                0 <= m <= 0xffff_ffff,
        ;
        let w: u64 = x as u64 * m as u64 + carry as u64;
        let lo = (w % BASE) as u32;
        let hi = (w / BASE) as u32;
        v.set(i, lo);
        let ghost middle = v@;
        scale_from(v, i + 1, m, hi);
        proof {
            lemma_tail(before, i as int);
            lemma_tail(v@, i as int);
            assert(middle.skip(i + 1) =~= before.skip(i + 1));
            let t = tail(before, i + 1);
            assert(tail(middle, i + 1) == t);
            assert(v@[i as int] == lo);
            let b = BASE as int;
            assert(lo + b * (t * m + hi) == (x + b * t) * m + carry) by (nonlinear_arith)
                requires
                    lo + b * hi == x * m + carry,
            ;
        }
    }
}

/// Multiplies a number and adds to it.
pub fn scale(v: &mut Vec<u32>, m: u32, add: u32)
    ensures
        value(final(v)@) == value(old(v)@) * m + add,
{
    proof {
        lemma_tail(v@, 0);
    }
    scale_from(v, 0, m, add);
    proof {
        lemma_tail(v@, 0);
    }
}

/// Doubles a number some times.
pub fn shift(v: &mut Vec<u32>, times: u32)
    ensures
        value(final(v)@) == value(old(v)@) * vstd::arithmetic::power2::pow2(times as nat),
{
    let ghost before = value(v@);
    let mut i: u32 = 0;
    proof {
        vstd::arithmetic::power2::lemma2_to64();
    }
    while i < times
        invariant
            i <= times,
            value(v@) == before * vstd::arithmetic::power2::pow2(i as nat),
        decreases times - i,
    {
        scale(v, 2, 0);
        proof {
            vstd::arithmetic::power2::lemma_pow2_unfold((i + 1) as nat);
            let p = vstd::arithmetic::power2::pow2(i as nat);
            assert(before * p * 2 == before * (2 * p)) by (nonlinear_arith);
        }
        i += 1;
    }
}

/// How one number compares to another.
#[derive(Clone, Copy, Debug, PartialEq, Eq, Structural)]
pub enum Comparison {
    Less,
    Equal,
    Greater,
}

/// How one number compares to another.
pub open spec fn comparison(a: nat, b: nat) -> Comparison {
    if a < b {
        Comparison::Less
    } else if a == b {
        Comparison::Equal
    } else {
        Comparison::Greater
    }
}

fn limb_at(v: &Vec<u32>, i: usize) -> (r: u32)
    ensures
        r == limb(v@, i as int),
{
    if i < v.len() {
        v[i]
    } else {
        0
    }
}

fn compare_from(a: &Vec<u32>, b: &Vec<u32>, i: usize) -> (r: Comparison)
    requires
        i < usize::MAX,
    ensures
        r == comparison(tail(a@, i as int), tail(b@, i as int)),
    decreases a@.len() + b@.len() - i,
{
    if i >= a.len() && i >= b.len() {
        return Comparison::Equal;
    }
    let la = a.len();
    let lb = b.len();
    proof {
        lemma_tail(a@, i as int);
        lemma_tail(b@, i as int);
    }
    let x = limb_at(a, i);
    let y = limb_at(b, i);
    if i + 1 >= la && i + 1 >= lb {
        if x < y {
            return Comparison::Less;
        } else if x == y {
            return Comparison::Equal;
        } else {
            return Comparison::Greater;
        }
    }
    match compare_from(a, b, i + 1) {
        Comparison::Equal => if x < y {
            Comparison::Less
        } else if x == y {
            Comparison::Equal
        } else {
            Comparison::Greater
        },
        other => other,
    }
}

/// How one number compares to another.
pub fn compare(a: &Vec<u32>, b: &Vec<u32>) -> (r: Comparison)
    ensures
        r == comparison(value(a@), value(b@)),
{
    proof {
        lemma_tail(a@, 0);
        lemma_tail(b@, 0);
    }
    compare_from(a, b, 0)
}

fn subtract_from(a: &mut Vec<u32>, b: &Vec<u32>, i: usize, borrow: u32)
    requires
        borrow <= 1,
        tail(b@, i as int) + borrow <= tail(old(a)@, i as int),
    ensures
        final(a)@.len() == old(a)@.len(),
        forall|j: int| 0 <= j < i && j < old(a)@.len() ==> final(a)@[j] == old(a)@[j],
        tail(final(a)@, i as int) == tail(old(a)@, i as int) - tail(b@, i as int) - borrow,
    decreases old(a)@.len() - i,
{
    if i >= a.len() {
        return;
    }
    let ghost before = a@;
    let x = a[i] as u64;
    let y = limb_at(b, i) as u64 + borrow as u64;
    proof {
        lemma_tail(before, i as int);
        lemma_tail(b@, i as int);
    }
    if x >= y {
        a.set(i, (x - y) as u32);
        assert(a@.skip(i + 1) =~= before.skip(i + 1));
        subtract_from(a, b, i + 1, 0);
    } else {
        a.set(i, (x + BASE - y) as u32);
        assert(a@.skip(i + 1) =~= before.skip(i + 1));
        subtract_from(a, b, i + 1, 1);
    }
    proof {
        lemma_tail(a@, i as int);
    }
}

/// Subtracts a number.
pub fn subtract(a: &mut Vec<u32>, b: &Vec<u32>)
    requires
        value(b@) <= value(old(a)@),
    ensures
        value(final(a)@) == value(old(a)@) - value(b@),
{
    proof {
        lemma_tail(a@, 0);
        lemma_tail(b@, 0);
    }
    subtract_from(a, b, 0, 0);
    proof {
        lemma_tail(a@, 0);
    }
}

/// Copies a number.
pub fn copy(a: &Vec<u32>) -> (r: Vec<u32>)
    ensures
        r@ == a@,
{
    let mut out: Vec<u32> = Vec::new();
    let mut i: usize = 0;
    while i < a.len()
        invariant
            i <= a@.len(),
            out@ =~= a@.take(i as int),
        decreases a@.len() - i,
    {
        out.push(a[i]);
        i += 1;
    }
    out
}

fn plus_from(a: &mut Vec<u32>, b: &Vec<u32>, i: usize, carry: u32)
    requires
        carry <= 1,
        i <= old(a)@.len(),
        b@.len() <= old(a)@.len(),
    ensures
        final(a)@.len() >= old(a)@.len(),
        forall|j: int| 0 <= j < i ==> final(a)@[j] == old(a)@[j],
        tail(final(a)@, i as int) == tail(old(a)@, i as int) + tail(b@, i as int) + carry,
    decreases old(a)@.len() - i,
{
    let ghost before = a@;
    if i == a.len() {
        if carry > 0 {
            a.push(carry);
            proof {
                lemma_tail(a@, i as int);
            }
        }
        return;
    }
    let w: u64 = a[i] as u64 + limb_at(b, i) as u64 + carry as u64;
    proof {
        lemma_tail(before, i as int);
        lemma_tail(b@, i as int);
    }
    a.set(i, (w % BASE) as u32);
    assert(a@.skip(i + 1) =~= before.skip(i + 1));
    plus_from(a, b, i + 1, (w / BASE) as u32);
    proof {
        lemma_tail(a@, i as int);
    }
}

/// The sum of two numbers.
pub fn sum(a: &Vec<u32>, b: &Vec<u32>) -> (r: Vec<u32>)
    ensures
        value(r@) == value(a@) + value(b@),
{
    proof {
        lemma_tail(a@, 0);
        lemma_tail(b@, 0);
    }
    if a.len() < b.len() {
        let mut out = copy(b);
        plus_from(&mut out, a, 0, 0);
        proof {
            lemma_tail(out@, 0);
        }
        out
    } else {
        let mut out = copy(a);
        plus_from(&mut out, b, 0, 0);
        proof {
            lemma_tail(out@, 0);
        }
        out
    }
}

/// Multiplies a number.
pub fn multiply(a: &mut Vec<u32>, m: u64)
    ensures
        value(final(a)@) == value(old(a)@) * m,
{
    let ghost before = value(a@);
    let lo = (m % BASE) as u32;
    let hi = (m / BASE) as u32;
    let mut high = copy(a);
    scale(&mut high, hi, 0);
    shift(&mut high, 32);
    scale(a, lo, 0);
    *a = sum(a, &high);
    proof {
        vstd::arithmetic::power2::lemma2_to64();
        assert(before * lo + before * hi * 0x1_0000_0000 == before * m) by (nonlinear_arith)
            requires
                lo + hi * 0x1_0000_0000 == m,
        ;
    }
}

} // verus!
