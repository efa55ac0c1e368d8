//! Unsigned 256-bit numbers as two 128-bit halves: enough for exact
//! products of 128-bit values and sums of such products.
use vstd::prelude::*;

verus! {

pub open spec fn base64() -> int {
    0x1_0000_0000_0000_0000
}

pub open spec fn base128() -> int {
    base64() * base64()
}

/// A number below 2^256.
#[derive(Debug, Clone, Copy)]
pub struct U256 {
    pub hi: u128,
    pub lo: u128,
}

impl U256 {
    pub open spec fn value(&self) -> int {
        self.hi * base128() + self.lo
    }
}

proof fn lemma_split(a: u128)
    ensures
        a == (a / 0x1_0000_0000_0000_0000) * base64() + a % 0x1_0000_0000_0000_0000,
        a / 0x1_0000_0000_0000_0000 < base64(),
        a % 0x1_0000_0000_0000_0000 < base64(),
{
}

/// The exact product `a * b`.
pub fn mul_wide(a: u128, b: u128) -> (r: U256)
    ensures
        r.value() == a * b,
{
    let m: u128 = 0x1_0000_0000_0000_0000;
    let a1 = a / m;
    let a0 = a % m;
    let b1 = b / m;
    let b0 = b % m;
    proof {
        lemma_split(a);
        lemma_split(b);
        assert(a0 * b0 < base128()) by (nonlinear_arith)
            requires a0 < base64(), b0 < base64();
        assert(a0 * b1 < base128()) by (nonlinear_arith)
            requires a0 < base64(), b1 < base64();
        assert(a1 * b0 < base128()) by (nonlinear_arith)
            requires a1 < base64(), b0 < base64();
        assert(a1 * b1 < base128()) by (nonlinear_arith)
            requires a1 < base64(), b1 < base64();
    }
    let p00 = a0 * b0;
    let p01 = a0 * b1;
    let p10 = a1 * b0;
    let p11 = a1 * b1;
    proof {
        lemma_split(p00);
        lemma_split(p01);
        lemma_split(p10);
        lemma_split(p11);
    }
    let r0 = p00 % m;
    let c1 = p00 / m + p01 % m + p10 % m;
    let r1 = c1 % m;
    proof {
        lemma_split(c1);
    }
    let c2 = c1 / m + p01 / m + p10 / m + p11 % m;
    proof {
        assert(a * b == p11 * base128() + (p01 + p10) * base64() + p00) by (nonlinear_arith)
            requires
                a == a1 * base64() + a0,
                b == b1 * base64() + b0,
                p00 == a0 * b0,
                p01 == a0 * b1,
                p10 == a1 * b0,
                p11 == a1 * b1,
                base128() == base64() * base64(),
        ;
        let q00 = p00 / m;
        let q01 = p01 / m;
        let q10 = p10 / m;
        let q11 = p11 / m;
        let q1 = c1 / m;
        assert(a * b == (q11 * m + c2) * base128() + r1 * m + r0) by (nonlinear_arith)
            requires
                a * b == p11 * base128() + (p01 + p10) * base64() + p00,
                p00 == q00 * m + r0,
                p01 == q01 * m + p01 % m,
                p10 == q10 * m + p10 % m,
                p11 == q11 * m + p11 % m,
                c1 == q00 + p01 % m + p10 % m,
                c1 == q1 * m + r1,
                c2 == q1 + q01 + q10 + p11 % m,
                base128() == base64() * base64(),
                m == base64(),
                m == 0x1_0000_0000_0000_0000,
        ;
        assert(a * b < base128() * base128()) by (nonlinear_arith)
            requires a <= u128::MAX, b <= u128::MAX, a >= 0, b >= 0, u128::MAX + 1 == base128();
        assert(q11 * m + c2 < base128()) by (nonlinear_arith)
            requires
                a * b == (q11 * m + c2) * base128() + r1 * m + r0,
                a * b < base128() * base128(),
                r0 >= 0, r1 >= 0, m > 0,
                q11 * m + c2 >= 0,
                base128() > 0,
        ;
        assert(r1 * m + r0 < base128()) by (nonlinear_arith)
            requires r1 < m, r0 < m, base128() == m * m, r1 >= 0, r0 >= 0;
    }
    let hi = p11 / m * m + c2;
    let lo = r1 * m + r0;
    U256 { hi, lo }
}
/// The exact sum, when it stays below 2^256.
pub fn add_wide(a: U256, b: U256) -> (r: U256)
    requires
        a.value() + b.value() < base128() * base128(),
    ensures
        r.value() == a.value() + b.value(),
{
    if a.lo > u128::MAX - b.lo {
        let lo = a.lo - (u128::MAX - b.lo) - 1;
        proof {
            assert(a.hi + b.hi + 1 < base128()) by (nonlinear_arith)
                requires
                    a.hi * base128() + a.lo + b.hi * base128() + b.lo < base128() * base128(),
                    a.lo + b.lo >= base128(),
                    a.lo < base128(), b.lo < base128(),
            ;
        }
        U256 { hi: a.hi + b.hi + 1, lo }
    } else {
        proof {
            assert(a.hi + b.hi < base128()) by (nonlinear_arith)
                requires
                    a.hi * base128() + a.lo + b.hi * base128() + b.lo < base128() * base128(),
                    a.lo >= 0, b.lo >= 0,
            ;
        }
        U256 { hi: a.hi + b.hi, lo: a.lo + b.lo }
    }
}

/// Whether `a` is greater than `b`.
pub fn gt_wide(a: U256, b: U256) -> (r: bool)
    ensures
        r == (a.value() > b.value()),
{
    proof {
        if a.hi > b.hi {
            assert(a.value() > b.value()) by (nonlinear_arith)
                requires a.hi >= b.hi + 1, a.lo >= 0, b.lo < base128(),
                    a.value() == a.hi * base128() + a.lo, b.value() == b.hi * base128() + b.lo;
        } else if a.hi < b.hi {
            assert(a.value() < b.value()) by (nonlinear_arith)
                requires b.hi >= a.hi + 1, b.lo >= 0, a.lo < base128(),
                    a.value() == a.hi * base128() + a.lo, b.value() == b.hi * base128() + b.lo;
        }
    }
    a.hi > b.hi || (a.hi == b.hi && a.lo > b.lo)
}

pub fn zero_wide() -> (r: U256)
    ensures
        r.value() == 0,
{
    U256 { hi: 0, lo: 0 }
}

} // verus!
