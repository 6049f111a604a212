//! Products of two 128-bit numbers, held in two words, and their quotients.

use vstd::arithmetic::div_mod::lemma_fundamental_div_mod_converse;
use vstd::arithmetic::power2::{lemma2_to64, lemma_pow2_adds, lemma_pow2_pos, lemma_pow2_unfold, pow2};
use vstd::prelude::*;

verus! {

/// Two to the power of 64.
pub const HALF: u128 = 0x1_0000_0000_0000_0000;

/// Two to the power of 127.
pub const TOP: u128 = 0x8000_0000_0000_0000_0000_0000_0000_0000;

/// Two to the power of 128.
pub open spec fn word() -> nat {
    u128::MAX as nat + 1
}

/// The number that a high and a low word write.
pub open spec fn wide_value(hi: u128, lo: u128) -> nat {
    hi as nat * word() + lo as nat
}

/// An unsigned number of 256 bits, as a high and a low word.
#[derive(Clone, Copy, Debug, PartialEq, Eq, Structural)]
pub struct Wide {
    pub hi: u128,
    pub lo: u128,
}

impl Wide {
    /// The number that the two words write.
    pub open spec fn value(self) -> nat {
        wide_value(self.hi, self.lo)
    }
}

/// A wide number fits in one word exactly when its high word is zero, and is
/// then its low word.
pub proof fn lemma_wide_fits(w: Wide)
    ensures
        (w.hi == 0) == (w.value() <= u128::MAX),
        w.hi == 0 ==> w.value() == w.lo,
        (w.value() == 0) == (w.hi == 0 && w.lo == 0),
{
    assert(w.hi != 0 ==> w.hi * word() >= word()) by (nonlinear_arith)
        requires
            w.hi >= 0,
            word() > 0,
    ;
    assert(w.hi == 0 ==> w.hi * word() == 0) by (nonlinear_arith);
}

/// Two to the power of 256: the first number that two words cannot hold.
pub open spec fn wide_limit() -> nat {
    word() * word()
}

proof fn lemma_half_product(x: u128, y: u128)
    requires
        x < HALF,
        y < HALF,
    ensures
        x * y <= 0xffff_ffff_ffff_fffe_0000_0000_0000_0001,
{
    assert(x * y <= 0xffff_ffff_ffff_ffff * 0xffff_ffff_ffff_ffff) by (nonlinear_arith)
        requires
            0 <= x <= 0xffff_ffff_ffff_ffff,
            0 <= y <= 0xffff_ffff_ffff_ffff,
    ;
}

/// The full product of two words.
pub fn mul_wide(a: u128, b: u128) -> (r: (u128, u128))
    ensures
        wide_value(r.0, r.1) == a as nat * b as nat,
{
    let a1: u128 = a / HALF;
    let a0: u128 = a % HALF;
    let b1: u128 = b / HALF;
    let b0: u128 = b % HALF;
    proof {
        lemma_half_product(a0, b0);
        lemma_half_product(a0, b1);
        lemma_half_product(a1, b0);
        lemma_half_product(a1, b1);
    }
    let p00: u128 = a0 * b0;
    let p01: u128 = a0 * b1;
    let p10: u128 = a1 * b0;
    let p11: u128 = a1 * b1;
    let mid: u128 = p01 % HALF + p10 % HALF + p00 / HALF;
    let lo: u128 = (mid % HALF) * HALF + p00 % HALF;
    let hi: u128 = p11 + p01 / HALF + p10 / HALF + mid / HALF;
    proof {
        let h = HALF as int;
        let w = word() as int;
        let (t01, u01) = (p01 as int / h, p01 as int % h);
        let (t10, u10) = (p10 as int / h, p10 as int % h);
        let (t00, u00) = (p00 as int / h, p00 as int % h);
        let (tm, um) = (mid as int / h, mid as int % h);
        assert(h * h == w);
        assert(a * b == p11 * w + (p01 + p10) * h + p00) by (nonlinear_arith)
            requires
                a == a1 * h + a0,
                b == b1 * h + b0,
                p11 == a1 * b1,
                p01 == a0 * b1,
                p10 == a1 * b0,
                p00 == a0 * b0,
                w == h * h,
        ;
        assert(hi * w + lo == p11 * w + (p01 + p10) * h + p00) by (nonlinear_arith)
            requires
                hi == p11 + t01 + t10 + tm,
                lo == um * h + u00,
                p01 == t01 * h + u01,
                p10 == t10 * h + u10,
                p00 == t00 * h + u00,
                mid == u01 + u10 + t00,
                mid == tm * h + um,
                w == h * h,
        ;
    }
    (hi, lo)
}

/// The quotient of a two-word number by a divisor above its high word, which
/// therefore fits in one word.
pub fn div_wide(hi: u128, lo: u128, d: u128) -> (q: u128)
    requires
        hi < d,
    ensures
        q == wide_value(hi, lo) / (d as nat),
{
    let mut q: u128 = 0;
    let mut r: u128 = hi;
    let mut rest: u128 = lo;
    let mut k: u32 = 0;
    let ghost mut c: nat = 0;
    let ghost mut l: nat = lo as nat;
    proof {
        lemma2_to64();
        lemma_pow2_adds(64, 64);
        assert(pow2(128) == word());
        assert(pow2(0) == 1);
        assert(hi * pow2(0) + c == q * d + r) by (nonlinear_arith)
            requires
                pow2(0) == 1,
                c == 0,
                q == 0,
                r == hi,
        ;
    }
    while k < 128
        invariant
            k <= 128,
            r < d,
            q < pow2(k as nat),
            hi * pow2(k as nat) + c == q * d + r,
            lo == c * pow2((128 - k) as nat) + l,
            l < pow2((128 - k) as nat),
            rest == l * pow2(k as nat),
            pow2(k as nat) * pow2((128 - k) as nat) == word(),
            pow2(0) == 1,
            pow2(128) == word(),
        decreases 128 - k,
    {
        let ghost p = pow2(k as nat);
        let ghost m = pow2((128 - k) as nat);
        let ghost m2 = pow2((127 - k) as nat);
        proof {
            lemma_pow2_unfold((128 - k) as nat);
            lemma_pow2_unfold((k + 1) as nat);
            lemma_pow2_pos(k as nat);
            lemma_pow2_pos((127 - k) as nat);
            assert(m == 2 * m2);
            assert(pow2((k + 1) as nat) == 2 * p);
            assert(p * m2 == TOP) by (nonlinear_arith)
                requires
                    p * m == word(),
                    m == 2 * m2,
                    word() == 2 * TOP,
            ;
            assert((2 * p) * m2 == word()) by (nonlinear_arith)
                requires
                    p * m2 == TOP,
                    word() == 2 * TOP,
            ;
            assert(2 * p <= word()) by (nonlinear_arith)
                requires
                    (2 * p) * m2 == word(),
                    m2 >= 1,
                    p >= 1,
            ;
            assert((l >= m2) == (l * p >= m2 * p)) by (nonlinear_arith)
                requires
                    p >= 1,
            ;
            assert(m2 * p == p * m2) by (nonlinear_arith);
        }
        let bit: u128 = if rest >= TOP { 1 } else { 0 };
        let ghost l2: nat = if bit == 1 { (l - m2) as nat } else { l };
        proof {
            assert(l2 < m2);
            assert(l2 * p == rest - bit * TOP) by (nonlinear_arith)
                requires
                    rest == l * p,
                    p * m2 == TOP,
                    l2 == l - bit * m2,
            ;
            assert(l2 * p < TOP) by (nonlinear_arith)
                requires
                    l2 < m2,
                    p * m2 == TOP,
                    p >= 1,
            ;
            assert(l2 * (2 * p) == 2 * (l2 * p)) by (nonlinear_arith);
            assert(c * m + l == (2 * c + bit) * m2 + l2) by (nonlinear_arith)
                requires
                    m == 2 * m2,
                    l2 == l - bit * m2,
            ;
            assert(hi * (2 * p) + (2 * c + bit) == 2 * (q * d) + (2 * r + bit)) by (nonlinear_arith)
                requires
                    hi * p + c == q * d + r,
            ;
            assert((2 * q + 1) * d == 2 * (q * d) + d) by (nonlinear_arith);
            assert((2 * q) * d == 2 * (q * d)) by (nonlinear_arith);
        }
        rest = if bit == 1 { (rest - TOP) * 2 } else { rest * 2 };
        let gap: u128 = d - r;
        if r + bit >= gap {
            r = r + bit - gap;
            q = q * 2 + 1;
        } else {
            r = r + r + bit;
            q = q * 2;
        }
        k += 1;
        proof {
            c = 2 * c + bit as nat;
            l = l2;
        }
    }
    proof {
        assert(l == 0);
        assert(c * pow2(0) == c) by (nonlinear_arith)
            requires
                pow2(0) == 1,
        ;
        lemma_fundamental_div_mod_converse(
            wide_value(hi, lo) as int,
            d as int,
            q as int,
            r as int,
        );
    }
    q
}

} // verus!
