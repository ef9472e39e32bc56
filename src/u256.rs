use vstd::prelude::*;

verus! {

/// The radix of one limb.
pub open spec fn limb_base() -> int {
    0x1_0000_0000_0000_0000
}

/// An unsigned 256-bit integer held as four 64-bit limbs, least significant first.
#[derive(Clone, Copy, Debug, PartialEq, Eq, Structural)]
pub struct U256 {
    pub w0: u64,
    pub w1: u64,
    pub w2: u64,
    pub w3: u64,
}

/// The largest value a `U256` can hold, plus one.
pub open spec fn u256_bound() -> int {
    limb_base() * limb_base() * limb_base() * limb_base()
}

impl U256 {
    /// The number this value stands for.
    pub open spec fn value(self) -> nat {
        (self.w0 + limb_base() * (self.w1 + limb_base() * (self.w2 + limb_base() * self.w3))) as nat
    }

    pub fn zero() -> (r: U256)
        ensures
            r.value() == 0,
    {
        U256 { w0: 0, w1: 0, w2: 0, w3: 0 }
    }

    pub fn from_u64(x: u64) -> (r: U256)
        ensures
            r.value() == x,
    {
        U256 { w0: x, w1: 0, w2: 0, w3: 0 }
    }

    /// Compares two values as numbers.
    pub fn le(&self, other: &U256) -> (r: bool)
        ensures
            r == (self.value() <= other.value()),
    {
        proof {
            lemma_value_order(*self, *other);
        }
        if self.w3 != other.w3 {
            self.w3 < other.w3
        } else if self.w2 != other.w2 {
            self.w2 < other.w2
        } else if self.w1 != other.w1 {
            self.w1 < other.w1
        } else {
            self.w0 <= other.w0
        }
    }
}

impl U256 {
    /// The product with `m`, as the low 256 bits and the limb above them.
    pub fn mul_u64(&self, m: u64) -> (r: (U256, u64))
        ensures
            r.0.value() + r.1 * u256_bound() == self.value() * m,
    {
        let b: u128 = 0x1_0000_0000_0000_0000;
        proof {
            lemma_mul_limb(self.w0, m);
            lemma_mul_limb(self.w1, m);
            lemma_mul_limb(self.w2, m);
            lemma_mul_limb(self.w3, m);
        }
        let t0 = self.w0 as u128 * m as u128;
        let r0 = (t0 % b) as u64;
        let c0 = (t0 / b) as u64;
        let t1 = self.w1 as u128 * m as u128 + c0 as u128;
        let r1 = (t1 % b) as u64;
        let c1 = (t1 / b) as u64;
        let t2 = self.w2 as u128 * m as u128 + c1 as u128;
        let r2 = (t2 % b) as u64;
        let c2 = (t2 / b) as u64;
        let t3 = self.w3 as u128 * m as u128 + c2 as u128;
        let r3 = (t3 % b) as u64;
        let c3 = (t3 / b) as u64;
        let r = U256 { w0: r0, w1: r1, w2: r2, w3: r3 };
        proof {
            lemma_carry_chain(
                self.w0 as int, self.w1 as int, self.w2 as int, self.w3 as int, m as int,
                r0 as int, r1 as int, r2 as int, r3 as int,
                c0 as int, c1 as int, c2 as int, c3 as int, limb_base(),
            );
        }
        (r, c3)
    }

    /// The quotient by `d` of the 320-bit number with `hi` above the bits of `self`.
    pub fn div_wide(&self, hi: u64, d: u64) -> (r: U256)
        requires
            0 < d,
            hi < d,
        ensures
            r.value() == (hi * u256_bound() + self.value()) / (d as int),
    {
        let b: u128 = 0x1_0000_0000_0000_0000;
        let cur3 = hi as u128 * b + self.w3 as u128;
        let q3 = (cur3 / d as u128) as u64;
        let m3 = (cur3 % d as u128) as u64;
        let cur2 = m3 as u128 * b + self.w2 as u128;
        let q2 = (cur2 / d as u128) as u64;
        let m2 = (cur2 % d as u128) as u64;
        let cur1 = m2 as u128 * b + self.w1 as u128;
        let q1 = (cur1 / d as u128) as u64;
        let m1 = (cur1 % d as u128) as u64;
        let cur0 = m1 as u128 * b + self.w0 as u128;
        let q0 = (cur0 / d as u128) as u64;
        let m0 = (cur0 % d as u128) as u64;
        let r = U256 { w0: q0, w1: q1, w2: q2, w3: q3 };
        proof {
            lemma_div_step(hi as int, self.w3 as int, d as int);
            lemma_div_step(m3 as int, self.w2 as int, d as int);
            lemma_div_step(m2 as int, self.w1 as int, d as int);
            lemma_div_step(m1 as int, self.w0 as int, d as int);
            let n = hi * u256_bound() + self.value();
            lemma_borrow_chain(
                self.w0 as int, self.w1 as int, self.w2 as int, self.w3 as int, hi as int, d as int,
                q0 as int, q1 as int, q2 as int, q3 as int,
                m0 as int, m1 as int, m2 as int, m3 as int, limb_base(),
            );
            assert(n == r.value() * d + m0);
            vstd::arithmetic::div_mod::lemma_fundamental_div_mod_converse(n, d as int, r.value() as int, m0 as int);
        }
        r
    }
}

proof fn lemma_carry_chain(
    w0: int, w1: int, w2: int, w3: int, m: int,
    r0: int, r1: int, r2: int, r3: int,
    c0: int, c1: int, c2: int, c3: int, bb: int,
)
    requires
        w0 * m == r0 + bb * c0,
        w1 * m + c0 == r1 + bb * c1,
        w2 * m + c1 == r2 + bb * c2,
        w3 * m + c2 == r3 + bb * c3,
    ensures
        (r0 + bb * (r1 + bb * (r2 + bb * r3))) + c3 * (bb * bb * bb * bb)
            == (w0 + bb * (w1 + bb * (w2 + bb * w3))) * m,
{
    let x3 = w3 * m;
    let x2 = w2 * m;
    let x1 = w1 * m;
    let x0 = w0 * m;
    assert((w0 + bb * (w1 + bb * (w2 + bb * w3))) * m == x0 + bb * (x1 + bb * (x2 + bb * x3)))
        by (nonlinear_arith)
        requires x3 == w3 * m, x2 == w2 * m, x1 == w1 * m, x0 == w0 * m;
    assert(bb * (x2 + bb * x3) == bb * (r2 + bb * r3) - bb * c1 + bb * bb * bb * c3)
        by (nonlinear_arith)
        requires x2 + c1 == r2 + bb * c2, x3 + c2 == r3 + bb * c3;
    assert(bb * (x1 + bb * (x2 + bb * x3)) == bb * (r1 + bb * (r2 + bb * r3)) - bb * c0 + bb * bb * bb * bb * c3)
        by (nonlinear_arith)
        requires
            bb * (x2 + bb * x3) == bb * (r2 + bb * r3) - bb * c1 + bb * bb * bb * c3,
            x1 + c0 == r1 + bb * c1;
    assert(c3 * (bb * bb * bb * bb) == bb * bb * bb * bb * c3) by (nonlinear_arith);
}

proof fn lemma_borrow_chain(
    w0: int, w1: int, w2: int, w3: int, hi: int, d: int,
    q0: int, q1: int, q2: int, q3: int,
    m0: int, m1: int, m2: int, m3: int, bb: int,
)
    requires
        hi * bb + w3 == q3 * d + m3,
        m3 * bb + w2 == q2 * d + m2,
        m2 * bb + w1 == q1 * d + m1,
        m1 * bb + w0 == q0 * d + m0,
    ensures
        hi * (bb * bb * bb * bb) + (w0 + bb * (w1 + bb * (w2 + bb * w3)))
            == (q0 + bb * (q1 + bb * (q2 + bb * q3))) * d + m0,
{
    let n3 = hi * bb + w3;
    let n2 = n3 * bb + w2;
    let n1 = n2 * bb + w1;
    let n0 = n1 * bb + w0;
    assert(hi * (bb * bb * bb * bb) + (w0 + bb * (w1 + bb * (w2 + bb * w3))) == n0)
        by (nonlinear_arith)
        requires n3 == hi * bb + w3, n2 == n3 * bb + w2, n1 == n2 * bb + w1, n0 == n1 * bb + w0;
    assert(n2 == (q3 * bb + q2) * d + m2) by (nonlinear_arith)
        requires n3 == q3 * d + m3, n2 == n3 * bb + w2, m3 * bb + w2 == q2 * d + m2;
    assert(n1 == ((q3 * bb + q2) * bb + q1) * d + m1) by (nonlinear_arith)
        requires n2 == (q3 * bb + q2) * d + m2, n1 == n2 * bb + w1, m2 * bb + w1 == q1 * d + m1;
    assert(n0 == (((q3 * bb + q2) * bb + q1) * bb + q0) * d + m0) by (nonlinear_arith)
        requires n1 == ((q3 * bb + q2) * bb + q1) * d + m1, n0 == n1 * bb + w0, m1 * bb + w0 == q0 * d + m0;
    assert((((q3 * bb + q2) * bb + q1) * bb + q0) == (q0 + bb * (q1 + bb * (q2 + bb * q3))))
        by (nonlinear_arith);
}

proof fn lemma_mul_limb(w: u64, m: u64)
    ensures
        w * m <= 0xFFFF_FFFF_FFFF_FFFE_0000_0000_0000_0001,
        0 <= w * m,
{
    assert(w * m <= 0xFFFF_FFFF_FFFF_FFFF * 0xFFFF_FFFF_FFFF_FFFF) by (nonlinear_arith)
        requires w <= 0xFFFF_FFFF_FFFF_FFFF, m <= 0xFFFF_FFFF_FFFF_FFFF, w >= 0, m >= 0;
    assert(0 <= w * m) by (nonlinear_arith) requires w >= 0, m >= 0;
}

/// One step of long division: the quotient digit fits in a limb.
proof fn lemma_div_step(rem: int, w: int, d: int)
    requires
        0 <= rem < d,
        d < limb_base(),
        0 <= w < limb_base(),
    ensures
        (rem * limb_base() + w) / d < limb_base(),
        rem * limb_base() + w == ((rem * limb_base() + w) / d) * d + (rem * limb_base() + w) % d,
        0 <= (rem * limb_base() + w) % d < d,
        0 <= (rem * limb_base() + w) / d,
        rem * limb_base() + w < limb_base() * limb_base(),
{
    let bb = limb_base();
    let n = rem * bb + w;
    vstd::arithmetic::div_mod::lemma_fundamental_div_mod(n, d);
    assert(n < d * bb) by (nonlinear_arith)
        requires n == rem * bb + w, rem + 1 <= d, w < bb, bb > 0;
    assert(n < bb * bb) by (nonlinear_arith)
        requires n < d * bb, d < bb, bb > 0;
    assert(0 <= n) by (nonlinear_arith) requires rem >= 0, w >= 0, bb > 0, n == rem * bb + w;
    vstd::arithmetic::div_mod::lemma_div_pos_is_pos(n, d);
    if n / d >= bb {
        assert((n / d) * d >= bb * d) by (nonlinear_arith) requires n / d >= bb, d > 0;
    }
}

pub open spec fn lex_le(a: U256, b: U256) -> bool {
    if a.w3 != b.w3 {
        a.w3 < b.w3
    } else if a.w2 != b.w2 {
        a.w2 < b.w2
    } else if a.w1 != b.w1 {
        a.w1 < b.w1
    } else {
        a.w0 <= b.w0
    }
}

/// A value below `limb_base()` times a lower number is below that number's place.
proof fn lemma_place(lo1: int, hi1: int, lo2: int, hi2: int)
    requires
        0 <= lo1 < limb_base(),
        0 <= lo2 < limb_base(),
        hi1 < hi2,
    ensures
        lo1 + limb_base() * hi1 < lo2 + limb_base() * hi2,
{
    assert(limb_base() * hi1 + limb_base() <= limb_base() * hi2) by (nonlinear_arith)
        requires
            hi1 < hi2,
            limb_base() > 0,
    ;
}

proof fn lemma_value_order(a: U256, b: U256)
    ensures
        lex_le(a, b) == (a.value() <= b.value()),
        a.value() < u256_bound(),
{
    let bb = limb_base();
    let a2 = a.w2 + bb * a.w3;
    let b2 = b.w2 + bb * b.w3;
    let a1 = a.w1 + bb * a2;
    let b1 = b.w1 + bb * b2;
    assert(a2 >= 0 && b2 >= 0 && a1 >= 0 && b1 >= 0) by (nonlinear_arith)
        requires
            a.w1 >= 0, a.w2 >= 0, a.w3 >= 0, b.w1 >= 0, b.w2 >= 0, b.w3 >= 0, bb > 0,
            a2 == a.w2 + bb * a.w3, b2 == b.w2 + bb * b.w3,
            a1 == a.w1 + bb * a2, b1 == b.w1 + bb * b2,
    ;
    if a.w3 < b.w3 {
        lemma_place(a.w2 as int, a.w3 as int, b.w2 as int, b.w3 as int);
        lemma_place(a.w1 as int, a2, b.w1 as int, b2);
        lemma_place(a.w0 as int, a1, b.w0 as int, b1);
    } else if b.w3 < a.w3 {
        lemma_place(b.w2 as int, b.w3 as int, a.w2 as int, a.w3 as int);
        lemma_place(b.w1 as int, b2, a.w1 as int, a2);
        lemma_place(b.w0 as int, b1, a.w0 as int, a1);
    } else if a.w2 < b.w2 {
        lemma_place(a.w1 as int, a2, b.w1 as int, b2);
        lemma_place(a.w0 as int, a1, b.w0 as int, b1);
    } else if b.w2 < a.w2 {
        lemma_place(b.w1 as int, b2, a.w1 as int, a2);
        lemma_place(b.w0 as int, b1, a.w0 as int, a1);
    } else if a.w1 < b.w1 {
        lemma_place(a.w0 as int, a1, b.w0 as int, b1);
    } else if b.w1 < a.w1 {
        lemma_place(b.w0 as int, b1, a.w0 as int, a1);
    }
    lemma_value_bound(a);
}

pub proof fn lemma_value_bound(a: U256)
    ensures
        a.value() < u256_bound(),
{
    let bb = limb_base();
    assert(a.w2 + bb * a.w3 < bb * bb) by (nonlinear_arith)
        requires a.w2 < bb, a.w3 < bb, a.w2 >= 0, a.w3 >= 0;
    assert(a.w1 + bb * (a.w2 + bb * a.w3) < bb * bb * bb) by (nonlinear_arith)
        requires a.w1 < bb, a.w1 >= 0, a.w2 + bb * a.w3 < bb * bb, bb > 0;
    assert(a.w0 + bb * (a.w1 + bb * (a.w2 + bb * a.w3)) < bb * bb * bb * bb) by (nonlinear_arith)
        requires a.w0 < bb, a.w0 >= 0, a.w1 + bb * (a.w2 + bb * a.w3) < bb * bb * bb, bb > 0;
}

} // verus!
