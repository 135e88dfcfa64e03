//! The prime field of order `2^64 - 2^32 + 1` and its cubic extension
//! modulo `x^3 - x + 1`.
use vstd::prelude::*;
use vstd::arithmetic::div_mod::{
    lemma_add_mod_noop,
    lemma_sub_mod_noop,
    lemma_mod_add_multiples_vanish,
    lemma_mul_mod_noop_left,
    lemma_mul_mod_noop_right,
};
use vstd::arithmetic::mul::lemma_mul_is_associative;

verus! {

/// The field's characteristic.
pub const P: u64 = 18446744069414584321;

/// An element of the extension field as a triple of coefficients
/// `(c0, c1, c2)`, standing for `c0 + c1 x + c2 x^2`.
pub type XCoeffs = (int, int, int);

pub open spec fn xreduce(a: XCoeffs) -> XCoeffs {
    (a.0 % (P as int), a.1 % (P as int), a.2 % (P as int))
}

/// Every coefficient lies in `[0, P)`.
pub open spec fn xcanonical(a: XCoeffs) -> bool {
    0 <= a.0 < P && 0 <= a.1 < P && 0 <= a.2 < P
}

pub open spec fn xzero() -> XCoeffs {
    (0, 0, 0)
}

pub open spec fn xone() -> XCoeffs {
    (1, 0, 0)
}

/// The embedding of a base-field value.
pub open spec fn xlift(v: int) -> XCoeffs {
    (v % (P as int), 0, 0)
}

pub open spec fn xadd(a: XCoeffs, b: XCoeffs) -> XCoeffs {
    xreduce((a.0 + b.0, a.1 + b.1, a.2 + b.2))
}

pub open spec fn xsub(a: XCoeffs, b: XCoeffs) -> XCoeffs {
    xreduce((a.0 - b.0, a.1 - b.1, a.2 - b.2))
}

/// The product of two polynomials of degree two, before reduction modulo `P`,
/// with `x^3` replaced by `x - 1`.
pub open spec fn xmul_unreduced(a: XCoeffs, b: XCoeffs) -> XCoeffs {
    (
        a.0 * b.0 - (a.1 * b.2 + a.2 * b.1),
        a.0 * b.1 + a.1 * b.0 + (a.1 * b.2 + a.2 * b.1) - a.2 * b.2,
        a.0 * b.2 + a.1 * b.1 + a.2 * b.0 + a.2 * b.2,
    )
}

pub open spec fn xmul(a: XCoeffs, b: XCoeffs) -> XCoeffs {
    xreduce(xmul_unreduced(a, b))
}

/// `a` raised to the power `n`.
pub open spec fn xpow(a: XCoeffs, n: nat) -> XCoeffs
    decreases n,
{
    if n == 0 {
        xone()
    } else {
        xmul(xpow(a, (n - 1) as nat), a)
    }
}

/// Multiplying by an element of the base field scales each coefficient.
pub proof fn lemma_xmul_scalar(a: XCoeffs, e: int)
    ensures
        xmul(a, (e, 0, 0)) == ((a.0 * e) % (P as int), (a.1 * e) % (P as int), (a.2 * e) % (P as int)),
{
    assert(xmul_unreduced(a, (e, 0, 0)) == (a.0 * e, a.1 * e, a.2 * e));
}

/// Powers of an element of the base field stay in the base field.
pub proof fn lemma_xpow_scalar(s: int, k: nat)
    requires
        0 <= s < P,
    ensures
        xpow((s, 0, 0), k).1 == 0,
        xpow((s, 0, 0), k).2 == 0,
        0 <= xpow((s, 0, 0), k).0 < P,
    decreases k,
{
    if k > 0 {
        lemma_xpow_scalar(s, (k - 1) as nat);
        lemma_xmul_scalar(xpow((s, 0, 0), (k - 1) as nat), s);
    }
}

/// Multiplication is associative where the two right factors lie in the base
/// field.
pub proof fn lemma_xmul_associative_scalar(t: XCoeffs, e: int, s: int)
    ensures
        xmul(xmul(t, (e, 0, 0)), (s, 0, 0)) == xmul(t, xmul((e, 0, 0), (s, 0, 0))),
{
    let p = P as int;
    lemma_xmul_scalar(t, e);
    lemma_xmul_scalar(xmul(t, (e, 0, 0)), s);
    lemma_xmul_scalar((e, 0, 0), s);
    assert(xmul((e, 0, 0), (s, 0, 0)) == ((e * s) % p, 0int, 0int)) by {
        assert(0 * s == 0);
    }
    lemma_xmul_scalar(t, (e * s) % p);
    lemma_mul_mod_noop_left(t.0 * e, s, p);
    lemma_mul_mod_noop_left(t.1 * e, s, p);
    lemma_mul_mod_noop_left(t.2 * e, s, p);
    lemma_mul_mod_noop_right(t.0, e * s, p);
    lemma_mul_mod_noop_right(t.1, e * s, p);
    lemma_mul_mod_noop_right(t.2, e * s, p);
    lemma_mul_is_associative(t.0, e, s);
    lemma_mul_is_associative(t.1, e, s);
    lemma_mul_is_associative(t.2, e, s);
}

/// One is a neutral element of multiplication for canonical elements.
pub proof fn lemma_xmul_one(a: XCoeffs)
    requires
        xcanonical(a),
    ensures
        xmul(a, xone()) == a,
{
    assert(xmul_unreduced(a, xone()) == a);
}

/// Zero annihilates under multiplication.
pub proof fn lemma_xmul_zero(a: XCoeffs)
    ensures
        xmul(xzero(), a) == xzero(),
{
    assert(xmul_unreduced(xzero(), a) == xzero());
}

/// Zero is a neutral element of addition for canonical elements.
pub proof fn lemma_xadd_zero(a: XCoeffs)
    requires
        xcanonical(a),
    ensures
        xadd(xzero(), a) == a,
        xadd(a, xzero()) == a,
{
}

/// An element minus itself is zero.
pub proof fn lemma_xsub_self(a: XCoeffs)
    ensures
        xsub(a, a) == xzero(),
{
}

/// Results of the field operations are canonical.
pub proof fn lemma_xreduce_canonical(a: XCoeffs)
    ensures
        xcanonical(xreduce(a)),
{
}

/// An element of the prime field, held as a `u64` and read modulo `P`.
#[derive(Clone, Copy, Debug, PartialEq, Eq, Structural)]
pub struct BFieldElement {
    pub value: u64,
}

impl BFieldElement {
    pub open spec fn view(&self) -> int {
        self.value as int % (P as int)
    }

    pub fn new(value: u64) -> (r: BFieldElement)
        ensures
            r@ == value as int % (P as int),
            r.value < P,
    {
        BFieldElement { value: value % P }
    }

    pub fn zero() -> (r: BFieldElement)
        ensures
            r@ == 0,
            r.value < P,
    {
        BFieldElement { value: 0 }
    }

    /// The canonical representative in `[0, P)`.
    pub fn value(&self) -> (r: u64)
        ensures
            r as int == self@,
    {
        self.value % P
    }

    pub fn is_zero(&self) -> (r: bool)
        ensures
            r == (self@ == 0),
    {
        self.value % P == 0
    }

    pub fn add(&self, other: &BFieldElement) -> (r: BFieldElement)
        ensures
            r@ == (self@ + other@) % (P as int),
            r.value < P,
    {
        let a = (self.value % P) as u128;
        let b = (other.value % P) as u128;
        BFieldElement { value: ((a + b) % (P as u128)) as u64 }
    }

    pub fn sub(&self, other: &BFieldElement) -> (r: BFieldElement)
        ensures
            r@ == (self@ - other@) % (P as int),
            r.value < P,
    {
        let a = (self.value % P) as u128;
        let b = (other.value % P) as u128;
        proof {
            lemma_mod_add_multiples_vanish(a - b, P as int);
        }
        BFieldElement { value: ((a + (P as u128) - b) % (P as u128)) as u64 }
    }

    pub fn mul(&self, other: &BFieldElement) -> (r: BFieldElement)
        ensures
            r@ == (self@ * other@) % (P as int),
            r.value < P,
    {
        let a = (self.value % P) as u128;
        let b = (other.value % P) as u128;
        assert(a * b < 0x1_0000_0000_0000_0000_0000_0000_0000_0000) by (nonlinear_arith)
            requires
                a < 0x1_0000_0000_0000_0000,
                b < 0x1_0000_0000_0000_0000,
        ;
        BFieldElement { value: ((a * b) % (P as u128)) as u64 }
    }

    /// The embedding into the extension field.
    pub fn lift(&self) -> (r: XFieldElement)
        ensures
            r@ == xlift(self@),
    {
        XFieldElement { c0: *self, c1: BFieldElement::zero(), c2: BFieldElement::zero() }
    }
}

/// An element `c0 + c1 x + c2 x^2` of the extension field modulo `x^3 - x + 1`.
#[derive(Clone, Copy, Debug, PartialEq, Eq, Structural)]
pub struct XFieldElement {
    pub c0: BFieldElement,
    pub c1: BFieldElement,
    pub c2: BFieldElement,
}

impl XFieldElement {
    pub open spec fn view(&self) -> XCoeffs {
        (self.c0@, self.c1@, self.c2@)
    }

    pub fn new(c0: u64, c1: u64, c2: u64) -> (r: XFieldElement)
        ensures
            r@ == xreduce((c0 as int, c1 as int, c2 as int)),
    {
        XFieldElement { c0: BFieldElement::new(c0), c1: BFieldElement::new(c1), c2: BFieldElement::new(c2) }
    }

    /// The lift of the base-field element `value`.
    pub fn new_const(value: u64) -> (r: XFieldElement)
        ensures
            r@ == xlift(value as int),
    {
        BFieldElement::new(value).lift()
    }

    pub fn zero() -> (r: XFieldElement)
        ensures
            r@ == xzero(),
    {
        XFieldElement { c0: BFieldElement::zero(), c1: BFieldElement::zero(), c2: BFieldElement::zero() }
    }

    pub fn one() -> (r: XFieldElement)
        ensures
            r@ == xone(),
    {
        XFieldElement { c0: BFieldElement::new(1), c1: BFieldElement::zero(), c2: BFieldElement::zero() }
    }

    /// The canonical coefficients, constant term first.
    pub fn coefficients(&self) -> (r: (u64, u64, u64))
        ensures
            r.0 as int == self@.0 && r.1 as int == self@.1 && r.2 as int == self@.2,
    {
        (self.c0.value(), self.c1.value(), self.c2.value())
    }

    pub fn is_zero(&self) -> (r: bool)
        ensures
            r == (self@ == xzero()),
    {
        self.c0.is_zero() && self.c1.is_zero() && self.c2.is_zero()
    }

    pub fn add(&self, other: &XFieldElement) -> (r: XFieldElement)
        ensures
            r@ == xadd(self@, other@),
    {
        XFieldElement {
            c0: self.c0.add(&other.c0),
            c1: self.c1.add(&other.c1),
            c2: self.c2.add(&other.c2),
        }
    }

    pub fn sub(&self, other: &XFieldElement) -> (r: XFieldElement)
        ensures
            r@ == xsub(self@, other@),
    {
        XFieldElement {
            c0: self.c0.sub(&other.c0),
            c1: self.c1.sub(&other.c1),
            c2: self.c2.sub(&other.c2),
        }
    }

    pub fn mul(&self, other: &XFieldElement) -> (r: XFieldElement)
        ensures
            r@ == xmul(self@, other@),
    {
        let (a0, a1, a2) = (self.c0, self.c1, self.c2);
        let (b0, b1, b2) = (other.c0, other.c1, other.c2);
        let p00 = a0.mul(&b0);
        let p01 = a0.mul(&b1);
        let p02 = a0.mul(&b2);
        let p10 = a1.mul(&b0);
        let p11 = a1.mul(&b1);
        let p12 = a1.mul(&b2);
        let p20 = a2.mul(&b0);
        let p21 = a2.mul(&b1);
        let p22 = a2.mul(&b2);
        let d3 = p12.add(&p21);
        let c0 = p00.sub(&d3);
        let s1 = p01.add(&p10);
        let s2 = s1.add(&d3);
        let c1 = s2.sub(&p22);
        let t1 = p02.add(&p11);
        let t2 = t1.add(&p20);
        let c2 = t2.add(&p22);
        proof {
            let p = P as int;
            let (x0, x1, x2) = (a0@, a1@, a2@);
            let (y0, y1, y2) = (b0@, b1@, b2@);
            lemma_add_mod_noop(x1 * y2, x2 * y1, p);
            lemma_sub_mod_noop(x0 * y0, x1 * y2 + x2 * y1, p);
            lemma_add_mod_noop(x0 * y1, x1 * y0, p);
            lemma_add_mod_noop(x0 * y1 + x1 * y0, x1 * y2 + x2 * y1, p);
            lemma_sub_mod_noop(x0 * y1 + x1 * y0 + (x1 * y2 + x2 * y1), x2 * y2, p);
            lemma_add_mod_noop(x0 * y2, x1 * y1, p);
            lemma_add_mod_noop(x0 * y2 + x1 * y1, x2 * y0, p);
            lemma_add_mod_noop(x0 * y2 + x1 * y1 + x2 * y0, x2 * y2, p);
        }
        XFieldElement { c0, c1, c2 }
    }

    /// `self` raised to the power `exponent`.
    pub fn mod_pow(&self, exponent: usize) -> (r: XFieldElement)
        ensures
            r@ == xpow(self@, exponent as nat),
    {
        let mut acc = XFieldElement::one();
        let mut i: usize = 0;
        while i < exponent
            invariant
                i <= exponent,
                acc@ == xpow(self@, i as nat),
            decreases exponent - i,
        {
            acc = acc.mul(self);
            i = i + 1;
        }
        acc
    }
}

} // verus!
