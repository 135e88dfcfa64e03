//! Symbolic multivariate polynomials over the extension field, as built from
//! variables and constants by sums, differences and products.
use vstd::prelude::*;
use crate::field::{XFieldElement, XCoeffs, xzero, xadd, xsub, xmul};

verus! {

#[derive(Debug)]
pub enum MPolynomial {
    Constant(XFieldElement),
    /// The variable with the given index into the evaluation point.
    Variable(usize),
    Sum(Box<MPolynomial>, Box<MPolynomial>),
    Difference(Box<MPolynomial>, Box<MPolynomial>),
    Product(Box<MPolynomial>, Box<MPolynomial>),
}

/// The values of a point's coordinates.
pub open spec fn point_view(point: Seq<XFieldElement>) -> Seq<XCoeffs> {
    point.map_values(|x: XFieldElement| x@)
}

impl MPolynomial {
    /// Every variable index is below `n`.
    pub open spec fn uses_below(&self, n: nat) -> bool
        decreases self,
    {
        match self {
            MPolynomial::Constant(_) => true,
            MPolynomial::Variable(i) => (*i as nat) < n,
            MPolynomial::Sum(a, b) => a.uses_below(n) && b.uses_below(n),
            MPolynomial::Difference(a, b) => a.uses_below(n) && b.uses_below(n),
            MPolynomial::Product(a, b) => a.uses_below(n) && b.uses_below(n),
        }
    }

    /// The value at `point`; a variable outside the point reads as zero.
    pub open spec fn eval(&self, point: Seq<XCoeffs>) -> XCoeffs
        decreases self,
    {
        match self {
            MPolynomial::Constant(c) => c@,
            MPolynomial::Variable(i) => if (*i as int) < point.len() {
                point[*i as int]
            } else {
                xzero()
            },
            MPolynomial::Sum(a, b) => xadd(a.eval(point), b.eval(point)),
            MPolynomial::Difference(a, b) => xsub(a.eval(point), b.eval(point)),
            MPolynomial::Product(a, b) => xmul(a.eval(point), b.eval(point)),
        }
    }

    pub fn evaluate(&self, point: &Vec<XFieldElement>) -> (r: XFieldElement)
        requires
            self.uses_below(point@.len()),
        ensures
            r@ == self.eval(point_view(point@)),
        decreases self,
    {
        match self {
            MPolynomial::Constant(c) => *c,
            MPolynomial::Variable(i) => point[*i],
            MPolynomial::Sum(a, b) => a.evaluate(point).add(&b.evaluate(point)),
            MPolynomial::Difference(a, b) => a.evaluate(point).sub(&b.evaluate(point)),
            MPolynomial::Product(a, b) => a.evaluate(point).mul(&b.evaluate(point)),
        }
    }
}

} // verus!
