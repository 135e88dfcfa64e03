//! The data every arithmetization table holds, and the power-of-two
//! discipline on its height.
use vstd::prelude::*;
use crate::field::{BFieldElement, XFieldElement};

verus! {

/// Number of challenges sampled for the extension step.
pub const EXTENSION_CHALLENGE_COUNT: usize = 11;

/// Number of initial values of permutation arguments.
pub const PERMUTATION_ARGUMENTS_COUNT: usize = 2;

/// Number of terminal values checked across all tables.
pub const TERMINAL_COUNT: usize = 5;

/// Violations of a table's internal consistency.
#[derive(Clone, Copy, Debug, PartialEq, Eq, Structural)]
pub enum TableError {
    /// The height is neither zero nor a power of two.
    HeightNotPowerOfTwo,
    /// A non-empty table was given a zero terminal.
    ZeroTerminal,
}

pub open spec fn is_pow2(n: nat) -> bool
    decreases n,
{
    if n == 0 {
        false
    } else if n == 1 {
        true
    } else if n % 2 == 1 {
        false
    } else {
        is_pow2(n / 2)
    }
}

/// `h` is the smallest power of two at least `n`, or zero where `n` is zero.
pub open spec fn is_padded_height(n: nat, h: nat) -> bool {
    if n == 0 {
        h == 0
    } else {
        is_pow2(h) && n <= h && h < 2 * n
    }
}

pub proof fn lemma_pow2_double(p: nat)
    requires
        is_pow2(p),
    ensures
        is_pow2(2 * p),
{
    assert((2 * p) / 2 == p);
}

/// Some power of two lies in `[n, 2n)`, found by doubling from `p`.
proof fn lemma_pow2_from(n: nat, p: nat) -> (h: nat)
    requires
        is_pow2(p),
        1 <= p < 2 * n,
    ensures
        is_pow2(h),
        n <= h < 2 * n,
    decreases 2 * n - p,
{
    if p >= n {
        p
    } else {
        lemma_pow2_double(p);
        lemma_pow2_from(n, 2 * p)
    }
}

pub proof fn lemma_padded_height_exists(n: nat) -> (h: nat)
    ensures
        is_padded_height(n, h),
{
    if n == 0 {
        0
    } else {
        lemma_pow2_from(n, 1)
    }
}

pub fn is_power_of_two(n: usize) -> (r: bool)
    ensures
        r == is_pow2(n as nat),
{
    if n == 0 {
        return false;
    }
    let mut m: usize = n;
    while m > 1 && m % 2 == 0
        invariant
            m >= 1,
            is_pow2(n as nat) == is_pow2(m as nat),
        decreases m,
    {
        m = m / 2;
    }
    m == 1
}

/// The smallest power of two at least `length`, or zero for zero.
pub fn padded_height(length: usize) -> (r: usize)
    requires
        length <= usize::MAX / 2,
    ensures
        is_padded_height(length as nat, r as nat),
{
    if length == 0 {
        return 0;
    }
    let mut h: usize = 1;
    while h < length
        invariant
            is_pow2(h as nat),
            1 <= h < 2 * length,
            length <= usize::MAX / 2,
        decreases 2 * length - h,
    {
        proof {
            lemma_pow2_double(h as nat);
        }
        h = h * 2;
    }
    h
}

/// A trace table with its domain parameters and a table-kind payload `M`.
pub struct Table<M> {
    pub base_width: usize,
    pub full_width: usize,
    /// Number of rows of the trace before padding.
    pub length: usize,
    pub num_randomizers: usize,
    /// Number of rows after padding.
    pub height: usize,
    pub generator: BFieldElement,
    pub order: usize,
    pub name: String,
    pub matrix: Vec<Vec<BFieldElement>>,
    pub extended_matrix: Vec<Vec<XFieldElement>>,
    pub codewords: Vec<Vec<BFieldElement>>,
    pub extended_codewords: Vec<Vec<XFieldElement>>,
    pub more: M,
}

impl<M> Table<M> {
    pub fn new(
        base_width: usize,
        full_width: usize,
        length: usize,
        num_randomizers: usize,
        generator: BFieldElement,
        order: usize,
        name: String,
        more: M,
    ) -> (r: Table<M>)
        requires
            length <= usize::MAX / 2,
        ensures
            r.base_width == base_width,
            r.full_width == full_width,
            r.length == length,
            r.num_randomizers == num_randomizers,
            is_padded_height(length as nat, r.height as nat),
            r.generator == generator,
            r.order == order,
            r.name == name,
            r.matrix@.len() == 0,
            r.extended_matrix@.len() == 0,
            r.codewords@.len() == 0,
            r.extended_codewords@.len() == 0,
            r.more == more,
    {
        Table {
            base_width,
            full_width,
            length,
            num_randomizers,
            height: padded_height(length),
            generator,
            order,
            name,
            matrix: Vec::new(),
            extended_matrix: Vec::new(),
            codewords: Vec::new(),
            extended_codewords: Vec::new(),
            more,
        }
    }
}

} // verus!
