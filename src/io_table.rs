//! The input and output tables: one public value per row, bound to the rest
//! of the proof by a running evaluation argument.
use vstd::prelude::*;
use crate::field::{
    P, BFieldElement, XFieldElement, XCoeffs, xcanonical, xzero, xlift, xadd, xsub, xmul, xmul_unreduced, xpow,
    lemma_xmul_zero, lemma_xadd_zero, lemma_xsub_self, lemma_xreduce_canonical, lemma_xmul_one,
    lemma_xpow_scalar, lemma_xmul_associative_scalar,
};
use crate::polynomial::{MPolynomial, point_view};
use crate::table::{
    Table, TableError, is_pow2, is_padded_height, is_power_of_two, lemma_padded_height_exists,
    EXTENSION_CHALLENGE_COUNT, PERMUTATION_ARGUMENTS_COUNT, TERMINAL_COUNT,
};

verus! {

/// The payload of an I/O table: which challenge and terminal it binds to,
/// and the terminal value its extension computed.
pub struct IOTableMore {
    pub challenge_index: usize,
    pub terminal_index: usize,
    pub evaluation_terminal: XFieldElement,
}

impl IOTableMore {
    pub fn new_more() -> (r: IOTableMore)
        ensures
            r.challenge_index == 0,
            r.terminal_index == 0,
            r.evaluation_terminal@ == xzero(),
    {
        IOTableMore { challenge_index: 0, terminal_index: 0, evaluation_terminal: XFieldElement::zero() }
    }
}

pub struct IOTable(pub Table<IOTableMore>);

/// The raw values: column zero of every row.
pub open spec fn raw_column(m: Seq<Vec<BFieldElement>>) -> Seq<int> {
    Seq::new(m.len(), |i: int| m[i]@[0]@)
}

/// The running evaluation after the first `n` raw values, seeded at zero.
pub open spec fn running_evaluation(raws: Seq<int>, iota: XCoeffs, n: nat) -> XCoeffs
    decreases n,
{
    if n == 0 {
        xzero()
    } else {
        xadd(xmul(running_evaluation(raws, iota, (n - 1) as nat), iota), xlift(raws[n - 1]))
    }
}

/// Every row holds exactly the raw value.
pub open spec fn is_io_matrix(m: Seq<Vec<BFieldElement>>) -> bool {
    forall|i: int| 0 <= i < m.len() ==> #[trigger] m[i]@.len() == 1
}

/// `e` is `c` with every element lifted.
pub open spec fn is_lifted_row(c: Vec<BFieldElement>, e: Vec<XFieldElement>) -> bool {
    &&& e@.len() == c@.len()
    &&& forall|j: int| 0 <= j < c@.len() ==> #[trigger] e@[j]@ == xlift(c@[j]@)
}

/// `e` is `c` with every element lifted.
pub open spec fn is_lifted(c: Seq<Vec<BFieldElement>>, e: Seq<Vec<XFieldElement>>) -> bool {
    &&& e.len() == c.len()
    &&& forall|i: int| 0 <= i < c.len() ==> #[trigger] is_lifted_row(c[i], e[i])
}

/// `ext` is `m` extended under the challenge `iota`: each row lifted, with the
/// running evaluation up to and including that row appended.
pub open spec fn is_extension_of(
    ext: Seq<Vec<XFieldElement>>,
    m: Seq<Vec<BFieldElement>>,
    iota: XCoeffs,
) -> bool {
    &&& ext.len() == m.len()
    &&& forall|i: int| 0 <= i < m.len() ==> {
        &&& #[trigger] ext[i]@.len() == m[i]@.len() + 1
        &&& forall|j: int| 0 <= j < m[i]@.len() ==> #[trigger] ext[i]@[j]@ == xlift(m[i]@[j]@)
        &&& ext[i]@[m[i]@.len() as int]@ == running_evaluation(raw_column(m), iota, (i + 1) as nat)
    }
}

/// The value of the transition constraint at `current ++ next`.
pub open spec fn io_transition_value(iota: XCoeffs, p: Seq<XCoeffs>) -> XCoeffs {
    xsub(xadd(xmul(p[1], iota), p[2]), p[3])
}

/// The value of the boundary constraint at a row.
pub open spec fn io_boundary_value(p: Seq<XCoeffs>) -> XCoeffs {
    xsub(p[1], p[0])
}

/// The value of the terminal constraint at a row.
pub open spec fn io_terminal_value(terminal: XCoeffs, offset: XCoeffs, p: Seq<XCoeffs>) -> XCoeffs {
    xsub(p[1], xmul(terminal, offset))
}

fn lift_row(row: &Vec<BFieldElement>) -> (r: Vec<XFieldElement>)
    ensures
        is_lifted_row(*row, r),
{
    let mut r: Vec<XFieldElement> = Vec::new();
    let mut j: usize = 0;
    while j < row.len()
        invariant
            j <= row@.len(),
            r@.len() == j,
            forall|k: int| 0 <= k < j ==> #[trigger] r@[k]@ == xlift(row@[k]@),
        decreases row@.len() - j,
    {
        r.push(row[j].lift());
        j = j + 1;
    }
    r
}

fn lift_matrix(m: &Vec<Vec<BFieldElement>>) -> (r: Vec<Vec<XFieldElement>>)
    ensures
        is_lifted(m@, r@),
{
    let mut r: Vec<Vec<XFieldElement>> = Vec::new();
    let mut i: usize = 0;
    while i < m.len()
        invariant
            i <= m@.len(),
            r@.len() == i,
            forall|k: int| 0 <= k < i ==> #[trigger] is_lifted_row(m@[k], r@[k]),
        decreases m@.len() - i,
    {
        r.push(lift_row(&m[i]));
        i = i + 1;
    }
    r
}

impl IOTable {
    /// Index of the raw value among the base columns.
    pub const COLUMN: usize = 0;

    /// Index of the running evaluation among the extension columns.
    pub const EVALUATION: usize = 1;

    pub const BASE_WIDTH: usize = 1;

    pub const FULL_WIDTH: usize = 2;

    pub fn new_input_table(length: usize, generator: BFieldElement, order: usize) -> (r: IOTable)
        requires
            length <= usize::MAX / 2,
        ensures
            r.0.base_width == 1,
            r.0.full_width == 2,
            r.0.length == length,
            r.0.num_randomizers == 0,
            is_padded_height(length as nat, r.0.height as nat),
            r.0.generator == generator,
            r.0.order == order,
            r.0.name@ == "Input table"@,
            r.0.matrix@.len() == 0,
            r.0.extended_matrix@.len() == 0,
            r.0.codewords@.len() == 0,
            r.0.extended_codewords@.len() == 0,
            r.0.more.challenge_index == 8,
            r.0.more.terminal_index == 2,
            r.0.more.evaluation_terminal@ == xzero(),
    {
        broadcast use vstd::string::to_string_from_display_ensures_for_str;

        // the input is public, so no randomizer rows are needed
        let num_randomizers: usize = 0;
        let mut table = Table::new(
            Self::BASE_WIDTH,
            Self::FULL_WIDTH,
            length,
            num_randomizers,
            generator,
            order,
            "Input table".to_string(),
            IOTableMore::new_more(),
        );
        table.more.challenge_index = 8;
        table.more.terminal_index = 2;
        IOTable(table)
    }

    pub fn new_output_table(length: usize, generator: BFieldElement, order: usize) -> (r: IOTable)
        requires
            length <= usize::MAX / 2,
        ensures
            r.0.base_width == 1,
            r.0.full_width == 2,
            r.0.length == length,
            r.0.num_randomizers == 0,
            is_padded_height(length as nat, r.0.height as nat),
            r.0.generator == generator,
            r.0.order == order,
            r.0.name@ == "Output table"@,
            r.0.matrix@.len() == 0,
            r.0.extended_matrix@.len() == 0,
            r.0.codewords@.len() == 0,
            r.0.extended_codewords@.len() == 0,
            r.0.more.challenge_index == 9,
            r.0.more.terminal_index == 3,
            r.0.more.evaluation_terminal@ == xzero(),
    {
        broadcast use vstd::string::to_string_from_display_ensures_for_str;

        // the output is public, so no randomizer rows are needed
        let num_randomizers: usize = 0;
        let base_width: usize = 1;
        let full_width: usize = 2;
        let mut table = Table::new(
            base_width,
            full_width,
            length,
            num_randomizers,
            generator,
            order,
            "Output table".to_string(),
            IOTableMore::new_more(),
        );
        table.more.challenge_index = 9;
        table.more.terminal_index = 3;
        IOTable(table)
    }

    /// Appends rows holding zero until the number of rows is a power of two;
    /// an empty matrix stays empty.
    pub fn pad(&mut self)
        ensures
            is_padded_height(old(self).0.matrix@.len(), final(self).0.matrix@.len()),
            final(self).0.matrix@.subrange(0, old(self).0.matrix@.len() as int) == old(self).0.matrix@,
            forall|i: int|
                old(self).0.matrix@.len() <= i < final(self).0.matrix@.len() ==> {
                    &&& #[trigger] final(self).0.matrix@[i]@.len() == 1
                    &&& final(self).0.matrix@[i]@[0]@ == 0
                },
            final(self).0 == (Table { matrix: final(self).0.matrix, ..old(self).0 }),
            is_pow2(old(self).0.matrix@.len()) ==> *final(self) == *old(self),
    {
        let ghost n = self.0.matrix@.len();
        let ghost target = lemma_padded_height_exists(n);
        while !self.0.matrix.is_empty() && !is_power_of_two(self.0.matrix.len())
            invariant
                is_padded_height(n, target),
                n <= self.0.matrix@.len() <= target,
                n == 0 ==> self.0.matrix@.len() == 0,
                self.0.matrix@.subrange(0, n as int) == old(self).0.matrix@,
                forall|i: int|
                    n <= i < self.0.matrix@.len() ==> {
                        &&& #[trigger] self.0.matrix@[i]@.len() == 1
                        &&& self.0.matrix@[i]@[0]@ == 0
                    },
                self.0 == (Table { matrix: self.0.matrix, ..old(self).0 }),
                self.0.matrix@.len() == n ==> *self == *old(self),
                is_pow2(n) ==> self.0.matrix@.len() == n,
            decreases target - self.0.matrix@.len(),
        {
            let padding: Vec<BFieldElement> = vec![BFieldElement::zero()];
            self.0.matrix.push(padding);
            assert(self.0.matrix@.subrange(0, n as int) =~= old(self).0.matrix@);
        }
    }

    pub fn challenge_index(&self) -> (r: usize)
        ensures
            r == self.0.more.challenge_index,
    {
        self.0.more.challenge_index
    }

    pub fn terminal_index(&self) -> (r: usize)
        ensures
            r == self.0.more.terminal_index,
    {
        self.0.more.terminal_index
    }
}

impl IOTable {
    pub fn base_width(&self) -> (r: usize)
        ensures
            r == self.0.base_width,
    {
        self.0.base_width
    }

    pub fn full_width(&self) -> (r: usize)
        ensures
            r == self.0.full_width,
    {
        self.0.full_width
    }

    pub fn length(&self) -> (r: usize)
        ensures
            r == self.0.length,
    {
        self.0.length
    }

    pub fn name(&self) -> (r: &str)
        ensures
            r@ == self.0.name@,
    {
        self.0.name.as_str()
    }

    pub fn num_randomizers(&self) -> (r: usize)
        ensures
            r == self.0.num_randomizers,
    {
        self.0.num_randomizers
    }

    pub fn height(&self) -> (r: usize)
        ensures
            r == self.0.height,
    {
        self.0.height
    }

    pub fn generator(&self) -> (r: BFieldElement)
        ensures
            r == self.0.generator,
    {
        self.0.generator
    }

    pub fn order(&self) -> (r: usize)
        ensures
            r == self.0.order,
    {
        self.0.order
    }

    /// The raw trace imposes no relation between consecutive rows.
    pub fn base_transition_constraints(&self) -> (r: Vec<MPolynomial>)
        ensures
            r@.len() == 0,
    {
        Vec::new()
    }

    /// The raw trace imposes no condition on its first row.
    pub fn base_boundary_constraints(&self) -> (r: Vec<MPolynomial>)
        ensures
            r@.len() == 0,
    {
        Vec::new()
    }

    /// Lifts the trace into the extension field and appends to each row the
    /// running evaluation `running * iota + raw`, seeded at zero, where `iota`
    /// is this table's challenge; records the running evaluation after the
    /// last unpadded row as the terminal, and lifts the codewords. A height
    /// that is neither zero nor a power of two is refused, with the table
    /// left as it was.
    pub fn extend(
        &mut self,
        all_challenges: [XFieldElement; EXTENSION_CHALLENGE_COUNT],
        _all_initials: [XFieldElement; PERMUTATION_ARGUMENTS_COUNT],
    ) -> (r: Result<(), TableError>)
        requires
            old(self).0.more.challenge_index < EXTENSION_CHALLENGE_COUNT,
            forall|i: int|
                0 <= i < old(self).0.matrix@.len() ==> #[trigger] old(self).0.matrix@[i]@.len() >= 1,
        ensures
            r is Err <==> !(old(self).0.height == 0 || is_pow2(old(self).0.height as nat)),
            r is Err ==> r == Err::<(), TableError>(TableError::HeightNotPowerOfTwo) && *final(self) == *old(self),
            r is Ok ==> {
                let iota = all_challenges@[old(self).0.more.challenge_index as int]@;
                let m = old(self).0.matrix@;
                &&& is_extension_of(final(self).0.extended_matrix@, m, iota)
                &&& is_lifted(old(self).0.codewords@, final(self).0.extended_codewords@)
                &&& final(self).0.more.evaluation_terminal@ == if old(self).0.length <= m.len() {
                    running_evaluation(raw_column(m), iota, old(self).0.length as nat)
                } else {
                    xzero()
                }
                &&& final(self).0 == (Table {
                    extended_matrix: final(self).0.extended_matrix,
                    extended_codewords: final(self).0.extended_codewords,
                    more: IOTableMore {
                        evaluation_terminal: final(self).0.more.evaluation_terminal,
                        ..old(self).0.more
                    },
                    ..old(self).0
                })
            },
    {
        let iota = all_challenges[self.0.more.challenge_index];
        let height = self.0.height;
        if !(height == 0 || is_power_of_two(height)) {
            return Err(TableError::HeightNotPowerOfTwo);
        }
        let ghost m = self.0.matrix@;
        let ghost raws = raw_column(m);
        let length = self.0.length;
        let n = self.0.matrix.len();
        let mut extended_matrix: Vec<Vec<XFieldElement>> = Vec::new();
        let mut running = XFieldElement::zero();
        let mut evaluation_terminal = XFieldElement::zero();
        let mut i: usize = 0;
        while i < n
            invariant
                *self == *old(self),
                m == self.0.matrix@,
                raws == raw_column(m),
                n == m.len(),
                length == self.0.length,
                i <= n,
                forall|k: int| 0 <= k < m.len() ==> #[trigger] m[k]@.len() >= 1,
                running@ == running_evaluation(raws, iota@, i as nat),
                evaluation_terminal@ == if 1 <= length <= i {
                    running_evaluation(raws, iota@, length as nat)
                } else {
                    xzero()
                },
                extended_matrix@.len() == i,
                forall|k: int| 0 <= k < i ==> {
                    &&& #[trigger] extended_matrix@[k]@.len() == m[k]@.len() + 1
                    &&& forall|j: int| 0 <= j < m[k]@.len() ==> #[trigger] extended_matrix@[k]@[j]@ == xlift(m[k]@[j]@)
                    &&& extended_matrix@[k]@[m[k]@.len() as int]@ == running_evaluation(raws, iota@, (k + 1) as nat)
                },
            decreases n - i,
        {
            let mut new_row = lift_row(&self.0.matrix[i]);
            assert(is_lifted_row(m[i as int], new_row));
            running = running.mul(&iota).add(&new_row[Self::COLUMN]);
            new_row.push(running);
            if i + 1 == length {
                evaluation_terminal = running;
            }
            extended_matrix.push(new_row);
            i = i + 1;
        }
        assert(running_evaluation(raws, iota@, 0) == xzero());
        assert(iota@ == all_challenges@[old(self).0.more.challenge_index as int]@);
        assert(is_extension_of(extended_matrix@, m, iota@));
        self.0.extended_matrix = extended_matrix;
        self.0.extended_codewords = lift_matrix(&self.0.codewords);
        self.0.more.evaluation_terminal = evaluation_terminal;
        Ok(())
    }

    /// The single extension transition constraint over `2 * FULL_WIDTH`
    /// variables, the current row's columns followed by the next row's:
    /// `evaluation * iota + raw_next - evaluation_next`.
    pub fn transition_constraints_ext(
        &self,
        challenges: [XFieldElement; EXTENSION_CHALLENGE_COUNT],
    ) -> (r: Vec<MPolynomial>)
        requires
            self.0.more.challenge_index < EXTENSION_CHALLENGE_COUNT,
        ensures
            r@.len() == 1,
            r@[0].uses_below(4),
            forall|p: Seq<XCoeffs>|
                p.len() >= 4 ==> #[trigger] r@[0].eval(p) == io_transition_value(
                    challenges@[self.0.more.challenge_index as int]@,
                    p,
                ),
    {
        let iota = MPolynomial::Constant(challenges[self.challenge_index()]);
        let evaluation = MPolynomial::Variable(Self::EVALUATION);
        let input_next = MPolynomial::Variable(Self::FULL_WIDTH + Self::COLUMN);
        let evaluation_next = MPolynomial::Variable(Self::FULL_WIDTH + Self::EVALUATION);
        let constraint = MPolynomial::Difference(
            Box::new(MPolynomial::Sum(
                Box::new(MPolynomial::Product(Box::new(evaluation), Box::new(iota))),
                Box::new(input_next),
            )),
            Box::new(evaluation_next),
        );
        proof {
            reveal_with_fuel(MPolynomial::eval, 4);
            reveal_with_fuel(MPolynomial::uses_below, 4);
        }
        vec![constraint]
    }

    /// The single extension boundary constraint over `FULL_WIDTH` variables:
    /// `evaluation - raw`.
    pub fn boundary_constraints_ext(
        &self,
        _challenges: [XFieldElement; EXTENSION_CHALLENGE_COUNT],
    ) -> (r: Vec<MPolynomial>)
        ensures
            r@.len() == 1,
            r@[0].uses_below(2),
            forall|p: Seq<XCoeffs>| p.len() >= 2 ==> #[trigger] r@[0].eval(p) == io_boundary_value(p),
    {
        let evaluation = MPolynomial::Variable(Self::EVALUATION);
        let column = MPolynomial::Variable(Self::COLUMN);
        let constraint = MPolynomial::Difference(Box::new(evaluation), Box::new(column));
        proof {
            reveal_with_fuel(MPolynomial::eval, 2);
            reveal_with_fuel(MPolynomial::uses_below, 2);
        }
        vec![constraint]
    }

    /// The single extension terminal constraint over `FULL_WIDTH` variables:
    /// `evaluation - terminal * iota^(height - length)`, where the power of
    /// `iota` accounts for the padding rows after the terminal was taken.
    /// A zero terminal for a table of non-zero height is refused.
    pub fn terminal_constraints_ext(
        &self,
        challenges: [XFieldElement; EXTENSION_CHALLENGE_COUNT],
        terminals: [XFieldElement; TERMINAL_COUNT],
    ) -> (r: Result<Vec<MPolynomial>, TableError>)
        requires
            self.0.more.challenge_index < EXTENSION_CHALLENGE_COUNT,
            self.0.more.terminal_index < TERMINAL_COUNT,
            self.0.length <= self.0.height,
        ensures
            r is Err <==> (self.0.height != 0
                && terminals@[self.0.more.terminal_index as int]@ == xzero()),
            r is Err ==> r == Err::<Vec<MPolynomial>, TableError>(TableError::ZeroTerminal),
            r is Ok ==> {
                let v = r->Ok_0;
                let iota = challenges@[self.0.more.challenge_index as int]@;
                let terminal = terminals@[self.0.more.terminal_index as int]@;
                let offset = xpow(iota, (self.0.height - self.0.length) as nat);
                &&& v@.len() == 1
                &&& v@[0].uses_below(2)
                &&& forall|p: Seq<XCoeffs>|
                    p.len() >= 2 ==> #[trigger] v@[0].eval(p) == io_terminal_value(terminal, offset, p)
            },
    {
        let terminal = terminals[self.terminal_index()];
        if self.0.height != 0 && terminal.is_zero() {
            return Err(TableError::ZeroTerminal);
        }
        let iota = challenges[self.challenge_index()];
        let offset = MPolynomial::Constant(iota.mod_pow(self.0.height - self.0.length));
        let evaluation_terminal = MPolynomial::Constant(terminal);
        let evaluation = MPolynomial::Variable(Self::EVALUATION);
        // every padding row multiplies the running evaluation by iota once more
        let actual_terminal = MPolynomial::Product(Box::new(evaluation_terminal), Box::new(offset));
        let constraint = MPolynomial::Difference(Box::new(evaluation), Box::new(actual_terminal));
        proof {
            reveal_with_fuel(MPolynomial::eval, 3);
            reveal_with_fuel(MPolynomial::uses_below, 3);
        }
        Ok(vec![constraint])
    }
}

proof fn lemma_first_running(raws: Seq<int>, iota: XCoeffs)
    requires
        raws.len() >= 1,
    ensures
        running_evaluation(raws, iota, 1) == xlift(raws[0]),
{
    assert(running_evaluation(raws, iota, 0) == xzero());
    lemma_xmul_zero(iota);
    lemma_xadd_zero(xlift(raws[0]));
}

/// In an extended I/O matrix the running evaluation of the first row is its
/// raw value, and that of every later row is the previous one times the
/// challenge plus the row's raw value.
pub proof fn lemma_accumulator_recurrence(
    ext: Seq<Vec<XFieldElement>>,
    m: Seq<Vec<BFieldElement>>,
    iota: XCoeffs,
)
    requires
        is_io_matrix(m),
        is_extension_of(ext, m, iota),
    ensures
        m.len() > 0 ==> ext[0]@[1]@ == ext[0]@[0]@,
        forall|i: int|
            1 <= i < m.len() ==> #[trigger] ext[i]@[1]@ == xadd(xmul(ext[i - 1]@[1]@, iota), ext[i]@[0]@),
{
    if m.len() > 0 {
        assert(m[0]@.len() == 1);
        assert(ext[0]@.len() == 2);
        lemma_first_running(raw_column(m), iota);
    }
    assert forall|i: int| 1 <= i < m.len() implies #[trigger] ext[i]@[1]@ == xadd(
        xmul(ext[i - 1]@[1]@, iota),
        ext[i]@[0]@,
    ) by {
        assert(m[i]@.len() == 1);
        assert(m[i - 1]@.len() == 1);
        assert(ext[i]@.len() == 2);
        assert(ext[i - 1]@.len() == 2);
    }
}

/// The extension transition constraint vanishes on every pair of adjacent
/// rows of an extended I/O matrix, whatever the challenge.
pub proof fn lemma_transition_constraint_vanishes(
    ext: Seq<Vec<XFieldElement>>,
    m: Seq<Vec<BFieldElement>>,
    iota: XCoeffs,
    i: int,
)
    requires
        is_io_matrix(m),
        is_extension_of(ext, m, iota),
        0 <= i,
        i + 1 < m.len(),
    ensures
        io_transition_value(iota, point_view(ext[i]@ + ext[i + 1]@)) == xzero(),
{
    assert(m[i]@.len() == 1);
    assert(m[i + 1]@.len() == 1);
    assert(ext[i]@.len() == 2);
    assert(ext[i + 1]@.len() == 2);
    let p = point_view(ext[i]@ + ext[i + 1]@);
    assert(p[1] == ext[i]@[1]@);
    assert(p[2] == ext[i + 1]@[0]@);
    assert(p[3] == ext[i + 1]@[1]@);
    lemma_xsub_self(p[3]);
}

/// The extension boundary constraint vanishes on the first row of an
/// extended I/O matrix.
pub proof fn lemma_boundary_constraint_vanishes(
    ext: Seq<Vec<XFieldElement>>,
    m: Seq<Vec<BFieldElement>>,
    iota: XCoeffs,
)
    requires
        is_io_matrix(m),
        is_extension_of(ext, m, iota),
        m.len() >= 1,
    ensures
        io_boundary_value(point_view(ext[0]@)) == xzero(),
{
    lemma_accumulator_recurrence(ext, m, iota);
    assert(ext[0]@.len() == 2) by {
        assert(m[0]@.len() == 1);
    }
    lemma_xsub_self(ext[0]@[0]@);
}

/// For a matrix that needed no padding, the extension terminal constraint
/// with the terminal computed by the extension and offset `iota^0` vanishes
/// on the last row.
pub proof fn lemma_terminal_constraint_vanishes_unpadded(
    ext: Seq<Vec<XFieldElement>>,
    m: Seq<Vec<BFieldElement>>,
    iota: XCoeffs,
)
    requires
        is_io_matrix(m),
        is_extension_of(ext, m, iota),
        m.len() >= 1,
    ensures
        io_terminal_value(
            running_evaluation(raw_column(m), iota, m.len()),
            xpow(iota, 0),
            point_view(ext[m.len() - 1]@),
        ) == xzero(),
{
    let last = m.len() - 1;
    assert(m[last]@.len() == 1);
    assert(ext[last]@.len() == 2);
    let t = running_evaluation(raw_column(m), iota, m.len());
    lemma_xreduce_canonical(
        (
            xmul(running_evaluation(raw_column(m), iota, (m.len() - 1) as nat), iota).0 + xlift(raw_column(m)[last]).0,
            xmul(running_evaluation(raw_column(m), iota, (m.len() - 1) as nat), iota).1 + xlift(raw_column(m)[last]).1,
            xmul(running_evaluation(raw_column(m), iota, (m.len() - 1) as nat), iota).2 + xlift(raw_column(m)[last]).2,
        ),
    );
    assert(xcanonical(t));
    lemma_xmul_one(t);
    lemma_xsub_self(t);
}

proof fn lemma_running_canonical(raws: Seq<int>, iota: XCoeffs, n: nat)
    ensures
        xcanonical(running_evaluation(raws, iota, n)),
{
    if n > 0 {
        let prev = xmul(running_evaluation(raws, iota, (n - 1) as nat), iota);
        let lifted = xlift(raws[n - 1]);
        lemma_xreduce_canonical((prev.0 + lifted.0, prev.1 + lifted.1, prev.2 + lifted.2));
    }
}

/// After rows of raw value zero, the running evaluation has been multiplied
/// by one power of a base-field challenge per row.
proof fn lemma_running_over_zero_rows(raws: Seq<int>, s: int, len: nat, k: nat)
    requires
        0 <= s < P,
        len + k <= raws.len(),
        forall|j: int| len <= j < len + k ==> #[trigger] raws[j] == 0,
    ensures
        running_evaluation(raws, (s, 0, 0), len + k) == xmul(
            running_evaluation(raws, (s, 0, 0), len),
            xpow((s, 0, 0), k),
        ),
    decreases k,
{
    let iota = (s, 0int, 0int);
    let t = running_evaluation(raws, iota, len);
    if k == 0 {
        lemma_running_canonical(raws, iota, len);
        lemma_xmul_one(t);
    } else {
        let k1 = (k - 1) as nat;
        lemma_running_over_zero_rows(raws, s, len, k1);
        let r = running_evaluation(raws, iota, len + k1);
        assert(raws[(len + k1) as int] == 0);
        assert(xlift(raws[(len + k1) as int]) == xzero());
        lemma_xreduce_canonical(xmul_unreduced(r, iota));
        lemma_xadd_zero(xmul(r, iota));
        lemma_xpow_scalar(s, k1);
        let e = xpow(iota, k1).0;
        assert(xpow(iota, k1) == (e, 0int, 0int));
        lemma_xmul_associative_scalar(t, e, s);
        assert((len + k1 + 1) as nat == len + k);
    }
}

/// With a challenge of the base field, the extension terminal constraint,
/// given the terminal the extension computes for the first `length` rows and
/// the offset `iota^(height - length)`, vanishes on the last row of an
/// extended I/O matrix whose rows from `length` on hold zero.
pub proof fn lemma_terminal_constraint_vanishes(
    ext: Seq<Vec<XFieldElement>>,
    m: Seq<Vec<BFieldElement>>,
    s: int,
    length: nat,
)
    requires
        0 <= s < P,
        is_io_matrix(m),
        is_extension_of(ext, m, (s, 0, 0)),
        length <= m.len(),
        m.len() >= 1,
        forall|j: int| length <= j < m.len() ==> #[trigger] m[j]@[0]@ == 0,
    ensures
        io_terminal_value(
            running_evaluation(raw_column(m), (s, 0, 0), length),
            xpow((s, 0, 0), (m.len() - length) as nat),
            point_view(ext[m.len() - 1]@),
        ) == xzero(),
{
    let raws = raw_column(m);
    let k = (m.len() - length) as nat;
    assert forall|j: int| length <= j < length + k implies #[trigger] raws[j] == 0 by {
        assert(m[j]@[0]@ == 0);
    }
    lemma_running_over_zero_rows(raws, s, length, k);
    let last = m.len() - 1;
    assert(m[last]@.len() == 1);
    assert(ext[last]@.len() == 2);
    assert(length + k == m.len());
    lemma_xsub_self(ext[last]@[1]@);
}

} // verus!
