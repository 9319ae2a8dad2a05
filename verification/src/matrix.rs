//! A small square matrix of counters, indexed by alliance, used to record
//! how often each pair of alliances has met.

use vstd::prelude::*;

verus! {

/// An ALLIANCES x ALLIANCES matrix of counters stored row-major.
#[derive(Debug)]
pub struct Matrix {
    pub cells: Vec<usize>,
}

proof fn lemma_cell_index_injective(a: int, b: int, i: int, j: int)
    by (nonlinear_arith)
    requires
        0 <= a < 6,
        0 <= b < 6,
        0 <= i < 6,
        0 <= j < 6,
        a * 6 + b == i * 6 + j,
    ensures
        a == i && b == j,
{
}

proof fn lemma_cell_index_bound(i: int, j: int)
    by (nonlinear_arith)
    requires
        0 <= i < 6,
        0 <= j < 6,
    ensures
        0 <= i * 6 + j < 36,
{
}

impl Matrix {
    /// The matrix holds one cell per ordered pair of alliances.
    pub open spec fn wf(self) -> bool {
        self.cells@.len() == 36
    }

    /// The counter in row `i`, column `j` (both 0-based).
    pub open spec fn at(self, i: int, j: int) -> int {
        self.cells@[i * 6 + j] as int
    }

    /// A matrix with every cell zero.
    pub fn zero() -> (r: Matrix)
        ensures
            r.wf(),
            forall|i: int, j: int| 0 <= i < 6 && 0 <= j < 6 ==> r.at(i, j) == 0,
    {
        let mut cells: Vec<usize> = Vec::new();
        let mut k: usize = 0;
        while k < 36
            invariant
                k <= 36,
                cells@.len() == k,
                forall|t: int| 0 <= t < k ==> cells@[t] == 0,
            decreases 36 - k,
        {
            cells.push(0);
            k = k + 1;
        }
        Matrix { cells }
    }

    /// The identity matrix: one on the diagonal, zero elsewhere.
    pub fn identity() -> (r: Matrix)
        ensures
            r.wf(),
            forall|i: int, j: int|
                0 <= i < 6 && 0 <= j < 6 ==> r.at(i, j) == (if i == j {
                    1int
                } else {
                    0int
                }),
    {
        let mut m = Matrix::zero();
        let mut i: usize = 0;
        while i < 6
            invariant
                i <= 6,
                m.wf(),
                forall|a: int, b: int|
                    0 <= a < 6 && 0 <= b < 6 ==> m.at(a, b) == (if a == b && a < i {
                        1int
                    } else {
                        0int
                    }),
            decreases 6 - i,
        {
            m.set(i, i, 1);
            i = i + 1;
        }
        m
    }

    /// Read one counter.
    pub fn get(&self, i: usize, j: usize) -> (r: usize)
        requires
            self.wf(),
            i < 6,
            j < 6,
        ensures
            r as int == self.at(i as int, j as int),
    {
        self.cells[i * 6 + j]
    }

    /// Overwrite one counter.
    pub fn set(&mut self, i: usize, j: usize, v: usize)
        requires
            old(self).wf(),
            i < 6,
            j < 6,
        ensures
            final(self).wf(),
            final(self).at(i as int, j as int) == v as int,
            forall|a: int, b: int|
                0 <= a < 6 && 0 <= b < 6 && !(a == i && b == j) ==> final(self).at(a, b) == old(
                    self,
                ).at(a, b),
    {
        proof {
            lemma_cell_index_bound(i as int, j as int);
            assert forall|a: int, b: int|
                0 <= a < 6 && 0 <= b < 6 && !(a == i && b == j) implies #[trigger] (a * 6 + b)
                != i * 6 + j by {
                if a * 6 + b == i * 6 + j {
                    lemma_cell_index_injective(a, b, i as int, j as int);
                }
            }
        }
        self.cells.set(i * 6 + j, v);
    }

    /// Add another matrix cell by cell.
    pub fn add_assign(&mut self, other: &Matrix)
        requires
            old(self).wf(),
            other.wf(),
            forall|i: int, j: int|
                0 <= i < 6 && 0 <= j < 6 ==> old(self).at(i, j) + other.at(i, j) <= usize::MAX,
        ensures
            final(self).wf(),
            forall|i: int, j: int|
                0 <= i < 6 && 0 <= j < 6 ==> final(self).at(i, j) == old(self).at(i, j)
                    + other.at(i, j),
    {
        let mut i: usize = 0;
        while i < 6
            invariant
                i <= 6,
                self.wf(),
                other.wf(),
                forall|a: int, b: int|
                    0 <= a < 6 && 0 <= b < 6 ==> old(self).at(a, b) + other.at(a, b) <= usize::MAX,
                forall|a: int, b: int|
                    0 <= a < 6 && 0 <= b < 6 && a < i ==> self.at(a, b) == old(self).at(a, b)
                        + other.at(a, b),
                forall|a: int, b: int|
                    0 <= a < 6 && 0 <= b < 6 && a >= i ==> self.at(a, b) == old(self).at(a, b),
            decreases 6 - i,
        {
            let mut j: usize = 0;
            while j < 6
                invariant
                    i < 6,
                    j <= 6,
                    self.wf(),
                    other.wf(),
                    forall|a: int, b: int|
                        0 <= a < 6 && 0 <= b < 6 ==> old(self).at(a, b) + other.at(a, b)
                            <= usize::MAX,
                    forall|a: int, b: int|
                        0 <= a < 6 && 0 <= b < 6 && a < i ==> self.at(a, b) == old(self).at(a, b)
                            + other.at(a, b),
                    forall|b: int|
                        0 <= b < j ==> self.at(i as int, b) == old(self).at(i as int, b) + other.at(
                            i as int,
                            b,
                        ),
                    forall|b: int|
                        j <= b < 6 ==> self.at(i as int, b) == old(self).at(i as int, b),
                    forall|a: int, b: int|
                        0 <= a < 6 && 0 <= b < 6 && a > i ==> self.at(a, b) == old(self).at(a, b),
                decreases 6 - j,
            {
                let v = self.get(i, j);
                let w = other.get(i, j);
                self.set(i, j, v + w);
                j = j + 1;
            }
            i = i + 1;
        }
    }

    /// Does every cell hold the value `v`?
    pub fn is_all(&self, v: usize) -> (r: bool)
        requires
            self.wf(),
        ensures
            r <==> (forall|i: int, j: int| 0 <= i < 6 && 0 <= j < 6 ==> self.at(i, j) == v as int),
    {
        let mut i: usize = 0;
        while i < 6
            invariant
                i <= 6,
                self.wf(),
                forall|a: int, b: int| 0 <= a < 6 && 0 <= b < 6 && a < i ==> self.at(a, b) == v as int,
            decreases 6 - i,
        {
            let mut j: usize = 0;
            while j < 6
                invariant
                    i < 6,
                    j <= 6,
                    self.wf(),
                    forall|a: int, b: int|
                        0 <= a < 6 && 0 <= b < 6 && a < i ==> self.at(a, b) == v as int,
                    forall|b: int| 0 <= b < j ==> self.at(i as int, b) == v as int,
                decreases 6 - j,
            {
                if self.get(i, j) != v {
                    return false;
                }
                j = j + 1;
            }
            i = i + 1;
        }
        true
    }

    /// A structurally equal copy.
    pub fn duplicate(&self) -> (r: Matrix)
        ensures
            r.cells@ == self.cells@,
    {
        let mut cells: Vec<usize> = Vec::new();
        let mut k: usize = 0;
        while k < self.cells.len()
            invariant
                k <= self.cells@.len(),
                cells@.len() == k,
                forall|t: int| 0 <= t < k ==> cells@[t] == self.cells@[t],
            decreases self.cells@.len() - k,
        {
            cells.push(self.cells[k]);
            k = k + 1;
        }
        proof {
            assert(cells@ =~= self.cells@);
        }
        Matrix { cells }
    }
}

} // verus!
