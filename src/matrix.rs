//! Dense weight matrices whose entries are the bit patterns of 64-bit floats.
use vstd::prelude::*;

verus! {

/// A `rows` x `cols` matrix stored column by column, each entry the bit
/// pattern of a 64-bit float.
#[derive(Debug)]
pub struct WeightMatrix {
    rows: usize,
    cols: usize,
    data: Vec<u64>,
}

/// Position in column-major storage of entry `(r, c)` of a matrix with `rows` rows.
pub open spec fn cell(rows: int, r: int, c: int) -> int {
    c * rows + r
}

pub proof fn lemma_cell_in_bounds(rows: int, cols: int, r: int, c: int)
    requires
        0 <= r < rows,
        0 <= c < cols,
    ensures
        0 <= cell(rows, r, c) < rows * cols,
{
    assert(0 <= c * rows) by (nonlinear_arith)
        requires
            0 <= c,
            0 <= rows,
    ;
    assert(c * rows + r < rows * cols) by (nonlinear_arith)
        requires
            0 <= r < rows,
            0 <= c < cols,
    ;
}

impl View for WeightMatrix {
    /// Rows, columns and the entries column by column.
    type V = (nat, nat, Seq<u64>);

    closed spec fn view(&self) -> (nat, nat, Seq<u64>) {
        (self.rows as nat, self.cols as nat, self.data@)
    }
}

impl Clone for WeightMatrix {
    fn clone(&self) -> (r: Self)
        ensures
            r@ == self@,
    {
        proof {
            use_type_invariant(self);
        }
        let data = self.data.clone();
        proof {
            assert(data@ =~= self.data@);
        }
        WeightMatrix { rows: self.rows, cols: self.cols, data }
    }
}

impl WeightMatrix {
    /// The storage holds exactly one entry per cell.
    #[verifier::type_invariant]
    spec fn inv(&self) -> bool {
        self.data@.len() == self.rows * self.cols
    }

    pub open spec fn spec_rows(&self) -> nat {
        self@.0
    }

    pub open spec fn spec_cols(&self) -> nat {
        self@.1
    }

    /// Entry `(r, c)`.
    pub open spec fn at(&self, r: int, c: int) -> u64 {
        self@.2[cell(self@.0 as int, r, c)]
    }

    /// A matrix from its entries given column by column.
    pub fn from_vec(rows: usize, cols: usize, data: Vec<u64>) -> (r: WeightMatrix)
        requires
            data@.len() == rows * cols,
        ensures
            r.spec_rows() == rows,
            r.spec_cols() == cols,
            forall|i: int, j: int|
                0 <= i < rows && 0 <= j < cols ==> #[trigger] r.at(i, j) == data@[cell(
                    rows as int,
                    i,
                    j,
                )],
    {
        WeightMatrix { rows, cols, data }
    }

    pub fn rows(&self) -> (r: usize)
        ensures
            r == self.spec_rows(),
    {
        self.rows
    }

    pub fn cols(&self) -> (r: usize)
        ensures
            r == self.spec_cols(),
    {
        self.cols
    }

    /// Entry `(r, c)`, or `None` outside the matrix.
    pub fn get(&self, r: usize, c: usize) -> (res: Option<u64>)
        ensures
            res == if r < self.spec_rows() && c < self.spec_cols() {
                Some(self.at(r as int, c as int))
            } else {
                None::<u64>
            },
    {
        proof {
            use_type_invariant(self);
        }
        if r < self.rows && c < self.cols {
            proof {
                lemma_cell_in_bounds(self.rows as int, self.cols as int, r as int, c as int);
            }
            assert(c * self.rows + r < self.data.len());
            Some(self.data[c * self.rows + r])
        } else {
            None
        }
    }

    /// The entries of column `c`, from the first row to the last.
    pub fn column(&self, c: usize) -> (res: Vec<u64>)
        requires
            c < self.spec_cols(),
        ensures
            res@.len() == self.spec_rows(),
            forall|i: int| 0 <= i < self.spec_rows() ==> #[trigger] res@[i] == self.at(i, c as int),
    {
        proof {
            use_type_invariant(self);
        }
        let mut res: Vec<u64> = Vec::new();
        let mut i: usize = 0;
        while i < self.rows
            invariant
                self.data@.len() == self.rows * self.cols,
                c < self.cols,
                i <= self.rows,
                res@.len() == i,
                forall|k: int| 0 <= k < i ==> #[trigger] res@[k] == self.at(k, c as int),
            decreases self.rows - i,
        {
            proof {
                lemma_cell_in_bounds(self.rows as int, self.cols as int, i as int, c as int);
            }
            assert(c * self.rows + i < self.data.len());
            res.push(self.data[c * self.rows + i]);
            i += 1;
        }
        res
    }
}

} // verus!
