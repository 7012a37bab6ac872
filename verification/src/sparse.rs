//! The compressed-sparse-column container shared by the conductance and
//! distribution matrices.

use crate::error::Error;
use crate::fp::{add_bits, fadd, fmul, mul_bits, F64_ZERO};
use vstd::prelude::*;

verus! {

/// Whether the given parts form a valid compressed-sparse-column matrix:
/// value and row-index arrays of one length per stored entry, offsets that
/// start at zero, end at the entry count and never decrease, and row
/// indices that stay within the row count and strictly ascend within each
/// column.
pub open spec fn csc_ok(
    rows: int,
    columns: int,
    values: Seq<u64>,
    row_indices: Seq<usize>,
    column_offsets: Seq<usize>,
) -> bool {
    &&& row_indices.len() == values.len()
    &&& column_offsets.len() == columns + 1
    &&& column_offsets[0] == 0
    &&& column_offsets[columns] == values.len()
    &&& forall|j: int|
        0 <= j < columns ==> #[trigger] column_offsets[j] <= column_offsets[j + 1]
    &&& forall|k: int| 0 <= k < row_indices.len() ==> (#[trigger] row_indices[k]) < rows
    &&& forall|j: int, k: int|
        #![trigger column_offsets[j], row_indices[k]]
        0 <= j < columns && column_offsets[j] <= k < column_offsets[j + 1] - 1 ==> row_indices[k]
            < row_indices[k + 1]
}

/// A sparse matrix in compressed-sparse-column form.
#[derive(Clone, Debug, PartialEq)]
pub struct SparseMatrix {
    /// The number of rows.
    pub rows: usize,
    /// The number of columns.
    pub columns: usize,
    /// The number of stored entries.
    pub nonzeros: usize,
    /// The stored entries, column-major, each the bit pattern of a double.
    pub values: Vec<u64>,
    /// The row of each stored entry, ascending within a column.
    pub row_indices: Vec<usize>,
    /// For each column, the position of its first stored entry; one extra
    /// final offset equals `nonzeros`.
    pub column_offsets: Vec<usize>,
}

impl SparseMatrix {
    /// The container's invariant.
    pub open spec fn wf(&self) -> bool {
        &&& self.nonzeros == self.values@.len()
        &&& csc_ok(
            self.rows as int,
            self.columns as int,
            self.values@,
            self.row_indices@,
            self.column_offsets@,
        )
    }

    /// Law: in a well-formed matrix the column offsets start at zero, end
    /// at the entry count, and never decrease.
    pub proof fn lemma_offsets_nondecreasing(&self, j1: int, j2: int)
        requires
            self.wf(),
            0 <= j1 <= j2 <= self.columns,
        ensures
            self.column_offsets@[0] == 0,
            self.column_offsets@[self.columns as int] == self.nonzeros,
            self.column_offsets@[j1] <= self.column_offsets@[j2],
        decreases j2 - j1,
    {
        if j1 < j2 {
            self.lemma_offsets_nondecreasing(j1 + 1, j2);
        }
    }

    /// Build a matrix after validating the invariant.  Fails with
    /// `BuildFailure` exactly when the parts do not form a valid
    /// compressed-sparse-column matrix.
    #[verifier::rlimit(100)]
    pub fn new(
        rows: usize,
        columns: usize,
        values: Vec<u64>,
        row_indices: Vec<usize>,
        column_offsets: Vec<usize>,
    ) -> (res: Result<SparseMatrix, Error>)
        ensures
            res is Ok <==> csc_ok(
                rows as int,
                columns as int,
                values@,
                row_indices@,
                column_offsets@,
            ),
            res matches Ok(m) ==> {
                &&& m.rows == rows
                &&& m.columns == columns
                &&& m.nonzeros == values@.len()
                &&& m.values@ == values@
                &&& m.row_indices@ == row_indices@
                &&& m.column_offsets@ == column_offsets@
                &&& m.wf()
            },
            res is Err ==> res == Err::<SparseMatrix, Error>(Error::BuildFailure),
    {
        let nonzeros = values.len();
        if row_indices.len() != nonzeros {
            return Err(Error::BuildFailure);
        }
        if columns == usize::MAX || column_offsets.len() != columns + 1 {
            return Err(Error::BuildFailure);
        }
        if column_offsets[0] != 0 || column_offsets[columns] != nonzeros {
            return Err(Error::BuildFailure);
        }
        if !offsets_monotone(&column_offsets) {
            return Err(Error::BuildFailure);
        }
        if !rows_in_range(&row_indices, rows) {
            return Err(Error::BuildFailure);
        }
        if !columns_sorted(&row_indices, &column_offsets, columns, nonzeros) {
            return Err(Error::BuildFailure);
        }
        Ok(SparseMatrix { rows, columns, nonzeros, values, row_indices, column_offsets })
    }
}

/// Whether adjacent column offsets never decrease.
fn offsets_monotone(column_offsets: &Vec<usize>) -> (r: bool)
    requires
        column_offsets@.len() >= 1,
    ensures
        r == forall|i: int|
            0 <= i < column_offsets@.len() - 1 ==> #[trigger] column_offsets@[i]
                <= column_offsets@[i + 1],
{
    let n = column_offsets.len();
    let mut j: usize = 0;
    while j < n - 1
        invariant
            j <= n - 1,
            n == column_offsets@.len(),
            forall|i: int| 0 <= i < j ==> #[trigger] column_offsets@[i] <= column_offsets@[i + 1],
        decreases n - j,
    {
        if column_offsets[j] > column_offsets[j + 1] {
            return false;
        }
        j = j + 1;
    }
    true
}

/// Whether every row index stays below the row count.
fn rows_in_range(row_indices: &Vec<usize>, rows: usize) -> (r: bool)
    ensures
        r == forall|k: int|
            0 <= k < row_indices@.len() ==> (#[trigger] row_indices@[k]) < rows,
{
    let n = row_indices.len();
    let mut k: usize = 0;
    while k < n
        invariant
            k <= n,
            n == row_indices@.len(),
            forall|i: int| 0 <= i < k ==> (#[trigger] row_indices@[i]) < rows,
        decreases n - k,
    {
        if row_indices[k] >= rows {
            return false;
        }
        k = k + 1;
    }
    true
}

/// Whether row indices strictly ascend within every column.
fn columns_sorted(
    row_indices: &Vec<usize>,
    column_offsets: &Vec<usize>,
    columns: usize,
    nonzeros: usize,
) -> (r: bool)
    requires
        column_offsets@.len() == columns + 1,
        column_offsets@[0] == 0,
        column_offsets@[columns as int] == nonzeros,
        nonzeros == row_indices@.len(),
        forall|i: int|
            0 <= i < columns ==> #[trigger] column_offsets@[i] <= column_offsets@[i + 1],
    ensures
        r == forall|j: int, k: int|
            #![trigger column_offsets@[j], row_indices@[k]]
            0 <= j < columns && column_offsets@[j] <= k < column_offsets@[j + 1] - 1
                ==> row_indices@[k] < row_indices@[k + 1],
{
    let mut j: usize = 0;
    while j < columns
        invariant
            j <= columns,
            forall|i: int, k: int|
                #![trigger column_offsets@[i], row_indices@[k]]
                0 <= i < j && column_offsets@[i] <= k < column_offsets@[i + 1] - 1
                    ==> row_indices@[k] < row_indices@[k + 1],
        decreases columns - j,
    {
        let lo = column_offsets[j];
        let hi = column_offsets[j + 1];
        assert(hi <= nonzeros) by {
            lemma_offsets_chain(column_offsets@, j + 1, columns as int);
        }
        if lo < hi {
            let mut k = lo;
            while k + 1 < hi
                invariant
                    lo <= k,
                    k < hi || k + 1 == hi,
                    hi <= nonzeros,
                    lo == column_offsets@[j as int],
                    hi == column_offsets@[j + 1],
                    forall|i: int|
                        lo <= i < k ==> (#[trigger] row_indices@[i]) < row_indices@[i + 1],
                decreases hi - k,
            {
                if row_indices[k] >= row_indices[k + 1] {
                    return false;
                }
                k = k + 1;
            }
        }
        j = j + 1;
    }
    true
}

/// Offsets never decrease over a range, by chaining adjacent steps.
proof fn lemma_offsets_chain(column_offsets: Seq<usize>, j1: int, j2: int)
    requires
        0 <= j1 <= j2,
        j2 < column_offsets.len(),
        forall|i: int|
            0 <= i < column_offsets.len() - 1 ==> #[trigger] column_offsets[i] <= column_offsets[i
                + 1],
    ensures
        column_offsets[j1] <= column_offsets[j2],
    decreases j2 - j1,
{
    if j1 < j2 {
        lemma_offsets_chain(column_offsets, j1 + 1, j2);
    }
}

/// A vector of `n` zeros.
pub open spec fn zeros(n: nat) -> Seq<u64> {
    Seq::new(n, |i: int| F64_ZERO)
}

/// Accumulate the entries `k .. end` of one column with multiplier `xj`
/// into `y`: each entry `v` at row `i` turns `y[i]` into `y[i] + v · xj`,
/// in storage order.
pub open spec fn mv_col_step(
    y: Seq<u64>,
    row_indices: Seq<usize>,
    values: Seq<u64>,
    xj: u64,
    k: int,
    end: int,
) -> Seq<u64>
    decreases end - k,
{
    if k >= end {
        y
    } else {
        mv_col_step(
            y.update(
                row_indices[k] as int,
                add_bits(y[row_indices[k] as int], mul_bits(values[k], xj)),
            ),
            row_indices,
            values,
            xj,
            k + 1,
            end,
        )
    }
}

/// The product after the first `j` columns have been accumulated into a
/// zero vector.
pub open spec fn mv_upto(m: SparseMatrix, x: Seq<u64>, j: int) -> Seq<u64>
    decreases j,
{
    if j <= 0 {
        zeros(m.rows as nat)
    } else {
        mv_col_step(
            mv_upto(m, x, j - 1),
            m.row_indices@,
            m.values@,
            x[j - 1],
            m.column_offsets@[j - 1] as int,
            m.column_offsets@[j] as int,
        )
    }
}

/// The matrix-vector product `m · x`, accumulated column by column in
/// storage order, starting from a zero vector.
pub open spec fn mv_spec(m: SparseMatrix, x: Seq<u64>) -> Seq<u64> {
    mv_upto(m, x, m.columns as int)
}

impl SparseMatrix {
    /// The matrix-vector product `self · x`, accumulated column by column
    /// in storage order.  Fails with `SizeMismatch` exactly when `x` does
    /// not have one entry per column.
    pub fn apply(&self, x: &Vec<u64>) -> (res: Result<Vec<u64>, Error>)
        requires
            self.wf(),
        ensures
            res is Ok <==> x@.len() == self.columns,
            res matches Ok(y) ==> y@ == mv_spec(*self, x@) && y@.len() == self.rows,
            res is Err ==> res == Err::<Vec<u64>, Error>(Error::SizeMismatch),
    {
        if x.len() != self.columns {
            return Err(Error::SizeMismatch);
        }
        let mut y: Vec<u64> = Vec::new();
        let mut i: usize = 0;
        while i < self.rows
            invariant
                i <= self.rows,
                y@ =~= zeros(i as nat),
            decreases self.rows - i,
        {
            y.push(F64_ZERO);
            proof {
                assert(y@ =~= zeros((i + 1) as nat));
            }
            i = i + 1;
        }
        let mut j: usize = 0;
        while j < self.columns
            invariant
                j <= self.columns,
                self.wf(),
                x@.len() == self.columns,
                y@ == mv_upto(*self, x@, j as int),
                y@.len() == self.rows,
            decreases self.columns - j,
        {
            let lo = self.column_offsets[j];
            let hi = self.column_offsets[j + 1];
            proof {
                self.lemma_offsets_nondecreasing(j as int, j + 1);
                self.lemma_offsets_nondecreasing(j + 1, self.columns as int);
            }
            let xj = x[j];
            let mut k = lo;
            while k < hi
                invariant
                    lo <= k <= hi,
                    hi <= self.nonzeros,
                    self.wf(),
                    x@.len() == self.columns,
                    j < self.columns,
                    xj == x@[j as int],
                    lo == self.column_offsets@[j as int],
                    hi == self.column_offsets@[j + 1],
                    y@.len() == self.rows,
                    mv_col_step(y@, self.row_indices@, self.values@, xj, k as int, hi as int)
                        == mv_upto(*self, x@, j + 1),
                decreases hi - k,
            {
                let row = self.row_indices[k];
                let add = fadd(y[row], fmul(self.values[k], xj));
                y[row] = add;
                k = k + 1;
            }
            j = j + 1;
        }
        Ok(y)
    }
}

} // verus!
