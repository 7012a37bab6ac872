//! The dimensions of a stack: layer, row, column, cell and connection
//! counts derived from a stack description.

use crate::error::Error;
use crate::stack::{has_x, has_y, stack_layers, PhysLayer, StackDescription};
use vstd::prelude::*;

verus! {

/// How many entries of the conductance matrix belong to the cell at layer
/// `l`, row `r`, column `c`: its diagonal, one entry per vertical neighbour,
/// and one entry per lateral neighbour in the directions the layer
/// connects.
pub open spec fn cell_nnz(
    ls: Seq<PhysLayer>,
    rows: int,
    columns: int,
    l: int,
    r: int,
    c: int,
) -> int {
    1 + (if l > 0 {
        1int
    } else {
        0int
    }) + (if l + 1 < ls.len() {
        1int
    } else {
        0int
    }) + (if has_x(ls[l]) {
        (if c > 0 {
            1int
        } else {
            0int
        }) + (if c + 1 < columns {
            1int
        } else {
            0int
        })
    } else {
        0int
    }) + (if has_y(ls[l]) {
        (if r > 0 {
            1int
        } else {
            0int
        }) + (if r + 1 < rows {
            1int
        } else {
            0int
        })
    } else {
        0int
    })
}

/// The matrix entries of the first `c` cells of row `r` of layer `l`.
pub open spec fn row_conn_upto(
    ls: Seq<PhysLayer>,
    rows: int,
    columns: int,
    l: int,
    r: int,
    c: int,
) -> int
    decreases c,
{
    if c <= 0 {
        0
    } else {
        row_conn_upto(ls, rows, columns, l, r, c - 1) + cell_nnz(ls, rows, columns, l, r, c - 1)
    }
}

/// The matrix entries of the first `r` rows of layer `l`.
pub open spec fn layer_conn_upto(ls: Seq<PhysLayer>, rows: int, columns: int, l: int, r: int) -> int
    decreases r,
{
    if r <= 0 {
        0
    } else {
        layer_conn_upto(ls, rows, columns, l, r - 1) + row_conn_upto(
            ls,
            rows,
            columns,
            l,
            r - 1,
            columns,
        )
    }
}

/// The matrix entries of the first `l` layers.
pub open spec fn conn_upto(ls: Seq<PhysLayer>, rows: int, columns: int, l: int) -> int
    decreases l,
{
    if l <= 0 {
        0
    } else {
        conn_upto(ls, rows, columns, l - 1) + layer_conn_upto(ls, rows, columns, l - 1, rows)
    }
}

/// The number of entries the assembled conductance matrix holds: the
/// matrix's nonzero count.
pub open spec fn connections_spec(ls: Seq<PhysLayer>, rows: int, columns: int) -> int {
    conn_upto(ls, rows, columns, ls.len() as int)
}

proof fn lemma_row_conn_mono(ls: Seq<PhysLayer>, rows: int, columns: int, l: int, r: int, c: int)
    requires
        0 <= c <= columns,
    ensures
        row_conn_upto(ls, rows, columns, l, r, c) <= row_conn_upto(ls, rows, columns, l, r, columns),
        0 <= row_conn_upto(ls, rows, columns, l, r, c),
    decreases columns - c,
{
    if c < columns {
        lemma_row_conn_mono(ls, rows, columns, l, r, c + 1);
    }
    if c > 0 {
        lemma_row_conn_mono_low(ls, rows, columns, l, r, c);
    }
}

proof fn lemma_row_conn_mono_low(ls: Seq<PhysLayer>, rows: int, columns: int, l: int, r: int, c: int)
    requires
        0 <= c,
    ensures
        0 <= row_conn_upto(ls, rows, columns, l, r, c),
    decreases c,
{
    if c > 0 {
        lemma_row_conn_mono_low(ls, rows, columns, l, r, c - 1);
    }
}

proof fn lemma_layer_conn_nonneg(ls: Seq<PhysLayer>, rows: int, columns: int, l: int, r: int)
    requires
        0 <= r,
        0 <= columns,
    ensures
        0 <= layer_conn_upto(ls, rows, columns, l, r),
    decreases r,
{
    if r > 0 {
        lemma_layer_conn_nonneg(ls, rows, columns, l, r - 1);
        lemma_row_conn_mono_low(ls, rows, columns, l, r - 1, columns);
    }
}

proof fn lemma_layer_conn_mono(ls: Seq<PhysLayer>, rows: int, columns: int, l: int, r: int)
    requires
        0 <= r <= rows,
        0 <= columns,
    ensures
        layer_conn_upto(ls, rows, columns, l, r) <= layer_conn_upto(ls, rows, columns, l, rows),
    decreases rows - r,
{
    if r < rows {
        lemma_row_conn_mono_low(ls, rows, columns, l, r, columns);
        lemma_layer_conn_mono(ls, rows, columns, l, r + 1);
    }
}

proof fn lemma_conn_nonneg(ls: Seq<PhysLayer>, rows: int, columns: int, l: int)
    requires
        0 <= l,
        0 <= rows,
        0 <= columns,
    ensures
        0 <= conn_upto(ls, rows, columns, l),
    decreases l,
{
    if l > 0 {
        lemma_conn_nonneg(ls, rows, columns, l - 1);
        lemma_layer_conn_nonneg(ls, rows, columns, l - 1, rows);
    }
}

proof fn lemma_conn_mono(ls: Seq<PhysLayer>, rows: int, columns: int, l: int)
    requires
        0 <= l <= ls.len(),
        0 <= rows,
        0 <= columns,
    ensures
        conn_upto(ls, rows, columns, l) <= connections_spec(ls, rows, columns),
    decreases ls.len() - l,
{
    if l < ls.len() {
        lemma_layer_conn_nonneg(ls, rows, columns, l, rows);
        lemma_conn_mono(ls, rows, columns, l + 1);
    }
}

/// Whether the cell and connection counts of a description fit in `usize`.
pub open spec fn dims_fit(sd: StackDescription) -> bool {
    &&& stack_layers(sd.elements@).len() * sd.rows * sd.columns <= usize::MAX
    &&& connections_spec(stack_layers(sd.elements@), sd.rows as int, sd.columns as int)
        <= usize::MAX
}

/// The dimensions of a stack.
#[derive(Clone, Copy, Debug, PartialEq, Eq, Structural)]
pub struct Dimensions {
    layers: usize,
    rows: usize,
    columns: usize,
    cells: usize,
    connections: usize,
}

impl Dimensions {
    /// The number of layers.
    pub closed spec fn spec_layers(&self) -> usize {
        self.layers
    }

    /// The number of rows per layer.
    pub closed spec fn spec_rows(&self) -> usize {
        self.rows
    }

    /// The number of columns per layer.
    pub closed spec fn spec_columns(&self) -> usize {
        self.columns
    }

    /// The number of cells.
    pub closed spec fn spec_cells(&self) -> usize {
        self.cells
    }

    /// The number of conductance-matrix entries.
    pub closed spec fn spec_connections(&self) -> usize {
        self.connections
    }

    /// Whether these dimensions are the ones a description denotes.
    pub open spec fn consistent_with(&self, sd: StackDescription) -> bool {
        &&& self.spec_layers() == stack_layers(sd.elements@).len()
        &&& self.spec_rows() == sd.rows
        &&& self.spec_columns() == sd.columns
        &&& self.spec_cells() == stack_layers(sd.elements@).len() * sd.rows * sd.columns
        &&& self.spec_connections() == connections_spec(
            stack_layers(sd.elements@),
            sd.rows as int,
            sd.columns as int,
        )
    }

    /// Return the number of layers.
    pub fn layers(&self) -> (r: usize)
        ensures
            r == self.spec_layers(),
    {
        self.layers
    }

    /// Return the number of rows.
    pub fn rows(&self) -> (r: usize)
        ensures
            r == self.spec_rows(),
    {
        self.rows
    }

    /// Return the number of columns.
    pub fn columns(&self) -> (r: usize)
        ensures
            r == self.spec_columns(),
    {
        self.columns
    }

    /// Return the number of cells, which is `layers × rows × columns`.
    pub fn cells(&self) -> (r: usize)
        ensures
            r == self.spec_cells(),
    {
        self.cells
    }

    /// Return the number of connections: the entries of the conductance
    /// matrix.
    pub fn connections(&self) -> (r: usize)
        ensures
            r == self.spec_connections(),
    {
        self.connections
    }
}

/// How many matrix entries one cell owns; at most 7.
fn cell_nnz_exec(
    flat: &Vec<PhysLayer>,
    rows: usize,
    columns: usize,
    l: usize,
    r: usize,
    c: usize,
) -> (n: usize)
    requires
        l < flat@.len(),
        r < rows,
        c < columns,
    ensures
        n == cell_nnz(flat@, rows as int, columns as int, l as int, r as int, c as int),
        n <= 7,
{
    let len = flat.len();
    let mut n: usize = 1;
    if l > 0 {
        n = n + 1;
    }
    if l < len - 1 {
        n = n + 1;
    }
    let p = &flat[l];
    let x = match p {
        PhysLayer::Solid { lateral, .. } => *lateral,
        PhysLayer::Channel { flow_rate, .. } => *flow_rate != crate::fp::F64_ZERO,
    };
    let y = match p {
        PhysLayer::Solid { lateral, .. } => *lateral,
        PhysLayer::Channel { .. } => false,
    };
    if x {
        if c > 0 {
            n = n + 1;
        }
        if c + 1 < columns {
            n = n + 1;
        }
    }
    if y {
        if r > 0 {
            n = n + 1;
        }
        if r + 1 < rows {
            n = n + 1;
        }
    }
    n
}

impl StackDescription {
    /// Derive the dimensions of this stack: layer, row, column and cell
    /// counts, and the number of entries the conductance matrix will hold.
    /// Fails with `Overflow` exactly when the cell or connection count does
    /// not fit in `usize`.
    pub fn dimensions(&self) -> (res: Result<Dimensions, Error>)
        ensures
            res is Ok <==> dims_fit(*self),
            res matches Ok(d) ==> d.consistent_with(*self),
            res is Err ==> res == Err::<Dimensions, Error>(Error::Overflow),
    {
        let flat = self.flat_layers();
        let layers = flat.len();
        let ghost ls = stack_layers(self.elements@);
        let ghost ri = self.rows as int;
        let ghost ci = self.columns as int;

        // The cell count, guarding each product.
        let cells: usize;
        if layers == 0 || self.rows == 0 || self.columns == 0 {
            cells = 0;
            proof {
                assert(ls.len() * self.rows * self.columns == 0) by (nonlinear_arith)
                    requires
                        ls.len() == 0 || self.rows == 0 || self.columns == 0,
                ;
            }
        } else {
            let lr = match layers.checked_mul(self.rows) {
                Some(v) => v,
                None => {
                    proof {
                        assert(ls.len() * self.rows * self.columns > usize::MAX)
                            by (nonlinear_arith)
                            requires
                                ls.len() * self.rows > usize::MAX,
                                self.columns >= 1,
                        ;
                    }
                    return Err(Error::Overflow);
                },
            };
            cells = match lr.checked_mul(self.columns) {
                Some(v) => v,
                None => {
                    return Err(Error::Overflow);
                },
            };
        }

        // The connection count, discovered cell by cell.
        let mut acc: usize = 0;
        let mut l: usize = 0;
        while l < layers
            invariant
                l <= layers,
                layers == ls.len(),
                flat@ == ls,
                acc == conn_upto(ls, ri, ci, l as int),
                ls.len() * self.rows * self.columns <= usize::MAX,
            decreases layers - l,
        {
            let mut r: usize = 0;
            while r < self.rows
                invariant
                    l < layers,
                    r <= self.rows,
                    layers == ls.len(),
                    flat@ == ls,
                    acc == conn_upto(ls, ri, ci, l as int) + layer_conn_upto(
                        ls,
                        ri,
                        ci,
                        l as int,
                        r as int,
                    ),
                decreases self.rows - r,
            {
                let mut c: usize = 0;
                while c < self.columns
                    invariant
                        l < layers,
                        r < self.rows,
                        c <= self.columns,
                        layers == ls.len(),
                        flat@ == ls,
                        acc == conn_upto(ls, ri, ci, l as int) + layer_conn_upto(
                            ls,
                            ri,
                            ci,
                            l as int,
                            r as int,
                        ) + row_conn_upto(ls, ri, ci, l as int, r as int, c as int),
                    decreases self.columns - c,
                {
                    let n = cell_nnz_exec(&flat, self.rows, self.columns, l, r, c);
                    acc = match acc.checked_add(n) {
                        Some(v) => v,
                        None => {
                            proof {
                                lemma_row_conn_mono(ls, ri, ci, l as int, r as int, c + 1);
                                lemma_layer_conn_mono(ls, ri, ci, l as int, r + 1);
                                lemma_conn_mono(ls, ri, ci, l + 1);
                            }
                            return Err(Error::Overflow);
                        },
                    };
                    c = c + 1;
                }
                r = r + 1;
            }
            l = l + 1;
        }
        Ok(
            Dimensions {
                layers,
                rows: self.rows,
                columns: self.columns,
                cells,
                connections: acc,
            },
        )
    }
}

} // verus!
