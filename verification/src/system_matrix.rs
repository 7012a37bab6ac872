//! The system-matrix assembler: the sparse, structurally symmetric
//! conductance matrix of the thermal grid.
//!
//! The matrix is square with one row per cell, in layer-major, then row,
//! then column order.  Each cell's column holds, in ascending row order,
//! the negated conductance to each structurally present neighbour (below,
//! south, west, east, north, above) and a diagonal term accumulating the
//! same conductances plus the analysis-dependent boundary terms: a
//! conductance to the ambient for a steady or transient analysis where the
//! layer is ambient-connected, and a capacitive `cap / step` term for a
//! transient analysis.

use crate::analysis::{Analysis, AnalysisType};
use crate::dimensions::{cell_nnz, conn_upto, connections_spec, layer_conn_upto, row_conn_upto};
use crate::error::Error;
use crate::fp::{add_bits, div_bits, fadd, fdiv, fneg, fseries, neg_bits, series_bits, F64_ZERO};
use crate::sparse::SparseMatrix;
use crate::stack::{stack_layers, Stack};
use crate::thermal_grid::{coeffs_of, grid_spec, LayerCoeffs, ThermalGrid};
use vstd::prelude::*;

verus! {

/// The conductance across the interface between layer `l` and layer
/// `l + 1`: the series combination of the two half-cell conductances.
pub open spec fn gz_bits(g: Seq<LayerCoeffs>, l: int) -> u64 {
    series_bits(g[l].ghalf, g[l + 1].ghalf)
}

/// The flat index of the cell at layer `l`, row `r`, column `c`.
pub open spec fn flat_index(rows: int, columns: int, l: int, r: int, c: int) -> int {
    (l * rows + r) * columns + c
}

/// The diagonal entry of a cell: the sum, in stencil order (below, south,
/// west, east, north, above), of the conductances to the structurally
/// present neighbours, plus the ambient conductance for a steady or
/// transient analysis on an ambient-connected layer, plus `cap / step` for
/// a transient analysis.
pub open spec fn diag_bits(
    g: Seq<LayerCoeffs>,
    rows: int,
    columns: int,
    kind: AnalysisType,
    step_time: u64,
    l: int,
    r: int,
    c: int,
) -> u64 {
    let d0 = F64_ZERO;
    let d1 = if l > 0 {
        add_bits(d0, gz_bits(g, l - 1))
    } else {
        d0
    };
    let d2 = if g[l].has_y && r > 0 {
        add_bits(d1, g[l].gy)
    } else {
        d1
    };
    let d3 = if g[l].has_x && c > 0 {
        add_bits(d2, g[l].gx)
    } else {
        d2
    };
    let d4 = if g[l].has_x && c + 1 < columns {
        add_bits(d3, g[l].gx)
    } else {
        d3
    };
    let d5 = if g[l].has_y && r + 1 < rows {
        add_bits(d4, g[l].gy)
    } else {
        d4
    };
    let d6 = if l + 1 < g.len() {
        add_bits(d5, gz_bits(g, l))
    } else {
        d5
    };
    let d7 = match g[l].ambient {
        Some(ga) => if kind != AnalysisType::Undefined {
            add_bits(d6, ga)
        } else {
            d6
        },
        None => d6,
    };
    if kind == AnalysisType::Transient {
        add_bits(d7, div_bits(g[l].cap, step_time))
    } else {
        d7
    }
}

/// The stored entries of one cell's matrix column, in ascending row order,
/// as pairs of a row index and a value.
pub open spec fn col_entries(
    g: Seq<LayerCoeffs>,
    rows: int,
    columns: int,
    kind: AnalysisType,
    step_time: u64,
    l: int,
    r: int,
    c: int,
) -> Seq<(int, u64)> {
    let j = flat_index(rows, columns, l, r, c);
    let e0 = Seq::<(int, u64)>::empty();
    let e1 = if l > 0 {
        e0.push((j - rows * columns, neg_bits(gz_bits(g, l - 1))))
    } else {
        e0
    };
    let e2 = if g[l].has_y && r > 0 {
        e1.push((j - columns, neg_bits(g[l].gy)))
    } else {
        e1
    };
    let e3 = if g[l].has_x && c > 0 {
        e2.push((j - 1, neg_bits(g[l].gx)))
    } else {
        e2
    };
    let e4 = e3.push((j, diag_bits(g, rows, columns, kind, step_time, l, r, c)));
    let e5 = if g[l].has_x && c + 1 < columns {
        e4.push((j + 1, neg_bits(g[l].gx)))
    } else {
        e4
    };
    let e6 = if g[l].has_y && r + 1 < rows {
        e5.push((j + columns, neg_bits(g[l].gy)))
    } else {
        e5
    };
    if l + 1 < g.len() {
        e6.push((j + rows * columns, neg_bits(gz_bits(g, l))))
    } else {
        e6
    }
}

/// Whether the column of the cell at `(l, r, c)` inside the given
/// compressed-sparse-column arrays holds exactly the cell's stencil
/// entries.
#[verifier::opaque]
pub open spec fn column_matches(
    column_offsets: Seq<usize>,
    row_indices: Seq<usize>,
    values: Seq<u64>,
    g: Seq<LayerCoeffs>,
    rows: int,
    columns: int,
    kind: AnalysisType,
    step_time: u64,
    l: int,
    r: int,
    c: int,
) -> bool {
    let jj = flat_index(rows, columns, l, r, c);
    let col = col_entries(g, rows, columns, kind, step_time, l, r, c);
    let start = column_offsets[jj] as int;
    &&& 0 <= jj
    &&& jj + 1 < column_offsets.len()
    &&& column_offsets[jj + 1] == start + col.len()
    &&& start + col.len() <= row_indices.len()
    &&& row_indices.len() == values.len()
    &&& forall|t: int|
        0 <= t < col.len() ==> (#[trigger] row_indices[start + t]) as int == col[t].0 && values[
            start + t] == col[t].1
}

/// Whether `m` is the conductance matrix of the grid `g` under the given
/// analysis: square with one row per cell, well formed, and holding every
/// cell's stencil column.
pub open spec fn is_conductance(
    m: SparseMatrix,
    g: Seq<LayerCoeffs>,
    rows: int,
    columns: int,
    kind: AnalysisType,
    step_time: u64,
) -> bool {
    &&& m.wf()
    &&& m.rows == g.len() * rows * columns
    &&& m.columns == m.rows
    &&& forall|l: int, r: int, c: int|
        0 <= l < g.len() && 0 <= r < rows && 0 <= c < columns ==> #[trigger] column_matches(
            m.column_offsets@,
            m.row_indices@,
            m.values@,
            g,
            rows,
            columns,
            kind,
            step_time,
            l,
            r,
            c,
        )
}

/// Compute one cell's diagonal entry.
fn diag_exec(
    grid: &ThermalGrid,
    kind: AnalysisType,
    step_time: u64,
    l: usize,
    r: usize,
    c: usize,
) -> (d: u64)
    requires
        l < grid.layers@.len(),
        r < grid.rows,
        c < grid.columns,
    ensures
        d == diag_bits(
            grid.layers@,
            grid.rows as int,
            grid.columns as int,
            kind,
            step_time,
            l as int,
            r as int,
            c as int,
        ),
{
    let layer_count = grid.layers.len();
    let cur = grid.layers[l];
    let mut d: u64 = F64_ZERO;
    if l > 0 {
        d = fadd(d, fseries(grid.layers[l - 1].ghalf, cur.ghalf));
    }
    if cur.has_y && r > 0 {
        d = fadd(d, cur.gy);
    }
    if cur.has_x && c > 0 {
        d = fadd(d, cur.gx);
    }
    if cur.has_x && c + 1 < grid.columns {
        d = fadd(d, cur.gx);
    }
    if cur.has_y && r + 1 < grid.rows {
        d = fadd(d, cur.gy);
    }
    if l < layer_count - 1 {
        d = fadd(d, fseries(cur.ghalf, grid.layers[l + 1].ghalf));
    }
    match cur.ambient {
        Some(ga) => {
            if !matches!(kind, AnalysisType::Undefined) {
                d = fadd(d, ga);
            }
        },
        None => {},
    }
    if matches!(kind, AnalysisType::Transient) {
        d = fadd(d, fdiv(cur.cap, step_time));
    }
    d
}

/// Build one cell's matrix column: the row indices and values of its
/// stencil entries, in ascending row order.
#[verifier::rlimit(100)]
fn build_column(
    grid: &ThermalGrid,
    kind: AnalysisType,
    step_time: u64,
    l: usize,
    r: usize,
    c: usize,
    j: usize,
    rc: usize,
    cells: usize,
) -> (res: (Vec<usize>, Vec<u64>))
    requires
        l < grid.layers@.len(),
        r < grid.rows,
        c < grid.columns,
        rc == grid.rows * grid.columns,
        cells == grid.layers@.len() * grid.rows * grid.columns,
        j == flat_index(grid.rows as int, grid.columns as int, l as int, r as int, c as int),
    ensures
        ({
            let col = col_entries(
                grid.layers@,
                grid.rows as int,
                grid.columns as int,
                kind,
                step_time,
                l as int,
                r as int,
                c as int,
            );
            &&& res.0@.len() == col.len()
            &&& res.1@.len() == col.len()
            &&& forall|t: int|
                0 <= t < col.len() ==> (#[trigger] res.0@[t]) as int == col[t].0 && res.1@[t]
                    == col[t].1
            &&& forall|t: int| 0 <= t < col.len() - 1 ==> (#[trigger] res.0@[t]) < res.0@[t + 1]
            &&& forall|t: int| 0 <= t < col.len() ==> (#[trigger] res.0@[t]) < cells
        }),
{
    let ghost gl = grid.layers@;
    let ghost ri = grid.rows as int;
    let ghost ci = grid.columns as int;
    let layer_count = grid.layers.len();
    proof {
        assert(l > 0 ==> j >= rc && j - rc == flat_index(ri, ci, l - 1, r as int, c as int))
            by (nonlinear_arith)
            requires
                j == flat_index(ri, ci, l as int, r as int, c as int),
                rc == ri * ci,
                l < gl.len(),
                r < ri,
                c < ci,
                cells == gl.len() * ri * ci,
        ;
        assert(r > 0 ==> j >= ci && j - ci == flat_index(ri, ci, l as int, r - 1, c as int))
            by (nonlinear_arith)
            requires
                j == flat_index(ri, ci, l as int, r as int, c as int),
                r < ri,
                c < ci,
                0 <= l,
        ;
        assert(j < cells && (l + 1 < gl.len() ==> j + rc < cells && j + rc == flat_index(
            ri,
            ci,
            l + 1,
            r as int,
            c as int,
        ))) by (nonlinear_arith)
            requires
                j == flat_index(ri, ci, l as int, r as int, c as int),
                rc == ri * ci,
                l < gl.len(),
                r < ri,
                c < ci,
                cells == gl.len() * ri * ci,
        ;
        assert(r + 1 < ri ==> j + ci < cells) by (nonlinear_arith)
            requires
                j == flat_index(ri, ci, l as int, r as int, c as int),
                rc == ri * ci,
                l < gl.len(),
                r < ri,
                c < ci,
                cells == gl.len() * ri * ci,
        ;
        assert(c + 1 < ci ==> j + 1 < cells) by (nonlinear_arith)
            requires
                j == flat_index(ri, ci, l as int, r as int, c as int),
                rc == ri * ci,
                l < gl.len(),
                r < ri,
                c < ci,
                cells == gl.len() * ri * ci,
        ;
        assert(rc >= ci && (r > 0 ==> rc > ci) && (r + 1 < ri ==> rc > ci)) by (nonlinear_arith)
            requires
                rc == ri * ci,
                r < ri,
                c < ci,
                0 <= r,
                0 <= c,
        ;
    }
    let cur = grid.layers[l];
    let d = diag_exec(grid, kind, step_time, l, r, c);
    let mut col_rows: Vec<usize> = Vec::new();
    let mut col_vals: Vec<u64> = Vec::new();
    if l > 0 {
        col_rows.push(j - rc);
        col_vals.push(fneg(fseries(grid.layers[l - 1].ghalf, cur.ghalf)));
    }
    if cur.has_y && r > 0 {
        col_rows.push(j - grid.columns);
        col_vals.push(fneg(cur.gy));
    }
    if cur.has_x && c > 0 {
        col_rows.push(j - 1);
        col_vals.push(fneg(cur.gx));
    }
    col_rows.push(j);
    col_vals.push(d);
    if cur.has_x && c + 1 < grid.columns {
        col_rows.push(j + 1);
        col_vals.push(fneg(cur.gx));
    }
    if cur.has_y && r + 1 < grid.rows {
        col_rows.push(j + grid.columns);
        col_vals.push(fneg(cur.gy));
    }
    if l < layer_count - 1 {
        col_rows.push(j + rc);
        col_vals.push(fneg(fseries(cur.ghalf, grid.layers[l + 1].ghalf)));
    }
    proof {
        let col = col_entries(gl, ri, ci, kind, step_time, l as int, r as int, c as int);
        assert(col_rows@.len() == col.len());
        assert(col_vals@.len() == col.len());
        assert forall|t: int|
            0 <= t < col.len() implies (#[trigger] col_rows@[t]) as int == col[t].0 && col_vals@[t]
            == col[t].1 by {}
        assert forall|t: int|
            0 <= t < col.len() - 1 implies (#[trigger] col_rows@[t]) < col_rows@[t + 1] by {}
        assert forall|t: int| 0 <= t < col.len() implies (#[trigger] col_rows@[t]) < cells by {}
    }
    (col_rows, col_vals)
}

/// Whether cell `(l2, r2, c2)` comes before cell `(l, r, c)` in layer-major,
/// then row, then column order.
pub open spec fn lex_before(l2: int, r2: int, c2: int, l: int, r: int, c: int) -> bool {
    l2 < l || (l2 == l && r2 < r) || (l2 == l && r2 == r && c2 < c)
}



/// A column already present is still present after the arrays grow at the
/// end.
proof fn lemma_column_preserved(
    off0: Seq<usize>,
    rows0: Seq<usize>,
    vals0: Seq<u64>,
    off1: Seq<usize>,
    rows1: Seq<usize>,
    vals1: Seq<u64>,
    g: Seq<LayerCoeffs>,
    rows: int,
    columns: int,
    kind: AnalysisType,
    step_time: u64,
    l: int,
    r: int,
    c: int,
)
    requires
        column_matches(off0, rows0, vals0, g, rows, columns, kind, step_time, l, r, c),
        off0.len() <= off1.len(),
        forall|i: int| 0 <= i < off0.len() ==> (#[trigger] off1[i]) == off0[i],
        rows0.len() <= rows1.len(),
        forall|i: int| 0 <= i < rows0.len() ==> (#[trigger] rows1[i]) == rows0[i],
        vals0.len() <= vals1.len(),
        forall|i: int| 0 <= i < vals0.len() ==> (#[trigger] vals1[i]) == vals0[i],
        rows1.len() == vals1.len(),
    ensures
        column_matches(off1, rows1, vals1, g, rows, columns, kind, step_time, l, r, c),
{
    reveal(column_matches);
    let jj = flat_index(rows, columns, l, r, c);
    let col = col_entries(g, rows, columns, kind, step_time, l, r, c);
    let start = off0[jj] as int;
    assert(off1[jj] == off0[jj]);
    assert(off1[jj + 1] == off0[jj + 1]);
    assert forall|t: int|
        0 <= t < col.len() implies (#[trigger] rows1[off1[jj] as int + t]) as int == col[t].0
        && vals1[off1[jj] as int + t] == col[t].1 by {
        assert(rows0[start + t] as int == col[t].0);
        assert(vals0[start + t] == col[t].1);
        assert(rows1[start + t] == rows0[start + t]);
        assert(vals1[start + t] == vals0[start + t]);
    }
}

/// A freshly appended column is present once its entries and offsets are in
/// place.
proof fn lemma_column_new(
    off1: Seq<usize>,
    rows1: Seq<usize>,
    vals1: Seq<u64>,
    g: Seq<LayerCoeffs>,
    rows: int,
    columns: int,
    kind: AnalysisType,
    step_time: u64,
    l: int,
    r: int,
    c: int,
)
    requires
        0 <= flat_index(rows, columns, l, r, c),
        flat_index(rows, columns, l, r, c) + 1 < off1.len(),
        off1[flat_index(rows, columns, l, r, c) + 1] == off1[flat_index(rows, columns, l, r, c)]
            + col_entries(g, rows, columns, kind, step_time, l, r, c).len(),
        off1[flat_index(rows, columns, l, r, c)] + col_entries(
            g,
            rows,
            columns,
            kind,
            step_time,
            l,
            r,
            c,
        ).len() <= rows1.len(),
        rows1.len() == vals1.len(),
        forall|t: int|
            0 <= t < col_entries(g, rows, columns, kind, step_time, l, r, c).len() ==> (
            #[trigger] rows1[off1[flat_index(rows, columns, l, r, c)] as int + t]) as int
                == col_entries(g, rows, columns, kind, step_time, l, r, c)[t].0 && vals1[off1[
                flat_index(rows, columns, l, r, c)
            ] as int + t] == col_entries(g, rows, columns, kind, step_time, l, r, c)[t].1,
    ensures
        column_matches(off1, rows1, vals1, g, rows, columns, kind, step_time, l, r, c),
{
    reveal(column_matches);
}

/// Adjacent-step monotonicity chained over a range.
proof fn lemma_adjacent_chain(offsets: Seq<usize>, j1: int, j2: int)
    requires
        0 <= j1 <= j2,
        j2 < offsets.len(),
        forall|i: int| 0 <= i < offsets.len() - 1 ==> (#[trigger] offsets[i]) <= offsets[i + 1],
    ensures
        offsets[j1] <= offsets[j2],
    decreases j2 - j1,
{
    if j1 < j2 {
        lemma_adjacent_chain(offsets, j1 + 1, j2);
    }
}

/// Append one cell's column to the arrays under construction, preserving
/// the assembly invariants.
#[verifier::rlimit(100)]
fn append_column(
    grid: &ThermalGrid,
    kind: AnalysisType,
    step_time: u64,
    l: usize,
    r: usize,
    c: usize,
    j: usize,
    rc: usize,
    cells: usize,
    values: &mut Vec<u64>,
    row_indices: &mut Vec<usize>,
    offsets: &mut Vec<usize>,
)
    requires
        l < grid.layers@.len(),
        r < grid.rows,
        c < grid.columns,
        rc == grid.rows * grid.columns,
        cells == grid.layers@.len() * grid.rows * grid.columns,
        j == flat_index(grid.rows as int, grid.columns as int, l as int, r as int, c as int),
        old(values)@.len() == old(row_indices)@.len(),
        old(offsets)@.len() == j + 1,
        old(offsets)@[0] == 0,
        old(offsets)@[j as int] == old(values)@.len(),
        forall|i: int|
            0 <= i < old(offsets)@.len() - 1 ==> (#[trigger] old(offsets)@[i]) <= old(offsets)@[i + 1],
        forall|k: int|
            0 <= k < old(row_indices)@.len() ==> (#[trigger] old(row_indices)@[k]) < cells,
        forall|jj: int, k: int|
            #![trigger old(offsets)@[jj], old(row_indices)@[k]]
            0 <= jj < old(offsets)@.len() - 1 && old(offsets)@[jj] <= k < old(offsets)@[jj + 1] - 1
                ==> old(row_indices)@[k] < old(row_indices)@[k + 1],
        forall|l2: int, r2: int, c2: int|
            0 <= l2 < grid.layers@.len() && 0 <= r2 < grid.rows && 0 <= c2 < grid.columns
                && lex_before(l2, r2, c2, l as int, r as int, c as int) ==> #[trigger] column_matches(
                old(offsets)@,
                old(row_indices)@,
                old(values)@,
                grid.layers@,
                grid.rows as int,
                grid.columns as int,
                kind,
                step_time,
                l2,
                r2,
                c2,
            ),
    ensures
        ({
            let col = col_entries(
                grid.layers@,
                grid.rows as int,
                grid.columns as int,
                kind,
                step_time,
                l as int,
                r as int,
                c as int,
            );
            &&& final(values)@.len() == old(values)@.len() + col.len()
            &&& final(values)@.len() == final(row_indices)@.len()
            &&& final(offsets)@.len() == j + 2
            &&& final(offsets)@[0] == 0
            &&& final(offsets)@[j + 1] == final(values)@.len()
            &&& forall|i: int|
                0 <= i < final(offsets)@.len() - 1 ==> (#[trigger] final(offsets)@[i]) <= final(offsets)@[i + 1]
            &&& forall|k: int|
                0 <= k < final(row_indices)@.len() ==> (#[trigger] final(row_indices)@[k]) < cells
            &&& forall|jj: int, k: int|
                #![trigger final(offsets)@[jj], final(row_indices)@[k]]
                0 <= jj < final(offsets)@.len() - 1 && final(offsets)@[jj] <= k < final(offsets)@[jj + 1] - 1 ==> final(row_indices)@[k] < final(row_indices)@[k + 1]
            &&& forall|l2: int, r2: int, c2: int|
                0 <= l2 < grid.layers@.len() && 0 <= r2 < grid.rows && 0 <= c2 < grid.columns
                    && lex_before(l2, r2, c2, l as int, r as int, c as int + 1)
                    ==> #[trigger] column_matches(
                    final(offsets)@,
                    final(row_indices)@,
                    final(values)@,
                    grid.layers@,
                    grid.rows as int,
                    grid.columns as int,
                    kind,
                    step_time,
                    l2,
                    r2,
                    c2,
                )
        }),
{
    let ghost g = grid.layers@;
    let ghost ri = grid.rows as int;
    let ghost ci = grid.columns as int;
    let ghost old_offsets = offsets@;
    let ghost old_rows = row_indices@;
    let ghost old_values = values@;
    proof {
        assert(j < cells) by (nonlinear_arith)
            requires
                j == flat_index(ri, ci, l as int, r as int, c as int),
                cells == g.len() * ri * ci,
                l < g.len(),
                r < ri,
                c < ci,
        ;
    }
    let (mut col_rows, mut col_vals) = build_column(grid, kind, step_time, l, r, c, j, rc, cells);
    let ghost col = col_entries(g, ri, ci, kind, step_time, l as int, r as int, c as int);
    let ghost new_rows = col_rows@;
    let ghost new_vals = col_vals@;
    row_indices.append(&mut col_rows);
    values.append(&mut col_vals);
    offsets.push(values.len());
    proof {
        reveal(column_matches);
        let cur_l = l as int;
        let cur_r = r as int;
        let cur_c = c as int;
        let start = old_values.len() as int;
        assert forall|jj: int, k: int|
            #![trigger offsets@[jj], row_indices@[k]]
            0 <= jj < offsets@.len() - 1 && offsets@[jj] <= k < offsets@[jj + 1] - 1
            implies row_indices@[k] < row_indices@[k + 1] by {
            if jj < j {
                assert(offsets@[jj] == old_offsets[jj]);
                assert(offsets@[jj + 1] == old_offsets[jj + 1]);
                lemma_adjacent_chain(old_offsets, jj + 1, j as int);
                assert(old_offsets[jj + 1] <= old_offsets[j as int]);
                assert(row_indices@[k] == old_rows[k]);
                assert(row_indices@[k + 1] == old_rows[k + 1]);
                assert(old_rows[k] < old_rows[k + 1]);
            } else {
                assert(jj == j);
                assert(offsets@[jj] == start);
                assert(offsets@[jj + 1] == start + new_rows.len());
                assert(row_indices@[k] == new_rows[k - start]);
                assert(row_indices@[k + 1] == new_rows[k - start + 1]);
                assert(new_rows[k - start] < new_rows[k - start + 1]);
            }
        }
        assert forall|l2: int, r2: int, c2: int|
            0 <= l2 < g.len() && 0 <= r2 < ri && 0 <= c2 < ci && lex_before(
                l2,
                r2,
                c2,
                cur_l,
                cur_r,
                cur_c + 1,
            ) implies #[trigger] column_matches(
            offsets@,
            row_indices@,
            values@,
            g,
            ri,
            ci,
            kind,
            step_time,
            l2,
            r2,
            c2,
        ) by {
            if lex_before(l2, r2, c2, cur_l, cur_r, cur_c) {
                assert(column_matches(
                    old_offsets,
                    old_rows,
                    old_values,
                    g,
                    ri,
                    ci,
                    kind,
                    step_time,
                    l2,
                    r2,
                    c2,
                ));
                lemma_column_preserved(
                    old_offsets,
                    old_rows,
                    old_values,
                    offsets@,
                    row_indices@,
                    values@,
                    g,
                    ri,
                    ci,
                    kind,
                    step_time,
                    l2,
                    r2,
                    c2,
                );
            } else {
                assert(l2 == cur_l && r2 == cur_r && c2 == cur_c);
                let jj = flat_index(ri, ci, l2, r2, c2);
                assert(jj == j as int);
                assert(offsets@[jj] == old_values.len());
                assert(offsets@[jj + 1] == values@.len());
                let start2 = offsets@[jj] as int;
                assert forall|t: int|
                    0 <= t < col.len() implies (#[trigger] row_indices@[start2 + t]) as int
                    == col[t].0 && values@[start2 + t] == col[t].1 by {
                    assert(row_indices@[start2 + t] == new_rows[t]);
                    assert(values@[start2 + t] == new_vals[t]);
                }
                lemma_column_new(
                    offsets@,
                    row_indices@,
                    values@,
                    g,
                    ri,
                    ci,
                    kind,
                    step_time,
                    l2,
                    r2,
                    c2,
                );
            }
        }
    }
}

/// Assemble the value, row-index and column-offset arrays of the
/// conductance matrix, cell by cell in layer-major order.
#[verifier::rlimit(100)]
#[verifier::loop_isolation(true)]
fn assemble_arrays(
    grid: &ThermalGrid,
    kind: AnalysisType,
    step_time: u64,
    cells: usize,
    Ghost(ls): Ghost<Seq<crate::stack::PhysLayer>>,
    Ghost(cl): Ghost<u64>,
    Ghost(cw): Ghost<u64>,
) -> (res: (Vec<u64>, Vec<usize>, Vec<usize>))
    requires
        cells == grid.layers@.len() * grid.rows * grid.columns,
        grid.layers@.len() == ls.len(),
        forall|i: int| 0 <= i < ls.len() ==> grid.layers@[i] == coeffs_of(#[trigger] ls[i], cl, cw),
    ensures
        ({
            let values = res.0;
            let row_indices = res.1;
            let offsets = res.2;
            &&& values@.len() == row_indices@.len()
            &&& values@.len() as int == connections_spec(
                ls,
                grid.rows as int,
                grid.columns as int,
            )
            &&& offsets@.len() == cells + 1
            &&& offsets@[0] == 0
            &&& offsets@[cells as int] == values@.len()
            &&& forall|i: int|
                0 <= i < offsets@.len() - 1 ==> (#[trigger] offsets@[i]) <= offsets@[i + 1]
            &&& forall|k: int|
                0 <= k < row_indices@.len() ==> (#[trigger] row_indices@[k]) < cells
            &&& forall|jj: int, k: int|
                #![trigger offsets@[jj], row_indices@[k]]
                0 <= jj < offsets@.len() - 1 && offsets@[jj] <= k < offsets@[jj + 1] - 1
                    ==> row_indices@[k] < row_indices@[k + 1]
            &&& forall|l2: int, r2: int, c2: int|
                0 <= l2 < grid.layers@.len() && 0 <= r2 < grid.rows && 0 <= c2 < grid.columns
                    ==> #[trigger] column_matches(
                    offsets@,
                    row_indices@,
                    values@,
                    grid.layers@,
                    grid.rows as int,
                    grid.columns as int,
                    kind,
                    step_time,
                    l2,
                    r2,
                    c2,
                )
        }),
{
    let layer_count = grid.layers.len();
    let rows_n = grid.rows;
    let cols_n = grid.columns;
    let ghost g = grid.layers@;
    let ghost ri = rows_n as int;
    let ghost ci = cols_n as int;
    if layer_count == 0 {
        let values: Vec<u64> = Vec::new();
        let row_indices: Vec<usize> = Vec::new();
        let mut offsets: Vec<usize> = Vec::new();
        offsets.push(0);
        proof {
            assert(cells == 0) by (nonlinear_arith)
                requires
                    cells == g.len() * ri * ci,
                    g.len() == 0,
            ;
        }
        return (values, row_indices, offsets);
    }
    let rc = {
        proof {
            assert(ri * ci <= ls.len() * ri * ci) by (nonlinear_arith)
                requires
                    ls.len() >= 1,
                    ri >= 0,
                    ci >= 0,
            ;
        }
        rows_n * cols_n
    };

    let mut values: Vec<u64> = Vec::new();
    let mut row_indices: Vec<usize> = Vec::new();
    let mut offsets: Vec<usize> = Vec::new();
    offsets.push(0);
    let mut j: usize = 0;
    let mut l: usize = 0;
    proof {
        assert(flat_index(ri, ci, 0, 0, 0) == 0) by (nonlinear_arith);
    }
    while l < layer_count
        invariant
            grid.layers@ == g,
            ls.len() == g.len(),
            forall|i2: int|
                0 <= i2 < ls.len() ==> g[i2] == coeffs_of(
                    #[trigger] ls[i2],
                    cl,
                    cw,
                ),
            ri == rows_n as int,
            ci == cols_n as int,
            rows_n == grid.rows,
            cols_n == grid.columns,
            layer_count == g.len(),
            rc == rows_n * cols_n,
            cells == g.len() * ri * ci,
            l <= layer_count,
            j as int == flat_index(ri, ci, l as int, 0, 0),
            j <= cells,
            values@.len() == row_indices@.len(),
            values@.len() as int == conn_upto(ls, ri, ci, l as int),
            offsets@.len() == j + 1,
            offsets@[0] == 0,
            offsets@[j as int] == values@.len(),
            forall|i: int|
                0 <= i < offsets@.len() - 1 ==> (#[trigger] offsets@[i]) <= offsets@[i + 1],
            forall|k: int|
                0 <= k < row_indices@.len() ==> (#[trigger] row_indices@[k]) < cells,
            forall|jj: int, k: int|
                #![trigger offsets@[jj], row_indices@[k]]
                0 <= jj < offsets@.len() - 1 && offsets@[jj] <= k < offsets@[jj + 1] - 1
                    ==> row_indices@[k] < row_indices@[k + 1],
            forall|l2: int, r2: int, c2: int|
                0 <= l2 < ls.len() && 0 <= r2 < ri && 0 <= c2 < ci && lex_before(
                    l2,
                    r2,
                    c2,
                    l as int,
                    0,
                    0,
                ) ==> #[trigger] column_matches(
                    offsets@,
                    row_indices@,
                    values@,
                    g,
                    ri,
                    ci,
                    kind,
                    step_time,
                    l2,
                    r2,
                    c2,
                ),
        decreases layer_count - l,
    {
        let mut r: usize = 0;
        while r < rows_n
            invariant
                grid.layers@ == g,
                ls.len() == g.len(),
                forall|i2: int|
                    0 <= i2 < ls.len() ==> g[i2] == coeffs_of(
                        #[trigger] ls[i2],
                        cl,
                        cw,
                    ),
                ri == rows_n as int,
                ci == cols_n as int,
                rows_n == grid.rows,
                cols_n == grid.columns,
                layer_count == g.len(),
                rc == rows_n * cols_n,
                cells == g.len() * ri * ci,
                l < layer_count,
                r <= rows_n,
                j as int == flat_index(ri, ci, l as int, r as int, 0),
                j <= cells,
                values@.len() == row_indices@.len(),
                values@.len() as int == conn_upto(ls, ri, ci, l as int) + layer_conn_upto(
                    ls,
                    ri,
                    ci,
                    l as int,
                    r as int,
                ),
                offsets@.len() == j + 1,
                offsets@[0] == 0,
                offsets@[j as int] == values@.len(),
                forall|i: int|
                    0 <= i < offsets@.len() - 1 ==> (#[trigger] offsets@[i]) <= offsets@[i + 1],
                forall|k: int|
                    0 <= k < row_indices@.len() ==> (#[trigger] row_indices@[k]) < cells,
                forall|jj: int, k: int|
                    #![trigger offsets@[jj], row_indices@[k]]
                    0 <= jj < offsets@.len() - 1 && offsets@[jj] <= k < offsets@[jj + 1] - 1
                        ==> row_indices@[k] < row_indices@[k + 1],
                forall|l2: int, r2: int, c2: int|
                    0 <= l2 < ls.len() && 0 <= r2 < ri && 0 <= c2 < ci && lex_before(
                        l2,
                        r2,
                        c2,
                        l as int,
                        r as int,
                        0,
                    ) ==> #[trigger] column_matches(
                        offsets@,
                        row_indices@,
                        values@,
                        g,
                        ri,
                        ci,
                        kind,
                        step_time,
                        l2,
                        r2,
                        c2,
                    ),
            decreases rows_n - r,
        {
            let mut c: usize = 0;
            while c < cols_n
                invariant
                    grid.layers@ == g,
                    ls.len() == g.len(),
                    forall|i2: int|
                        0 <= i2 < ls.len() ==> g[i2] == coeffs_of(
                            #[trigger] ls[i2],
                            cl,
                            cw,
                        ),
                    ri == rows_n as int,
                    ci == cols_n as int,
                    rows_n == grid.rows,
                    cols_n == grid.columns,
                    layer_count == g.len(),
                    rc == rows_n * cols_n,
                    cells == g.len() * ri * ci,
                    l < layer_count,
                    r < rows_n,
                    c <= cols_n,
                    j as int == flat_index(ri, ci, l as int, r as int, c as int),
                    j <= cells,
                    values@.len() == row_indices@.len(),
                    values@.len() as int == conn_upto(ls, ri, ci, l as int) + layer_conn_upto(
                        ls,
                        ri,
                        ci,
                        l as int,
                        r as int,
                    ) + row_conn_upto(ls, ri, ci, l as int, r as int, c as int),
                    offsets@.len() == j + 1,
                    offsets@[0] == 0,
                    offsets@[j as int] == values@.len(),
                    forall|i: int|
                        0 <= i < offsets@.len() - 1 ==> (#[trigger] offsets@[i]) <= offsets@[i
                            + 1],
                    forall|k: int|
                        0 <= k < row_indices@.len() ==> (#[trigger] row_indices@[k]) < cells,
                    forall|jj: int, k: int|
                        #![trigger offsets@[jj], row_indices@[k]]
                        0 <= jj < offsets@.len() - 1 && offsets@[jj] <= k < offsets@[jj + 1] - 1
                            ==> row_indices@[k] < row_indices@[k + 1],
                    forall|l2: int, r2: int, c2: int|
                        0 <= l2 < ls.len() && 0 <= r2 < ri && 0 <= c2 < ci && lex_before(
                            l2,
                            r2,
                            c2,
                            l as int,
                            r as int,
                            c as int,
                        ) ==> #[trigger] column_matches(
                            offsets@,
                            row_indices@,
                            values@,
                            g,
                            ri,
                            ci,
                            kind,
                            step_time,
                            l2,
                            r2,
                            c2,
                        ),
                decreases cols_n - c,
            {
                proof {
                    assert(j < cells) by (nonlinear_arith)
                        requires
                            j == flat_index(ri, ci, l as int, r as int, c as int),
                            cells == ls.len() * ri * ci,
                            g.len() == ls.len(),
                            l < g.len(),
                            r < ri,
                            c < ci,
                    ;
                    assert(g[l as int] == coeffs_of(
                        ls[l as int],
                        cl,
                        cw,
                    ));
                }
                append_column(
                    grid,
                    kind,
                    step_time,
                    l,
                    r,
                    c,
                    j,
                    rc,
                    cells,
                    &mut values,
                    &mut row_indices,
                    &mut offsets,
                );
                proof {
                    assert(col_entries(
                        g,
                        ri,
                        ci,
                        kind,
                        step_time,
                        l as int,
                        r as int,
                        c as int,
                    ).len() == cell_nnz(ls, ri, ci, l as int, r as int, c as int));
                }
                j = j + 1;
                c = c + 1;
            }
            proof {
                assert((l as int * ri + r) * ci + ci == (l as int * ri + r + 1) * ci)
                    by (nonlinear_arith);
            }
            r = r + 1;
        }
        proof {
            assert((l as int * ri + ri) * ci == ((l + 1) as int * ri) * ci)
                by (nonlinear_arith);
        }
        l = l + 1;
    }


    proof {
        assert forall|l2: int, r2: int, c2: int|
            0 <= l2 < g.len() && 0 <= r2 < ri && 0 <= c2 < ci implies #[trigger] column_matches(
            offsets@,
            row_indices@,
            values@,
            g,
            ri,
            ci,
            kind,
            step_time,
            l2,
            r2,
            c2,
        ) by {
            assert(lex_before(l2, r2, c2, layer_count as int, 0, 0));
        }
    }
    (values, row_indices, offsets)
}

/// Check that the precomputed layer and cell counts match the grid, and
/// return the cell count.
fn checked_cells(stack: &Stack, grid: &ThermalGrid, Ghost(ls): Ghost<
    Seq<crate::stack::PhysLayer>,
>) -> (res: Result<usize, Error>)
    requires
        grid.layers@.len() == ls.len(),
        grid.rows == stack.dimensions.spec_rows(),
        grid.columns == stack.dimensions.spec_columns(),
    ensures
        res is Ok <==> stack.dimensions.spec_layers() == ls.len()
            && stack.dimensions.spec_cells() == ls.len() * stack.dimensions.spec_rows()
            * stack.dimensions.spec_columns(),
        res matches Ok(cells) ==> cells == stack.dimensions.spec_cells() && cells == ls.len()
            * grid.rows * grid.columns,
        res is Err ==> res == Err::<usize, Error>(Error::BuildFailure),
{
    let layer_count = grid.layers.len();
    let rows_n = grid.rows;
    let cols_n = grid.columns;
    let ghost ri = rows_n as int;
    let ghost ci = cols_n as int;
    if stack.dimensions.layers() != layer_count {
        return Err(Error::BuildFailure);
    }
    let cells: usize;
    if layer_count == 0 || rows_n == 0 || cols_n == 0 {
        cells = 0;
        proof {
            assert(ls.len() * ri * ci == 0) by (nonlinear_arith)
                requires
                    ls.len() == 0 || ri == 0 || ci == 0,
            ;
        }
    } else {
        let a = match layer_count.checked_mul(rows_n) {
            Some(v) => v,
            None => {
                proof {
                    assert(ls.len() * ri * ci > usize::MAX) by (nonlinear_arith)
                        requires
                            ls.len() * ri > usize::MAX,
                            ci >= 1,
                    ;
                }
                return Err(Error::BuildFailure);
            },
        };
        cells = match a.checked_mul(cols_n) {
            Some(v) => v,
            None => {
                return Err(Error::BuildFailure);
            },
        };
    }
    if cells != stack.dimensions.cells() {
        return Err(Error::BuildFailure);
    }
    Ok(cells)
}

/// A system matrix: the assembled conductance matrix of a stack.
#[derive(Clone, Debug)]
pub struct SystemMatrix {
    /// The conductance matrix.
    pub matrix: SparseMatrix,
}

impl SystemMatrix {
    /// Assemble the conductance matrix of a thermal grid.  Every cell's
    /// column is discovered in layer-major order; the entry count found
    /// this way, and the cell count, must match the precomputed dimensions,
    /// or assembly fails with `BuildFailure`.
    #[verifier::rlimit(100)]
    #[verifier::spinoff_prover]
    #[verifier::loop_isolation(true)]
    pub fn new(stack: &Stack, analysis: &Analysis, grid: &ThermalGrid) -> (res: Result<
        SystemMatrix,
        Error,
    >)
        requires
            grid.layers@ == grid_spec(stack.elements@, stack.cell_length, stack.cell_width),
            grid.rows == stack.dimensions.spec_rows(),
            grid.columns == stack.dimensions.spec_columns(),
        ensures
            res is Ok <==> stack.wf(),
            res matches Ok(sm) ==> {
                &&& is_conductance(
                    sm.matrix,
                    grid.layers@,
                    grid.rows as int,
                    grid.columns as int,
                    analysis.spec_kind(),
                    analysis.spec_step_time(),
                )
                &&& sm.matrix.nonzeros == stack.dimensions.spec_connections()
                &&& sm.matrix.rows == stack.dimensions.spec_cells()
                &&& sm.matrix.columns == stack.dimensions.spec_cells()
            },
            res is Err ==> res == Err::<SystemMatrix, Error>(Error::BuildFailure),
    {
        let kind = analysis.kind();
        let step_time = analysis.step_time();
        let layer_count = grid.layers.len();
        let rows_n = grid.rows;
        let cols_n = grid.columns;
        let ghost g = grid.layers@;
        let ghost ls = stack_layers(stack.elements@);
        let ghost ri = rows_n as int;
        let ghost ci = cols_n as int;
        proof {
            assert(g.len() == ls.len());
            assert(forall|i: int|
                0 <= i < ls.len() ==> g[i] == coeffs_of(
                    #[trigger] ls[i],
                    stack.cell_length,
                    stack.cell_width,
                ));
        }
        let cells = match checked_cells(stack, grid, Ghost(ls)) {
            Ok(v) => v,
            Err(e) => {
                return Err(e);
            },
        };
        let ghost cl = stack.cell_length;
        let ghost cw = stack.cell_width;
        let (values, row_indices, offsets) = assemble_arrays(
            grid,
            kind,
            step_time,
            cells,
            Ghost(ls),
            Ghost(cl),
            Ghost(cw),
        );
        if values.len() != stack.dimensions.connections() {
            return Err(Error::BuildFailure);
        }
        let nonzeros = values.len();
        let m = SparseMatrix {
            rows: cells,
            columns: cells,
            nonzeros,
            values,
            row_indices,
            column_offsets: offsets,
        };
        proof {
            assert(m.wf());
        }
        Ok(SystemMatrix { matrix: m })
    }
}

/// Where each stencil entry sits inside a cell's column.
#[verifier::rlimit(100)]
proof fn lemma_col_positions(
    g: Seq<LayerCoeffs>,
    rows: int,
    columns: int,
    kind: AnalysisType,
    step_time: u64,
    l: int,
    r: int,
    c: int,
)
    requires
        0 <= l < g.len(),
        0 <= r < rows,
        0 <= c < columns,
    ensures
        ({
            let j = flat_index(rows, columns, l, r, c);
            let col = col_entries(g, rows, columns, kind, step_time, l, r, c);
            let nd: int = if l > 0 { 1 } else { 0 };
            let ns: int = if g[l].has_y && r > 0 { 1 } else { 0 };
            let nw: int = if g[l].has_x && c > 0 { 1 } else { 0 };
            let ne: int = if g[l].has_x && c + 1 < columns { 1 } else { 0 };
            let nn: int = if g[l].has_y && r + 1 < rows { 1 } else { 0 };
            let nu: int = if l + 1 < g.len() { 1 } else { 0 };
            &&& col.len() == nd + ns + nw + 1 + ne + nn + nu
            &&& l > 0 ==> col[0] == (j - rows * columns, neg_bits(gz_bits(g, l - 1)))
            &&& g[l].has_y && r > 0 ==> col[nd] == (j - columns, neg_bits(g[l].gy))
            &&& g[l].has_x && c > 0 ==> col[nd + ns] == (j - 1, neg_bits(g[l].gx))
            &&& col[nd + ns + nw].0 == j
            &&& g[l].has_x && c + 1 < columns ==> col[nd + ns + nw + 1] == (
                j + 1,
                neg_bits(g[l].gx),
            )
            &&& g[l].has_y && r + 1 < rows ==> col[nd + ns + nw + 1 + ne] == (
                j + columns,
                neg_bits(g[l].gy),
            )
            &&& l + 1 < g.len() ==> col[nd + ns + nw + 1 + ne + nn] == (
                j + rows * columns,
                neg_bits(gz_bits(g, l)),
            )
        }),
{
}

/// Law: the conductance matrix is structurally symmetric.  Every
/// off-diagonal entry of a cell's column points at a neighbouring cell,
/// and that neighbour's column holds an entry pointing back with the very
/// same value: the conductance of the shared face, negated, computed once
/// per pair of neighbours.  Combined with the assembler's contract, which
/// pins every column of the matrix to `col_entries`, this shows that every
/// stored off-diagonal entry `(i, j, v)` has a mirrored entry `(j, i, v)`.
#[verifier::rlimit(100)]
pub proof fn lemma_conductance_symmetric(
    g: Seq<LayerCoeffs>,
    rows: int,
    columns: int,
    kind: AnalysisType,
    step_time: u64,
    l: int,
    r: int,
    c: int,
    t: int,
)
    requires
        0 <= l < g.len(),
        0 <= r < rows,
        0 <= c < columns,
        0 <= t < col_entries(g, rows, columns, kind, step_time, l, r, c).len(),
        col_entries(g, rows, columns, kind, step_time, l, r, c)[t].0 != flat_index(
            rows,
            columns,
            l,
            r,
            c,
        ),
    ensures
        exists|l2: int, r2: int, c2: int, t2: int|
            #![trigger col_entries(g, rows, columns, kind, step_time, l2, r2, c2)[t2]]
            {
                &&& 0 <= l2 < g.len()
                &&& 0 <= r2 < rows
                &&& 0 <= c2 < columns
                &&& flat_index(rows, columns, l2, r2, c2) == col_entries(
                    g,
                    rows,
                    columns,
                    kind,
                    step_time,
                    l,
                    r,
                    c,
                )[t].0
                &&& 0 <= t2 < col_entries(g, rows, columns, kind, step_time, l2, r2, c2).len()
                &&& col_entries(g, rows, columns, kind, step_time, l2, r2, c2)[t2].0 == flat_index(
                    rows,
                    columns,
                    l,
                    r,
                    c,
                )
                &&& col_entries(g, rows, columns, kind, step_time, l2, r2, c2)[t2].1 == col_entries(
                    g,
                    rows,
                    columns,
                    kind,
                    step_time,
                    l,
                    r,
                    c,
                )[t].1
            },
{
    let j = flat_index(rows, columns, l, r, c);
    let col = col_entries(g, rows, columns, kind, step_time, l, r, c);
    let hx = g[l].has_x;
    let hy = g[l].has_y;
    let nd: int = if l > 0 { 1 } else { 0 };
    let ns: int = if hy && r > 0 { 1 } else { 0 };
    let nw: int = if hx && c > 0 { 1 } else { 0 };
    let ne: int = if hx && c + 1 < columns { 1 } else { 0 };
    let nn: int = if hy && r + 1 < rows { 1 } else { 0 };
    lemma_col_positions(g, rows, columns, kind, step_time, l, r, c);
    assert((l * rows + r) * columns + c - rows * columns == ((l - 1) * rows + r) * columns + c
        && (l * rows + r) * columns + c + rows * columns == ((l + 1) * rows + r) * columns + c
        && (l * rows + r) * columns + c - columns == (l * rows + (r - 1)) * columns + c && (l * rows
        + r) * columns + c + columns == (l * rows + (r + 1)) * columns + c) by (nonlinear_arith);
    if l > 0 && t == 0 {
        // The entry below: mirrored by the top entry of the cell beneath.
        lemma_col_positions(g, rows, columns, kind, step_time, l - 1, r, c);
        let col2 = col_entries(g, rows, columns, kind, step_time, l - 1, r, c);
        let t2 = col2.len() - 1;
        assert(col2[t2].0 == j && col2[t2].1 == col[t].1 && flat_index(rows, columns, l - 1, r, c)
            == col[t].0);
    } else if hy && r > 0 && t == nd {
        // The entry to the south: mirrored by the north entry of that cell.
        lemma_col_positions(g, rows, columns, kind, step_time, l, r - 1, c);
        let col2 = col_entries(g, rows, columns, kind, step_time, l, r - 1, c);
        let ns2: int = if hy && r - 1 > 0 { 1 } else { 0 };
        let t2 = nd + ns2 + nw + 1 + ne;
        assert(col2[t2].0 == j && col2[t2].1 == col[t].1 && flat_index(rows, columns, l, r - 1, c)
            == col[t].0);
    } else if hx && c > 0 && t == nd + ns {
        // The entry to the west: mirrored by the east entry of that cell.
        lemma_col_positions(g, rows, columns, kind, step_time, l, r, c - 1);
        let col2 = col_entries(g, rows, columns, kind, step_time, l, r, c - 1);
        let nw2: int = if hx && c - 1 > 0 { 1 } else { 0 };
        let t2 = nd + ns + nw2 + 1;
        assert(col2[t2].0 == j && col2[t2].1 == col[t].1 && flat_index(rows, columns, l, r, c - 1)
            == col[t].0);
    } else if hx && c + 1 < columns && t == nd + ns + nw + 1 {
        // The entry to the east: mirrored by the west entry of that cell.
        lemma_col_positions(g, rows, columns, kind, step_time, l, r, c + 1);
        let col2 = col_entries(g, rows, columns, kind, step_time, l, r, c + 1);
        let t2 = nd + ns;
        assert(col2[t2].0 == j && col2[t2].1 == col[t].1 && flat_index(rows, columns, l, r, c + 1)
            == col[t].0);
    } else if hy && r + 1 < rows && t == nd + ns + nw + 1 + ne {
        // The entry to the north: mirrored by the south entry of that cell.
        lemma_col_positions(g, rows, columns, kind, step_time, l, r + 1, c);
        let col2 = col_entries(g, rows, columns, kind, step_time, l, r + 1, c);
        let t2 = nd;
        assert(col2[t2].0 == j && col2[t2].1 == col[t].1 && flat_index(rows, columns, l, r + 1, c)
            == col[t].0);
    } else if l + 1 < g.len() && t == nd + ns + nw + 1 + ne + nn {
        // The entry above: mirrored by the bottom entry of the cell above.
        lemma_col_positions(g, rows, columns, kind, step_time, l + 1, r, c);
        let col2 = col_entries(g, rows, columns, kind, step_time, l + 1, r, c);
        let t2 = 0;
        assert(col2[t2].0 == j && col2[t2].1 == col[t].1 && flat_index(rows, columns, l + 1, r, c)
            == col[t].0);
    } else {
        // Only the diagonal position is left, contradicting the
        // off-diagonal hypothesis.
        assert(t == nd + ns + nw);
        assert(col[t].0 == j);
        assert(false);
    }
}

/// Two matrices agree on all offsets up to column `n` and on all entries
/// before that column's start.
pub open spec fn agree_upto(m1: SparseMatrix, m2: SparseMatrix, n: int) -> bool {
    &&& forall|jj: int|
        0 <= jj <= n ==> #[trigger] m1.column_offsets@[jj] == m2.column_offsets@[jj]
    &&& forall|k: int|
        0 <= k < m1.column_offsets@[n] ==> #[trigger] m1.values@[k] == m2.values@[k]
            && m1.row_indices@[k] == m2.row_indices@[k]
}

/// One step of the determinism induction: agreement up to a cell's
/// predecessor extends over the cell's own column.
#[verifier::rlimit(100)]
proof fn lemma_det_step(
    m1: SparseMatrix,
    m2: SparseMatrix,
    g: Seq<LayerCoeffs>,
    rows: int,
    columns: int,
    kind: AnalysisType,
    step_time: u64,
    l: int,
    r: int,
    c: int,
)
    requires
        is_conductance(m1, g, rows, columns, kind, step_time),
        is_conductance(m2, g, rows, columns, kind, step_time),
        0 <= l < g.len(),
        0 <= r < rows,
        0 < c <= columns,
        agree_upto(m1, m2, flat_index(rows, columns, l, r, c - 1)),
    ensures
        agree_upto(m1, m2, flat_index(rows, columns, l, r, c)),
{
    reveal(column_matches);
    let prev = flat_index(rows, columns, l, r, c - 1);
    assert(flat_index(rows, columns, l, r, c) == prev + 1);
    assert(column_matches(
        m1.column_offsets@,
        m1.row_indices@,
        m1.values@,
        g,
        rows,
        columns,
        kind,
        step_time,
        l,
        r,
        c - 1,
    ));
    assert(column_matches(
        m2.column_offsets@,
        m2.row_indices@,
        m2.values@,
        g,
        rows,
        columns,
        kind,
        step_time,
        l,
        r,
        c - 1,
    ));
    let col = col_entries(g, rows, columns, kind, step_time, l, r, c - 1);
    let start = m1.column_offsets@[prev] as int;
    assert(m2.column_offsets@[prev] as int == start);
    assert(m1.column_offsets@[prev + 1] == start + col.len());
    assert(start + col.len() <= m1.values@.len());
    assert forall|k: int|
        0 <= k < m1.column_offsets@[prev + 1] implies #[trigger] m1.values@[k] == m2.values@[k]
        && m1.row_indices@[k] == m2.row_indices@[k] by {
        if k < start {
            assert(k < m1.column_offsets@[prev]);
            assert(m1.values@[k] == m2.values@[k] && m1.row_indices@[k] == m2.row_indices@[k]);
        } else {
            let t = k - start;
            assert(m1.row_indices@[start + t] as int == col[t].0);
            assert(m2.row_indices@[start + t] as int == col[t].0);
            assert(m1.values@[start + t] == col[t].1);
            assert(m2.values@[start + t] == col[t].1);
        }
    }
    assert forall|jj: int|
        0 <= jj <= prev + 1 implies #[trigger] m1.column_offsets@[jj]
        == m2.column_offsets@[jj] by {
        if jj <= prev {
            assert(m1.column_offsets@[jj] == m2.column_offsets@[jj]);
        } else {
            assert(m1.column_offsets@[prev + 1] == start + col.len());
            assert(m2.column_offsets@[prev + 1] == start + col.len());
        }
    }
}

/// Arrays agree on every entry and offset up to the column of cell
/// `(l, r, c)`, for any two matrices holding the same stencil columns.
#[verifier::rlimit(100)]
proof fn lemma_det_upto(
    m1: SparseMatrix,
    m2: SparseMatrix,
    g: Seq<LayerCoeffs>,
    rows: int,
    columns: int,
    kind: AnalysisType,
    step_time: u64,
    l: int,
    r: int,
    c: int,
)
    requires
        is_conductance(m1, g, rows, columns, kind, step_time),
        is_conductance(m2, g, rows, columns, kind, step_time),
        rows >= 1,
        columns >= 1,
        0 <= l <= g.len(),
        l == g.len() ==> r == 0 && c == 0,
        l < g.len() ==> 0 <= r < rows && 0 <= c <= columns,
    ensures
        agree_upto(m1, m2, flat_index(rows, columns, l, r, c)),
    decreases l, r, c,
{
    if l == 0 && r == 0 && c == 0 {
        assert((0 * rows + 0) * columns + 0 == 0) by (nonlinear_arith);
        assert(flat_index(rows, columns, 0, 0, 0) == 0);
        assert(m1.wf() && m2.wf());
        assert(m1.column_offsets@[0] == 0 && m2.column_offsets@[0] == 0);
    } else if c > 0 {
        lemma_det_upto(m1, m2, g, rows, columns, kind, step_time, l, r, c - 1);
        lemma_det_step(m1, m2, g, rows, columns, kind, step_time, l, r, c);
    } else if r > 0 {
        lemma_det_upto(m1, m2, g, rows, columns, kind, step_time, l, r - 1, columns);
        assert((l * rows + (r - 1)) * columns + columns == (l * rows + r) * columns + 0)
            by (nonlinear_arith);
        assert(flat_index(rows, columns, l, r - 1, columns) == flat_index(rows, columns, l, r, 0));
        assert(m1.column_offsets@[flat_index(rows, columns, l, r, 0)] == m1.column_offsets@[
            flat_index(rows, columns, l, r - 1, columns)
        ]);
    } else {
        lemma_det_upto(m1, m2, g, rows, columns, kind, step_time, l - 1, rows - 1, columns);
        assert(((l - 1) * rows + (rows - 1)) * columns + columns == (l * rows + 0) * columns + 0)
            by (nonlinear_arith);
        assert(flat_index(rows, columns, l - 1, rows - 1, columns) == flat_index(
            rows,
            columns,
            l,
            0,
            0,
        ));
        assert(m1.column_offsets@[flat_index(rows, columns, l, 0, 0)] == m1.column_offsets@[
            flat_index(rows, columns, l - 1, rows - 1, columns)
        ]);
    }
}

/// Law: assembly is deterministic.  Any two matrices that satisfy the
/// assembler's contract for the same grid and analysis are identical, bit
/// for bit, in their values, row indices and offsets.
#[verifier::rlimit(100)]
pub proof fn lemma_conductance_deterministic(
    m1: SparseMatrix,
    m2: SparseMatrix,
    g: Seq<LayerCoeffs>,
    rows: int,
    columns: int,
    kind: AnalysisType,
    step_time: u64,
)
    requires
        is_conductance(m1, g, rows, columns, kind, step_time),
        is_conductance(m2, g, rows, columns, kind, step_time),
        rows >= 0,
        columns >= 0,
    ensures
        m1.values@ == m2.values@,
        m1.row_indices@ == m2.row_indices@,
        m1.column_offsets@ == m2.column_offsets@,
        m1.nonzeros == m2.nonzeros,
{
    if g.len() == 0 || rows <= 0 || columns <= 0 {
        assert(g.len() * rows * columns <= 0) by (nonlinear_arith)
            requires
                g.len() == 0 || rows <= 0 || columns <= 0,
                rows >= 0,
                columns >= 0,
        ;
        assert(m1.columns == 0 && m2.columns == 0);
        assert(m1.values@.len() == 0 && m2.values@.len() == 0);
        assert(m1.values@ =~= m2.values@);
        assert(m1.row_indices@ =~= m2.row_indices@);
        assert(m1.column_offsets@ =~= m2.column_offsets@);
    } else {
        lemma_det_upto(m1, m2, g, rows, columns, kind, step_time, g.len() as int, 0, 0);
        let cells = flat_index(rows, columns, g.len() as int, 0, 0);
        assert(cells == (g.len() as int * rows + 0) * columns + 0);
        assert(cells == g.len() * rows * columns);
        assert(m1.column_offsets@[cells] == m1.nonzeros);
        assert(m2.column_offsets@[cells] == m2.nonzeros);
        assert(m1.column_offsets@ =~= m2.column_offsets@);
        assert(m1.values@ =~= m2.values@);
        assert forall|k: int|
            0 <= k < m1.row_indices@.len() implies m1.row_indices@[k] == m2.row_indices@[k] by {
            assert(m1.values@[k] == m2.values@[k]);
        }
        assert(m1.row_indices@ =~= m2.row_indices@);
    }
}

/// Every column index below the cell count decodes to a cell.
proof fn lemma_cell_decode(rows: int, columns: int, layer_count: int, jc: int)
    requires
        rows >= 1,
        columns >= 1,
        0 <= jc < layer_count * rows * columns,
    ensures
        exists|l: int, r: int, c: int|
            #![trigger flat_index(rows, columns, l, r, c)]
            {
                &&& 0 <= l < layer_count
                &&& 0 <= r < rows
                &&& 0 <= c < columns
                &&& flat_index(rows, columns, l, r, c) == jc
            },
{
    let rc = rows * columns;
    assert(layer_count * rc == layer_count * rows * columns) by (nonlinear_arith)
        requires
            rc == rows * columns,
    ;
    let l = jc / rc;
    let rem = jc % rc;
    let r = rem / columns;
    let c = rem % columns;
    assert(0 <= l < layer_count && 0 <= r < rows && 0 <= c < columns && (l * rows + r) * columns
        + c == jc) by (nonlinear_arith)
        requires
            rc == rows * columns,
            rows >= 1,
            columns >= 1,
            0 <= jc < layer_count * rc,
            l == jc / rc,
            rem == jc % rc,
            r == rem / columns,
            c == rem % columns,
    ;
    assert(flat_index(rows, columns, l, r, c) == jc);
}

/// Read one entry of a matched column.
proof fn lemma_column_lookup(
    m: SparseMatrix,
    g: Seq<LayerCoeffs>,
    rows: int,
    columns: int,
    kind: AnalysisType,
    step_time: u64,
    l: int,
    r: int,
    c: int,
    t: int,
)
    requires
        column_matches(
            m.column_offsets@,
            m.row_indices@,
            m.values@,
            g,
            rows,
            columns,
            kind,
            step_time,
            l,
            r,
            c,
        ),
        0 <= t < col_entries(g, rows, columns, kind, step_time, l, r, c).len(),
    ensures
        ({
            let jj = flat_index(rows, columns, l, r, c);
            let start = m.column_offsets@[jj] as int;
            &&& m.column_offsets@[jj] <= start + t < m.column_offsets@[jj + 1]
            &&& 0 <= start + t < m.row_indices@.len()
            &&& m.row_indices@.len() == m.values@.len()
            &&& m.row_indices@[start + t] as int == col_entries(
                g,
                rows,
                columns,
                kind,
                step_time,
                l,
                r,
                c,
            )[t].0
            &&& m.values@[start + t] == col_entries(g, rows, columns, kind, step_time, l, r, c)[t].1
        }),
{
    reveal(column_matches);
}

/// Law: every stored off-diagonal entry of the conductance matrix has a
/// mirrored entry.  If column `jc` stores a value at row `i` with
/// `i != jc`, then column `i` stores the very same value at row `jc`.
#[verifier::rlimit(100)]
pub proof fn lemma_matrix_symmetric(
    m: SparseMatrix,
    g: Seq<LayerCoeffs>,
    rows: int,
    columns: int,
    kind: AnalysisType,
    step_time: u64,
    jc: int,
    k: int,
)
    requires
        is_conductance(m, g, rows, columns, kind, step_time),
        rows >= 1,
        columns >= 1,
        0 <= jc < m.columns,
        m.column_offsets@[jc] <= k < m.column_offsets@[jc + 1],
        m.row_indices@[k] as int != jc,
    ensures
        exists|k2: int|
            #![trigger m.row_indices@[k2]]
            {
                &&& m.column_offsets@[m.row_indices@[k] as int] <= k2 < m.column_offsets@[
                    m.row_indices@[k] as int + 1
                ]
                &&& m.row_indices@[k2] as int == jc
                &&& m.values@[k2] == m.values@[k]
            },
{
    lemma_cell_decode(rows, columns, g.len() as int, jc);
    let (l, r, c): (int, int, int) = choose|l: int, r: int, c: int|
        #![trigger flat_index(rows, columns, l, r, c)]
        {
            &&& 0 <= l < g.len()
            &&& 0 <= r < rows
            &&& 0 <= c < columns
            &&& flat_index(rows, columns, l, r, c) == jc
        };
    assert(column_matches(
        m.column_offsets@,
        m.row_indices@,
        m.values@,
        g,
        rows,
        columns,
        kind,
        step_time,
        l,
        r,
        c,
    ));
    let col = col_entries(g, rows, columns, kind, step_time, l, r, c);
    let start = m.column_offsets@[jc] as int;
    let t = k - start;
    assert(m.column_offsets@[jc + 1] <= start + col.len()) by {
        reveal(column_matches);
    }
    assert(0 <= t < col.len()) by {
        reveal(column_matches);
    }
    lemma_column_lookup(m, g, rows, columns, kind, step_time, l, r, c, t);
    assert(m.row_indices@[k] as int == col[t].0 && m.values@[k] == col[t].1);
    lemma_conductance_symmetric(g, rows, columns, kind, step_time, l, r, c, t);
    let (l2, r2, c2, t2): (int, int, int, int) = choose|l2: int, r2: int, c2: int, t2: int|
        #![trigger col_entries(g, rows, columns, kind, step_time, l2, r2, c2)[t2]]
        {
            &&& 0 <= l2 < g.len()
            &&& 0 <= r2 < rows
            &&& 0 <= c2 < columns
            &&& flat_index(rows, columns, l2, r2, c2) == col_entries(
                g,
                rows,
                columns,
                kind,
                step_time,
                l,
                r,
                c,
            )[t].0
            &&& 0 <= t2 < col_entries(g, rows, columns, kind, step_time, l2, r2, c2).len()
            &&& col_entries(g, rows, columns, kind, step_time, l2, r2, c2)[t2].0 == flat_index(
                rows,
                columns,
                l,
                r,
                c,
            )
            &&& col_entries(g, rows, columns, kind, step_time, l2, r2, c2)[t2].1 == col_entries(
                g,
                rows,
                columns,
                kind,
                step_time,
                l,
                r,
                c,
            )[t].1
        };
    assert(column_matches(
        m.column_offsets@,
        m.row_indices@,
        m.values@,
        g,
        rows,
        columns,
        kind,
        step_time,
        l2,
        r2,
        c2,
    ));
    lemma_column_lookup(m, g, rows, columns, kind, step_time, l2, r2, c2, t2);
    let i = flat_index(rows, columns, l2, r2, c2);
    let col2 = col_entries(g, rows, columns, kind, step_time, l2, r2, c2);
    let start2 = m.column_offsets@[i] as int;
    let k2 = start2 + t2;
    assert(m.row_indices@[k2] as int == jc && m.values@[k2] == m.values@[k]
        && m.column_offsets@[i] <= k2 < m.column_offsets@[i + 1]);
    assert(i == m.row_indices@[k] as int);
}

} // verus!
