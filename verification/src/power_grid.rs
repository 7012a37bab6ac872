//! The power grid: the sparse operator distributing the power of named
//! floorplan elements over grid cells.
//!
//! Every die's source layer carries a floorplan; each floorplan element is
//! a rectangle of whole cells and becomes one matrix column, holding the
//! fraction `1 / (cells covered)` at each covered cell of that layer.
//! Columns follow the stack's layer order, bottom to top, and each
//! floorplan's insertion order.

use crate::error::Error;
use crate::fp::{div_bits, fdiv, ffrom_int, of_int_bits, F64_ONE};
use crate::sparse::{mv_spec, SparseMatrix};
use crate::stack::{layers_of, Die, Floorplan, FloorplanElement, Stack, StackElement};
use vstd::prelude::*;

verus! {

/// Whether a floorplan element is admissible on a `rows × columns` grid: a
/// nonempty rectangle of whole cells inside the grid.
pub open spec fn elem_ok(e: FloorplanElement, rows: int, columns: int) -> bool {
    &&& e.rows > 0
    &&& e.columns > 0
    &&& e.row + e.rows <= rows
    &&& e.column + e.columns <= columns
}

/// Whether a die is admissible: its source index names one of its layers
/// and every floorplan element is admissible.
pub open spec fn die_ok(d: Die, rows: int, columns: int) -> bool {
    &&& d.source < d.layers@.len()
    &&& forall|k: int|
        0 <= k < d.floorplan.elements@.len() ==> elem_ok(
            #[trigger] d.floorplan.elements@[k],
            rows,
            columns,
        )
}

/// Whether every die of the stack is admissible.
pub open spec fn floorplans_ok(elements: Seq<StackElement>, rows: int, columns: int) -> bool {
    forall|i: int|
        0 <= i < elements.len() ==> ((#[trigger] elements[i]) matches StackElement::Die(d)
            ==> die_ok(d, rows, columns))
}

/// The power sources of an element sequence listed top to bottom: for each
/// die, the global index of its source layer (counting from the bottom of
/// the stack) and its floorplan, in bottom-to-top order.
pub open spec fn sources_of(s: Seq<StackElement>) -> Seq<(int, Floorplan)>
    decreases s.len(),
{
    if s.len() == 0 {
        Seq::empty()
    } else {
        let rest = sources_of(s.subrange(1, s.len() as int));
        match s[0] {
            StackElement::Die(d) => rest + seq![
                (
                    layers_of(s.subrange(1, s.len() as int)).len() + d.layers@.len() - 1
                        - d.source,
                    d.floorplan,
                ),
            ],
            _ => rest,
        }
    }
}

/// The first matrix column of source `si`: the total element count of the
/// sources before it.
pub open spec fn col_base(srcs: Seq<(int, Floorplan)>, si: int) -> int
    decreases si,
{
    if si <= 0 {
        0
    } else {
        col_base(srcs, si - 1) + srcs[si - 1].1.elements@.len()
    }
}

/// The area fraction a covered cell receives from an element: one over the
/// number of cells the element covers, in IEEE-754 double arithmetic.
pub open spec fn elem_frac(e: FloorplanElement) -> u64 {
    div_bits(F64_ONE, of_int_bits((e.rows * e.columns) as u64))
}

/// The entries of one covered grid row of an element's column.
pub open spec fn elem_row_entries(
    ly: int,
    e: FloorplanElement,
    rows: int,
    columns: int,
    rr: int,
) -> Seq<(int, u64)> {
    Seq::new(
        e.columns as nat,
        |cc: int| ((ly * rows + e.row + rr) * columns + e.column + cc, elem_frac(e)),
    )
}

/// The entries of an element's column for its first `nr` covered rows.
pub open spec fn dist_col_upto(
    ly: int,
    e: FloorplanElement,
    rows: int,
    columns: int,
    nr: int,
) -> Seq<(int, u64)>
    decreases nr,
{
    if nr <= 0 {
        Seq::empty()
    } else {
        dist_col_upto(ly, e, rows, columns, nr - 1) + elem_row_entries(
            ly,
            e,
            rows,
            columns,
            nr - 1,
        )
    }
}

/// The stored entries of one element's matrix column, in ascending row
/// order: the covered cells of layer `ly`, each holding the element's area
/// fraction.
pub open spec fn dist_col_entries(
    ly: int,
    e: FloorplanElement,
    rows: int,
    columns: int,
) -> Seq<(int, u64)> {
    dist_col_upto(ly, e, rows, columns, e.rows as int)
}

/// Whether the matrix column of element `k` of source `si` inside the
/// given compressed-sparse-column arrays holds exactly the element's
/// entries.
#[verifier::opaque]
pub open spec fn dist_column_matches(
    column_offsets: Seq<usize>,
    row_indices: Seq<usize>,
    values: Seq<u64>,
    srcs: Seq<(int, Floorplan)>,
    rows: int,
    columns: int,
    si: int,
    k: int,
) -> bool {
    let ly = srcs[si].0;
    let e = srcs[si].1.elements@[k];
    let jj = col_base(srcs, si) + k;
    let col = dist_col_entries(ly, e, rows, columns);
    let start = column_offsets[jj] as int;
    &&& 0 <= jj
    &&& jj + 1 < column_offsets.len()
    &&& column_offsets[jj + 1] == start + col.len()
    &&& start + col.len() <= row_indices.len()
    &&& row_indices.len() == values.len()
    &&& forall|t: int|
        0 <= t < col.len() ==> (#[trigger] row_indices[start + t]) as int == col[t].0 && values[
            start + t] == col[t].1
}

/// Whether `m` is the distribution matrix of the stack: one row per cell,
/// one column per floorplan element of each source layer, in stack order,
/// each column holding the element's area fractions.
pub open spec fn is_distribution(
    m: SparseMatrix,
    elements: Seq<StackElement>,
    rows: int,
    columns: int,
    cells: int,
) -> bool {
    let srcs = sources_of(elements);
    &&& m.wf()
    &&& m.rows == cells
    &&& m.columns == col_base(srcs, srcs.len() as int)
    &&& forall|si: int, k: int|
        0 <= si < srcs.len() && 0 <= k < srcs[si].1.elements@.len() ==> #[trigger] dist_column_matches(
            m.column_offsets@,
            m.row_indices@,
            m.values@,
            srcs,
            rows,
            columns,
            si,
            k,
        )
}

/// Build one element's matrix column: the covered cells of layer `ly` in
/// ascending order, each with the element's area fraction.
#[verifier::rlimit(100)]
fn build_dist_column(
    e: &FloorplanElement,
    ly: usize,
    rows_n: usize,
    cols_n: usize,
    layer_total: usize,
    cells: usize,
) -> (res: (Vec<usize>, Vec<u64>))
    requires
        elem_ok(*e, rows_n as int, cols_n as int),
        ly < layer_total,
        cells == layer_total * rows_n * cols_n,
    ensures
        ({
            let col = dist_col_entries(ly as int, *e, rows_n as int, cols_n as int);
            &&& res.0@.len() == col.len()
            &&& res.1@.len() == col.len()
            &&& forall|t: int|
                0 <= t < col.len() ==> (#[trigger] res.0@[t]) as int == col[t].0 && res.1@[t]
                    == col[t].1
            &&& forall|t: int| 0 <= t < col.len() - 1 ==> (#[trigger] res.0@[t]) < res.0@[t + 1]
            &&& forall|t: int| 0 <= t < col.len() ==> (#[trigger] res.0@[t]) < cells
        }),
{
    let ghost ri = rows_n as int;
    let ghost ci = cols_n as int;
    let ghost li = ly as int;
    proof {
        assert(e.rows * e.columns <= ri * ci && ri * ci <= cells && (li * ri + e.row + e.rows) * ci
            <= cells) by (nonlinear_arith)
            requires
                0 < e.rows,
                0 < e.columns,
                e.row + e.rows <= ri,
                e.column + e.columns <= ci,
                0 <= li < layer_total,
                0 <= ri,
                0 <= ci,
                cells == layer_total * ri * ci,
        ;
    }
    let count = e.rows * e.columns;
    let frac = fdiv(F64_ONE, ffrom_int(count as u64));
    let mut col_rows: Vec<usize> = Vec::new();
    let mut col_vals: Vec<u64> = Vec::new();
    let mut rr: usize = 0;
    while rr < e.rows
        invariant
            rr <= e.rows,
            elem_ok(*e, ri, ci),
            li < layer_total,
            cells == layer_total * ri * ci,
            frac == elem_frac(*e),
            col_rows@.len() == col_vals@.len(),
            col_rows@.len() == dist_col_upto(li, *e, ri, ci, rr as int).len(),
            forall|t: int|
                0 <= t < col_rows@.len() ==> (#[trigger] col_rows@[t]) as int == dist_col_upto(
                    li,
                    *e,
                    ri,
                    ci,
                    rr as int,
                )[t].0 && col_vals@[t] == dist_col_upto(li, *e, ri, ci, rr as int)[t].1,
            forall|t: int|
                0 <= t < col_rows@.len() - 1 ==> (#[trigger] col_rows@[t]) < col_rows@[t + 1],
            forall|t: int| 0 <= t < col_rows@.len() ==> (#[trigger] col_rows@[t]) < cells,
            col_rows@.len() > 0 ==> col_rows@.last() as int == (li * ri + e.row + rr - 1) * ci
                + e.column + e.columns - 1,
        decreases e.rows - rr,
    {
        proof {
            assert((li * ri + e.row + rr) * ci + e.column + e.columns <= cells && (li * ri + e.row
                + rr) * ci >= (li * ri + e.row + rr - 1) * ci + ci && li * ri <= cells && li * ri
                + e.row + rr <= cells && (li * ri + e.row + rr) * ci + e.column <= cells)
                by (nonlinear_arith)
                requires
                    0 <= rr < e.rows,
                    0 < e.columns,
                    e.row + e.rows <= ri,
                    e.column + e.columns <= ci,
                    0 <= li < layer_total,
                    0 <= ri,
                    0 < ci,
                    cells == layer_total * ri * ci,
            ;
        }
        let row_start = (ly * rows_n + e.row + rr) * cols_n + e.column;
        let mut cc: usize = 0;
        while cc < e.columns
            invariant
                rr < e.rows,
                cc <= e.columns,
                elem_ok(*e, ri, ci),
                li < layer_total,
                cells == layer_total * ri * ci,
                frac == elem_frac(*e),
                row_start as int == (li * ri + e.row + rr) * ci + e.column,
                row_start + e.columns <= cells,
                col_rows@.len() == col_vals@.len(),
                col_rows@.len() == dist_col_upto(li, *e, ri, ci, rr as int).len() + cc,
                forall|t: int|
                    0 <= t < col_rows@.len() ==> (#[trigger] col_rows@[t]) as int == (dist_col_upto(
                        li,
                        *e,
                        ri,
                        ci,
                        rr as int,
                    ) + elem_row_entries(li, *e, ri, ci, rr as int).take(cc as int))[t].0
                        && col_vals@[t] == (dist_col_upto(li, *e, ri, ci, rr as int)
                        + elem_row_entries(li, *e, ri, ci, rr as int).take(cc as int))[t].1,
                forall|t: int|
                    0 <= t < col_rows@.len() - 1 ==> (#[trigger] col_rows@[t]) < col_rows@[t + 1],
                forall|t: int| 0 <= t < col_rows@.len() ==> (#[trigger] col_rows@[t]) < cells,
                col_rows@.len() > 0 ==> (cc > 0 ==> col_rows@.last() as int == row_start + cc - 1)
                    && (cc == 0 && rr > 0 ==> col_rows@.last() as int == (li * ri + e.row + rr - 1)
                    * ci + e.column + e.columns - 1),
            decreases e.columns - cc,
        {
            col_rows.push(row_start + cc);
            col_vals.push(frac);
            proof {
                let re = elem_row_entries(li, *e, ri, ci, rr as int);
                assert(re.take(cc + 1) =~= re.take(cc as int).push(re[cc as int]));
            }
            cc = cc + 1;
        }
        proof {
            assert(elem_row_entries(li, *e, ri, ci, rr as int).take(e.columns as int)
                =~= elem_row_entries(li, *e, ri, ci, rr as int));
        }
        rr = rr + 1;
    }
    proof {
        assert(dist_col_entries(li, *e, ri, ci) == dist_col_upto(li, *e, ri, ci, e.rows as int));
    }
    (col_rows, col_vals)
}

/// A die's layers expand to one physical layer each.
proof fn lemma_die_layers_len(s: Seq<crate::stack::Layer>)
    ensures
        crate::stack::die_layers(s).len() == s.len(),
    decreases s.len(),
{
    if s.len() > 0 {
        lemma_die_layers_len(s.subrange(1, s.len() as int));
    }
}

/// A suffix of the element list expands to no more layers than the whole.
proof fn lemma_layers_suffix_le(s: Seq<StackElement>, i: int)
    requires
        0 <= i <= s.len(),
    ensures
        layers_of(s.subrange(i, s.len() as int)).len() <= layers_of(s).len(),
    decreases i,
{
    if i > 0 {
        let tail = s.subrange(1, s.len() as int);
        assert(s.subrange(i, s.len() as int) =~= tail.subrange(i - 1, tail.len() as int));
        lemma_layers_suffix_le(tail, i - 1);
        assert(layers_of(s) == layers_of(tail) + crate::stack::element_layers(s[0]));
        assert(layers_of(s.subrange(i, s.len() as int)) == layers_of(
            tail.subrange(i - 1, tail.len() as int),
        ));
    } else {
        assert(s.subrange(0, s.len() as int) =~= s);
    }
}

/// The sources of a suffix of the element list are a prefix of the
/// sources of the whole.
proof fn lemma_sources_prefix(s: Seq<StackElement>, i: int)
    requires
        0 <= i <= s.len(),
    ensures
        sources_of(s.subrange(i, s.len() as int)).len() <= sources_of(s).len(),
        sources_of(s).take(sources_of(s.subrange(i, s.len() as int)).len() as int) == sources_of(
            s.subrange(i, s.len() as int),
        ),
    decreases i,
{
    if i == 0 {
        assert(s.subrange(0, s.len() as int) =~= s);
        assert(sources_of(s).take(sources_of(s).len() as int) =~= sources_of(s));
    } else {
        let tail = s.subrange(1, s.len() as int);
        assert(s.subrange(i, s.len() as int) =~= tail.subrange(i - 1, tail.len() as int));
        lemma_sources_prefix(tail, i - 1);
        let part = sources_of(s.subrange(i, s.len() as int));
        assert(sources_of(tail).take(part.len() as int) == part);
        assert(sources_of(s).take(part.len() as int) =~= sources_of(tail).take(part.len() as int));
    }
}

/// A distribution column already present is still present after the
/// arrays grow at the end.
proof fn lemma_dist_column_preserved(
    off0: Seq<usize>,
    rows0: Seq<usize>,
    vals0: Seq<u64>,
    off1: Seq<usize>,
    rows1: Seq<usize>,
    vals1: Seq<u64>,
    srcs: Seq<(int, Floorplan)>,
    rows: int,
    columns: int,
    si: int,
    k: int,
)
    requires
        dist_column_matches(off0, rows0, vals0, srcs, rows, columns, si, k),
        off0.len() <= off1.len(),
        forall|i: int| 0 <= i < off0.len() ==> (#[trigger] off1[i]) == off0[i],
        rows0.len() <= rows1.len(),
        forall|i: int| 0 <= i < rows0.len() ==> (#[trigger] rows1[i]) == rows0[i],
        vals0.len() <= vals1.len(),
        forall|i: int| 0 <= i < vals0.len() ==> (#[trigger] vals1[i]) == vals0[i],
        rows1.len() == vals1.len(),
    ensures
        dist_column_matches(off1, rows1, vals1, srcs, rows, columns, si, k),
{
    reveal(dist_column_matches);
    let ly = srcs[si].0;
    let e = srcs[si].1.elements@[k];
    let jj = col_base(srcs, si) + k;
    let col = dist_col_entries(ly, e, rows, columns);
    let start = off0[jj] as int;
    assert(off1[jj] == off0[jj]);
    assert(off1[jj + 1] == off0[jj + 1]);
    assert forall|t: int|
        0 <= t < col.len() implies (#[trigger] rows1[off1[jj] as int + t]) as int == col[t].0
        && vals1[off1[jj] as int + t] == col[t].1 by {
        assert(rows0[start + t] as int == col[t].0);
        assert(vals0[start + t] == col[t].1);
        assert(rows1[start + t] == rows0[start + t]);
        assert(vals1[start + t] == vals0[start + t]);
    }
}

/// A freshly appended distribution column is present once its entries and
/// offsets are in place.
proof fn lemma_dist_column_new(
    off1: Seq<usize>,
    rows0: Seq<usize>,
    vals0: Seq<u64>,
    newr: Seq<usize>,
    newv: Seq<u64>,
    rows1: Seq<usize>,
    vals1: Seq<u64>,
    col: Seq<(int, u64)>,
    srcs: Seq<(int, Floorplan)>,
    rows: int,
    columns: int,
    si: int,
    k: int,
)
    requires
        rows1 == rows0 + newr,
        vals1 == vals0 + newv,
        rows0.len() == vals0.len(),
        newr.len() == col.len(),
        newv.len() == col.len(),
        col == dist_col_entries(srcs[si].0, srcs[si].1.elements@[k], rows, columns),
        forall|t: int|
            0 <= t < col.len() ==> (#[trigger] newr[t]) as int == col[t].0 && newv[t] == col[t].1,
        0 <= col_base(srcs, si) + k,
        col_base(srcs, si) + k + 1 < off1.len(),
        off1[col_base(srcs, si) + k] == rows0.len(),
        off1[col_base(srcs, si) + k + 1] == rows1.len(),
    ensures
        dist_column_matches(off1, rows1, vals1, srcs, rows, columns, si, k),
{
    reveal(dist_column_matches);
    let start = off1[col_base(srcs, si) + k] as int;
    assert forall|t: int|
        0 <= t < col.len() implies (#[trigger] rows1[start + t]) as int == col[t].0 && vals1[start
        + t] == col[t].1 by {
        assert(rows1[start + t] == newr[t]);
        assert(vals1[start + t] == newv[t]);
    }
}


/// Processing one die extends the source prefix by exactly its own source
/// layer.
proof fn lemma_source_step(s: Seq<StackElement>, i: int, ns: int, d: Die)
    requires
        0 <= i < s.len(),
        s[i] == StackElement::Die(d),
        0 <= ns <= sources_of(s).len(),
        sources_of(s.subrange(i + 1, s.len() as int)) == sources_of(s).take(ns),
    ensures
        ns < sources_of(s).len(),
        sources_of(s.subrange(i, s.len() as int)) == sources_of(s).take(ns + 1),
        sources_of(s)[ns] == (
            layers_of(s.subrange(i + 1, s.len() as int)).len() + d.layers@.len() - 1 - d.source,
            d.floorplan,
        ),
{
    assert(s.subrange(i, s.len() as int).subrange(1, (s.len() - i) as int) =~= s.subrange(
        i + 1,
        s.len() as int,
    ));
    assert(s.subrange(i, s.len() as int)[0] == s[i]);
    lemma_sources_prefix(s, i);
    let part = sources_of(s.subrange(i, s.len() as int));
    assert(part == sources_of(s.subrange(i + 1, s.len() as int)) + seq![
        (
            layers_of(s.subrange(i + 1, s.len() as int)).len() + d.layers@.len() - 1 - d.source,
            d.floorplan,
        ),
    ]);
    assert(sources_of(s).take(ns).len() == ns);
    assert(part.len() == ns + 1);
    assert(sources_of(s).take(ns + 1) == part);
    assert(sources_of(s)[ns] == sources_of(s).take(ns + 1)[ns]);
}

/// Whether one die is admissible on the grid.
fn die_ok_exec(d: &Die, rows_n: usize, cols_n: usize) -> (r: bool)
    ensures
        r == die_ok(*d, rows_n as int, cols_n as int),
{
    if d.source >= d.layers.len() {
        return false;
    }
    let n = d.floorplan.elements.len();
    let mut k: usize = 0;
    while k < n
        invariant
            k <= n,
            n == d.floorplan.elements@.len(),
            d.source < d.layers@.len(),
            forall|k2: int|
                0 <= k2 < k ==> elem_ok(
                    #[trigger] d.floorplan.elements@[k2],
                    rows_n as int,
                    cols_n as int,
                ),
        decreases n - k,
    {
        let e = &d.floorplan.elements[k];
        if !(e.rows > 0 && e.columns > 0 && e.rows <= rows_n && e.row <= rows_n - e.rows
            && e.columns <= cols_n && e.column <= cols_n - e.columns) {
            return false;
        }
        k = k + 1;
    }
    true
}

/// Whether column `(si2, k2)` comes before column `(si, k)` in source,
/// then element order.
pub open spec fn src_lex(si2: int, k2: int, si: int, k: int) -> bool {
    si2 < si || (si2 == si && k2 < k)
}

/// Append one element's column to the arrays under construction,
/// preserving the construction invariants.
#[verifier::rlimit(100)]
fn append_dist_column(
    e: &FloorplanElement,
    ly: usize,
    rows_n: usize,
    cols_n: usize,
    layer_total: usize,
    cells: usize,
    jj: usize,
    values: &mut Vec<u64>,
    row_indices: &mut Vec<usize>,
    offsets: &mut Vec<usize>,
    Ghost(srcs): Ghost<Seq<(int, Floorplan)>>,
    Ghost(si): Ghost<int>,
    Ghost(ki): Ghost<int>,
)
    requires
        elem_ok(*e, rows_n as int, cols_n as int),
        ly < layer_total,
        cells == layer_total * rows_n * cols_n,
        0 <= si < srcs.len(),
        0 <= ki < srcs[si].1.elements@.len(),
        srcs[si].0 == ly as int,
        srcs[si].1.elements@[ki] == *e,
        jj as int == col_base(srcs, si) + ki,
        old(values)@.len() == old(row_indices)@.len(),
        old(offsets)@.len() == jj + 1,
        old(offsets)@[0] == 0,
        old(offsets)@[jj as int] == old(values)@.len(),
        forall|i: int|
            0 <= i < old(offsets)@.len() - 1 ==> (#[trigger] old(offsets)@[i]) <= old(offsets)@[i
                + 1],
        forall|t: int|
            0 <= t < old(row_indices)@.len() ==> (#[trigger] old(row_indices)@[t]) < cells,
        forall|jx: int, t: int|
            #![trigger old(offsets)@[jx], old(row_indices)@[t]]
            0 <= jx < old(offsets)@.len() - 1 && old(offsets)@[jx] <= t < old(offsets)@[jx + 1] - 1
                ==> old(row_indices)@[t] < old(row_indices)@[t + 1],
        forall|si2: int, k2: int|
            0 <= si2 < srcs.len() && 0 <= k2 < srcs[si2].1.elements@.len() && src_lex(
                si2,
                k2,
                si,
                ki,
            ) ==> #[trigger] dist_column_matches(
                old(offsets)@,
                old(row_indices)@,
                old(values)@,
                srcs,
                rows_n as int,
                cols_n as int,
                si2,
                k2,
            ),
    ensures
        ({
            let col = dist_col_entries(ly as int, *e, rows_n as int, cols_n as int);
            &&& final(values)@.len() == old(values)@.len() + col.len()
            &&& final(values)@.len() == final(row_indices)@.len()
            &&& final(offsets)@.len() == jj + 2
            &&& final(offsets)@[0] == 0
            &&& final(offsets)@[jj + 1] == final(values)@.len()
            &&& forall|i: int|
                0 <= i < final(offsets)@.len() - 1 ==> (#[trigger] final(offsets)@[i]) <= final(offsets)@[i + 1]
            &&& forall|t: int|
                0 <= t < final(row_indices)@.len() ==> (#[trigger] final(row_indices)@[t]) < cells
            &&& forall|jx: int, t: int|
                #![trigger final(offsets)@[jx], final(row_indices)@[t]]
                0 <= jx < final(offsets)@.len() - 1 && final(offsets)@[jx] <= t < final(offsets)@[jx
                    + 1] - 1 ==> final(row_indices)@[t] < final(row_indices)@[t + 1]
            &&& forall|si2: int, k2: int|
                0 <= si2 < srcs.len() && 0 <= k2 < srcs[si2].1.elements@.len() && src_lex(
                    si2,
                    k2,
                    si,
                    ki + 1,
                ) ==> #[trigger] dist_column_matches(
                    final(offsets)@,
                    final(row_indices)@,
                    final(values)@,
                    srcs,
                    rows_n as int,
                    cols_n as int,
                    si2,
                    k2,
                )
        }),
{
    let ghost ri = rows_n as int;
    let ghost ci = cols_n as int;
    let ghost old_offsets = offsets@;
    let ghost old_rows = row_indices@;
    let ghost old_values = values@;
    let (mut col_rows, mut col_vals) = build_dist_column(e, ly, rows_n, cols_n, layer_total, cells);
    let ghost col = dist_col_entries(ly as int, *e, ri, ci);
    let ghost new_rows = col_rows@;
    let ghost new_vals = col_vals@;
    row_indices.append(&mut col_rows);
    values.append(&mut col_vals);
    offsets.push(values.len());
    proof {
        lemma_dist_sorted_append(old_offsets, old_rows, offsets@, row_indices@, new_rows, jj as int);
        assert forall|si2: int, k2: int|
            0 <= si2 < srcs.len() && 0 <= k2 < srcs[si2].1.elements@.len() && src_lex(
                si2,
                k2,
                si,
                ki + 1,
            ) implies #[trigger] dist_column_matches(
            offsets@,
            row_indices@,
            values@,
            srcs,
            ri,
            ci,
            si2,
            k2,
        ) by {
            if src_lex(si2, k2, si, ki) {
                assert(dist_column_matches(
                    old_offsets,
                    old_rows,
                    old_values,
                    srcs,
                    ri,
                    ci,
                    si2,
                    k2,
                ));
                lemma_dist_column_preserved(
                    old_offsets,
                    old_rows,
                    old_values,
                    offsets@,
                    row_indices@,
                    values@,
                    srcs,
                    ri,
                    ci,
                    si2,
                    k2,
                );
            } else {
                assert(si2 == si && k2 == ki);
                assert(offsets@[jj as int] == old_values.len());
                assert(offsets@[jj + 1] == values@.len());
                assert(col_base(srcs, si2) + k2 == jj as int);
                let e2 = srcs[si2].1.elements@[k2];
                assert(srcs[si2].0 == ly as int && e2 == *e);
                assert(dist_col_entries(srcs[si2].0, e2, ri, ci) == col);
                assert(old_rows.len() == old_values.len());
                assert forall|t: int|
                    0 <= t < col.len() implies (#[trigger] new_rows[t]) as int == col[t].0
                    && new_vals[t] == col[t].1 by {}
                lemma_dist_column_new(
                    offsets@,
                    old_rows,
                    old_values,
                    new_rows,
                    new_vals,
                    row_indices@,
                    values@,
                    col,
                    srcs,
                    ri,
                    ci,
                    si2,
                    k2,
                );
            }
        }
    }
}


/// Appending a sorted column at the end keeps every column's entries
/// strictly ascending.
proof fn lemma_dist_sorted_append(
    old_offsets: Seq<usize>,
    old_rows: Seq<usize>,
    off1: Seq<usize>,
    rows1: Seq<usize>,
    new_rows: Seq<usize>,
    jj: int,
)
    requires
        old_offsets.len() == jj + 1,
        0 <= jj,
        forall|i: int|
            0 <= i < old_offsets.len() - 1 ==> (#[trigger] old_offsets[i]) <= old_offsets[i + 1],
        forall|jx: int, t: int|
            #![trigger old_offsets[jx], old_rows[t]]
            0 <= jx < old_offsets.len() - 1 && old_offsets[jx] <= t < old_offsets[jx + 1] - 1
                ==> old_rows[t] < old_rows[t + 1],
        old_offsets[jj] == old_rows.len(),
        off1.len() == jj + 2,
        forall|i: int| 0 <= i < old_offsets.len() ==> (#[trigger] off1[i]) == old_offsets[i],
        off1[jj + 1] == rows1.len(),
        rows1 == old_rows + new_rows,
        forall|t: int| 0 <= t < new_rows.len() - 1 ==> (#[trigger] new_rows[t]) < new_rows[t + 1],
    ensures
        forall|jx: int, t: int|
            #![trigger off1[jx], rows1[t]]
            0 <= jx < off1.len() - 1 && off1[jx] <= t < off1[jx + 1] - 1 ==> rows1[t] < rows1[t
                + 1],
{
    let start = old_rows.len() as int;
    assert forall|jx: int, t: int|
        #![trigger off1[jx], rows1[t]]
        0 <= jx < off1.len() - 1 && off1[jx] <= t < off1[jx + 1] - 1 implies rows1[t] < rows1[t
        + 1] by {
        if jx < jj {
            assert(off1[jx] == old_offsets[jx]);
            assert(off1[jx + 1] == old_offsets[jx + 1]);
            lemma_dist_adjacent_chain(old_offsets, jx + 1, jj);
            assert(old_offsets[jx + 1] <= old_offsets[jj]);
            assert(rows1[t] == old_rows[t]);
            assert(rows1[t + 1] == old_rows[t + 1]);
            assert(old_rows[t] < old_rows[t + 1]);
        } else {
            assert(jx == jj);
            assert(off1[jx] == start);
            assert(rows1[t] == new_rows[t - start]);
            assert(rows1[t + 1] == new_rows[t - start + 1]);
            assert(new_rows[t - start] < new_rows[t - start + 1]);
        }
    }
}

/// Adjacent-step monotonicity chained over a range.
proof fn lemma_dist_adjacent_chain(offsets: Seq<usize>, j1: int, j2: int)
    requires
        0 <= j1 <= j2,
        j2 < offsets.len(),
        forall|i: int| 0 <= i < offsets.len() - 1 ==> (#[trigger] offsets[i]) <= offsets[i + 1],
    ensures
        offsets[j1] <= offsets[j2],
    decreases j2 - j1,
{
    if j1 < j2 {
        lemma_dist_adjacent_chain(offsets, j1 + 1, j2);
    }
}

/// A power grid: the distribution matrix of a stack.
#[derive(Clone, Debug)]
pub struct PowerGrid {
    /// The distribution matrix: one row per grid cell, one column per
    /// floorplan element of each source layer.
    pub matrix: SparseMatrix,
}

impl PowerGrid {
    /// Build the power grid of a stack: walk the elements from the bottom
    /// of the stack upwards and append one matrix column per floorplan
    /// element of each die's source layer.  Fails with `InvalidFloorplan`
    /// exactly when some die's source index or floorplan element is
    /// inadmissible.
    #[verifier::rlimit(100)]
    #[verifier::loop_isolation(true)]
    pub fn new(stack: &Stack) -> (res: Result<PowerGrid, Error>)
        requires
            stack.wf(),
        ensures
            res is Ok <==> floorplans_ok(
                stack.elements@,
                stack.dimensions.spec_rows() as int,
                stack.dimensions.spec_columns() as int,
            ),
            res matches Ok(pg) ==> is_distribution(
                pg.matrix,
                stack.elements@,
                stack.dimensions.spec_rows() as int,
                stack.dimensions.spec_columns() as int,
                stack.dimensions.spec_cells() as int,
            ),
            res is Err ==> res == Err::<PowerGrid, Error>(Error::InvalidFloorplan),
    {
        let rows_n = stack.dimensions.rows();
        let cols_n = stack.dimensions.columns();
        let layer_total = stack.dimensions.layers();
        let cells = stack.dimensions.cells();
        let ghost srcs = sources_of(stack.elements@);
        let ghost ri = rows_n as int;
        let ghost ci = cols_n as int;
        let n = stack.elements.len();
        let mut values: Vec<u64> = Vec::new();
        let mut row_indices: Vec<usize> = Vec::new();
        let mut offsets: Vec<usize> = Vec::new();
        offsets.push(0);
        let mut col: usize = 0;
        let mut base: usize = 0;
        let ghost mut ns: int = 0;
        let mut i = n;
        while i > 0
            invariant
                i <= n,
                n == stack.elements@.len(),
                stack.wf(),
                rows_n == stack.dimensions.spec_rows(),
                cols_n == stack.dimensions.spec_columns(),
                layer_total == stack.dimensions.spec_layers(),
                cells == stack.dimensions.spec_cells(),
                ri == rows_n as int,
                ci == cols_n as int,
                srcs == sources_of(stack.elements@),
                base == layers_of(stack.elements@.subrange(i as int, n as int)).len(),
                0 <= ns <= srcs.len(),
                sources_of(stack.elements@.subrange(i as int, n as int)) == srcs.take(ns),
                col as int == col_base(srcs, ns),
                values@.len() == row_indices@.len(),
                offsets@.len() == col + 1,
                offsets@[0] == 0,
                offsets@[col as int] == values@.len(),
                forall|ix: int|
                    0 <= ix < offsets@.len() - 1 ==> (#[trigger] offsets@[ix]) <= offsets@[ix + 1],
                forall|t: int|
                    0 <= t < row_indices@.len() ==> (#[trigger] row_indices@[t]) < cells,
                forall|jx: int, t: int|
                    #![trigger offsets@[jx], row_indices@[t]]
                    0 <= jx < offsets@.len() - 1 && offsets@[jx] <= t < offsets@[jx + 1] - 1
                        ==> row_indices@[t] < row_indices@[t + 1],
                forall|si2: int, k2: int|
                    0 <= si2 < srcs.len() && 0 <= k2 < srcs[si2].1.elements@.len() && si2 < ns
                        ==> #[trigger] dist_column_matches(
                        offsets@,
                        row_indices@,
                        values@,
                        srcs,
                        ri,
                        ci,
                        si2,
                        k2,
                    ),
                forall|ii: int|
                    i <= ii < n ==> ((#[trigger] stack.elements@[ii]) matches StackElement::Die(d)
                        ==> die_ok(d, ri, ci)),
            decreases i,
        {
            i = i - 1;
            proof {
                assert(stack.elements@.subrange(i as int, n as int).subrange(
                    1,
                    (n - i) as int,
                ) =~= stack.elements@.subrange(i + 1, n as int));
                assert(stack.elements@.subrange(i as int, n as int)[0] == stack.elements@[i as int]);
                lemma_layers_suffix_le(stack.elements@, i as int);
                assert(stack.elements@.subrange(0, n as int) =~= stack.elements@);
                assert(layers_of(stack.elements@).len() == stack.dimensions.spec_layers());
            }
            match &stack.elements[i] {
                StackElement::Die(d) => {
                    if !die_ok_exec(d, rows_n, cols_n) {
                        return Err(Error::InvalidFloorplan);
                    }
                    proof {
                        lemma_source_step(stack.elements@, i as int, ns, *d);
                        lemma_die_layers_len(d.layers@);
                    }
                    let ly = base + (d.layers.len() - 1 - d.source);
                    let ne = d.floorplan.elements.len();
                    proof {
                        assert(base + d.layers@.len() == layers_of(
                            stack.elements@.subrange(i as int, n as int),
                        ).len());
                        assert(ly < layer_total);
                    }
                    let mut k: usize = 0;
                    while k < ne
                        invariant
                            k <= ne,
                            i < n,
                            n == stack.elements@.len(),
                            stack.elements@[i as int] == StackElement::Die(*d),
                            die_ok(*d, ri, ci),
                            ne == d.floorplan.elements@.len(),
                            stack.wf(),
                            rows_n == stack.dimensions.spec_rows(),
                            cols_n == stack.dimensions.spec_columns(),
                            layer_total == stack.dimensions.spec_layers(),
                            cells == stack.dimensions.spec_cells(),
                            ri == rows_n as int,
                            ci == cols_n as int,
                            srcs == sources_of(stack.elements@),
                            0 <= ns < srcs.len(),
                            srcs[ns] == (ly as int, d.floorplan),
                            ly < layer_total,
                            col as int == col_base(srcs, ns) + k,
                            values@.len() == row_indices@.len(),
                            offsets@.len() == col + 1,
                            offsets@[0] == 0,
                            offsets@[col as int] == values@.len(),
                            forall|ix: int|
                                0 <= ix < offsets@.len() - 1 ==> (#[trigger] offsets@[ix])
                                    <= offsets@[ix + 1],
                            forall|t: int|
                                0 <= t < row_indices@.len() ==> (#[trigger] row_indices@[t])
                                    < cells,
                            forall|jx: int, t: int|
                                #![trigger offsets@[jx], row_indices@[t]]
                                0 <= jx < offsets@.len() - 1 && offsets@[jx] <= t < offsets@[jx
                                    + 1] - 1 ==> row_indices@[t] < row_indices@[t + 1],
                            forall|si2: int, k2: int|
                                0 <= si2 < srcs.len() && 0 <= k2 < srcs[si2].1.elements@.len()
                                    && src_lex(si2, k2, ns, k as int) ==> #[trigger] dist_column_matches(
                                    offsets@,
                                    row_indices@,
                                    values@,
                                    srcs,
                                    ri,
                                    ci,
                                    si2,
                                    k2,
                                ),
                        decreases ne - k,
                    {
                        let e = &d.floorplan.elements[k];
                        proof {
                            assert(elem_ok(*e, ri, ci));
                            assert(cells == layer_total * rows_n * cols_n) by {
                                assert(stack.dimensions.spec_cells() == layers_of(
                                    stack.elements@,
                                ).len() * rows_n * cols_n);
                            }
                            assert(srcs[ns].1.elements@[k as int] == *e);
                        }
                        append_dist_column(
                            e,
                            ly,
                            rows_n,
                            cols_n,
                            layer_total,
                            cells,
                            col,
                            &mut values,
                            &mut row_indices,
                            &mut offsets,
                            Ghost(srcs),
                            Ghost(ns),
                            Ghost(k as int),
                        );
                        let off_len = offsets.len();
                        proof {
                            assert(off_len == col + 2);
                        }
                        col = col + 1;
                        k = k + 1;
                    }
                    proof {
                        ns = ns + 1;
                    }
                    base = base + d.layers.len();
                },
                StackElement::Layer(_) => {
                    base = base + 1;
                },
                StackElement::Channel(_) => {
                    base = base + 1;
                },
                StackElement::HeatSink(_) => {
                    base = base + 2;
                },
                StackElement::Undefined => {
                },
            }
        }
        proof {
            assert(stack.elements@.subrange(0, n as int) =~= stack.elements@);
            assert(srcs.take(ns) == srcs);
            assert(srcs.take(ns).len() == ns);
            assert(ns == srcs.len());
        }
        let nonzeros = values.len();
        let m = SparseMatrix {
            rows: cells,
            columns: col,
            nonzeros,
            values,
            row_indices,
            column_offsets: offsets,
        };
        proof {
            assert(m.wf());
        }
        Ok(PowerGrid { matrix: m })
    }

    /// The distribution matrix itself, for callers needing the operator.
    pub fn distribution(&self) -> (r: &SparseMatrix)
        ensures
            r == &self.matrix,
    {
        &self.matrix
    }

    /// Distribute the power of the floorplan elements over the grid cells:
    /// set `power_per_cell` to the matrix-vector product of the
    /// distribution matrix and `power_per_element`.  Fails with
    /// `SizeMismatch`, leaving `power_per_cell` unchanged, exactly when
    /// `power_per_cell` does not have one entry per cell or
    /// `power_per_element` does not have one entry per floorplan element.
    pub fn distribute(&self, power_per_element: &Vec<u64>, power_per_cell: &mut Vec<u64>) -> (res:
        Result<(), Error>)
        requires
            self.matrix.wf(),
        ensures
            res is Ok <==> old(power_per_cell)@.len() == self.matrix.rows
                && power_per_element@.len() == self.matrix.columns,
            res is Ok ==> final(power_per_cell)@ == mv_spec(self.matrix, power_per_element@),
            res is Err ==> res == Err::<(), Error>(Error::SizeMismatch) && final(power_per_cell)@
                == old(power_per_cell)@,
    {
        if power_per_cell.len() != self.matrix.rows {
            return Err(Error::SizeMismatch);
        }
        if power_per_element.len() != self.matrix.columns {
            return Err(Error::SizeMismatch);
        }
        match self.matrix.apply(power_per_element) {
            Ok(y) => {
                *power_per_cell = y;
                Ok(())
            },
            Err(_) => Err(Error::SizeMismatch),
        }
    }
}

/// Law: the matrix-vector product of the matrix `distribution` returns
/// with a power vector equals what `distribute` writes for that vector.
/// Both contracts pin their result to `mv_spec` of the power grid's one
/// matrix, so the two agree exactly: the same floating-point operations in
/// the same order.
pub proof fn lemma_distribute_is_product(
    pg: PowerGrid,
    power: Seq<u64>,
    direct: Seq<u64>,
    product: Seq<u64>,
)
    requires
        direct == mv_spec(pg.matrix, power),
        product == mv_spec(pg.matrix, power),
    ensures
        direct == product,
{
}

} // verus!
