//! The system: a stack paired with an analysis, from which the thermal RC
//! quantities are derived on demand.

use crate::analysis::Analysis;
use crate::dimensions::{connections_spec, dims_fit};
use crate::error::Error;
use crate::power_grid::{floorplans_ok, is_distribution, PowerGrid};
use crate::sparse::SparseMatrix;
use crate::stack::{geometry_ok, materials_ok, stack_layers, Stack, StackDescription};
use crate::system_matrix::{is_conductance, SystemMatrix};
use crate::thermal_grid::{caps_spec, grid_spec, ThermalGrid};
use vstd::prelude::*;

verus! {

/// A system: a stack and the analysis that selects the assembler's
/// boundary terms.
#[derive(Clone, Debug)]
pub struct System {
    /// The stack.
    pub stack: Stack,
    /// The analysis.
    pub analysis: Analysis,
}

impl System {
    /// Create a system from a stack description and an analysis.  Fails
    /// with `Overflow` exactly when the stack's cell or connection count
    /// does not fit in `usize`.
    pub fn new(description: StackDescription, analysis: Analysis) -> (res: Result<System, Error>)
        ensures
            res is Ok <==> dims_fit(description),
            res matches Ok(sys) ==> {
                &&& sys.stack.wf()
                &&& sys.stack.elements@ == description.elements@
                &&& sys.stack.dimensions.consistent_with(description)
                &&& sys.stack.cell_length == description.cell_length
                &&& sys.stack.cell_width == description.cell_width
                &&& sys.analysis == analysis
            },
            res is Err ==> res == Err::<System, Error>(Error::Overflow),
    {
        let stack = match Stack::new(description) {
            Ok(st) => st,
            Err(e) => {
                return Err(e);
            },
        };
        Ok(System { stack, analysis })
    }

    /// Extract the thermal capacitance vector: one strictly positive value
    /// per cell, in layer-major, then row, then column order, each the bit
    /// pattern of a double.
    pub fn capacitance(&self) -> (res: Result<Vec<u64>, Error>)
        requires
            self.stack.wf(),
        ensures
            res is Ok <==> self.valid_grid(),
            res matches Ok(v) ==> {
                &&& v@ == caps_spec(
                    grid_spec(self.stack.elements@, self.stack.cell_length, self.stack.cell_width),
                    (self.stack.dimensions.spec_rows() * self.stack.dimensions.spec_columns()) as nat,
                )
                &&& v@.len() == self.stack.dimensions.spec_cells()
            },
            !self.spec_geometry_ok() <==> res == Err::<Vec<u64>, Error>(Error::DegenerateGeometry),
            self.spec_geometry_ok() && !materials_ok(self.stack.elements@) <==> res == Err::<
                Vec<u64>,
                Error,
            >(Error::InvalidMaterial),
    {
        let grid = match ThermalGrid::new(&self.stack) {
            Ok(g) => g,
            Err(e) => {
                return Err(e);
            },
        };
        Ok(grid.capacitance(&self.stack.dimensions))
    }

    /// Extract the thermal conductance matrix: square with one row per
    /// cell, holding every cell's stencil column under this system's
    /// analysis.
    pub fn conductance(&self) -> (res: Result<SparseMatrix, Error>)
        requires
            self.stack.wf(),
        ensures
            res is Ok <==> self.valid_grid(),
            res matches Ok(m) ==> {
                &&& is_conductance(
                    m,
                    grid_spec(self.stack.elements@, self.stack.cell_length, self.stack.cell_width),
                    self.stack.dimensions.spec_rows() as int,
                    self.stack.dimensions.spec_columns() as int,
                    self.analysis.spec_kind(),
                    self.analysis.spec_step_time(),
                )
                &&& m.nonzeros == self.stack.dimensions.spec_connections()
                &&& m.rows == self.stack.dimensions.spec_cells()
                &&& m.columns == self.stack.dimensions.spec_cells()
            },
            !self.spec_geometry_ok() <==> res == Err::<SparseMatrix, Error>(
                Error::DegenerateGeometry,
            ),
            self.spec_geometry_ok() && !materials_ok(self.stack.elements@) <==> res == Err::<
                SparseMatrix,
                Error,
            >(Error::InvalidMaterial),
    {
        let grid = match ThermalGrid::new(&self.stack) {
            Ok(g) => g,
            Err(e) => {
                return Err(e);
            },
        };
        let sm = match SystemMatrix::new(&self.stack, &self.analysis, &grid) {
            Ok(sm) => sm,
            Err(e) => {
                return Err(e);
            },
        };
        Ok(sm.matrix)
    }

    /// Extract the power distribution matrix: one row per cell, one column
    /// per floorplan element of each source layer.
    pub fn distribution(&self) -> (res: Result<SparseMatrix, Error>)
        requires
            self.stack.wf(),
        ensures
            res is Ok <==> floorplans_ok(
                self.stack.elements@,
                self.stack.dimensions.spec_rows() as int,
                self.stack.dimensions.spec_columns() as int,
            ),
            res matches Ok(m) ==> is_distribution(
                m,
                self.stack.elements@,
                self.stack.dimensions.spec_rows() as int,
                self.stack.dimensions.spec_columns() as int,
                self.stack.dimensions.spec_cells() as int,
            ),
            res is Err ==> res == Err::<SparseMatrix, Error>(Error::InvalidFloorplan),
    {
        let pg = match PowerGrid::new(&self.stack) {
            Ok(pg) => pg,
            Err(e) => {
                return Err(e);
            },
        };
        Ok(pg.matrix)
    }

    /// Whether the stack's grid and materials admit a thermal grid.
    pub open spec fn valid_grid(&self) -> bool {
        self.spec_geometry_ok() && materials_ok(self.stack.elements@)
    }

    /// Whether the stack's cell grid is usable.
    pub open spec fn spec_geometry_ok(&self) -> bool {
        geometry_ok(
            self.stack.dimensions.spec_rows(),
            self.stack.dimensions.spec_columns(),
            self.stack.cell_length,
            self.stack.cell_width,
        )
    }
}

/// A thermal RC circuit: the derived quantities of a stack, extracted
/// once.
#[derive(Clone, Debug)]
pub struct Circuit {
    /// The number of layers.
    pub layers: usize,
    /// The number of rows per layer.
    pub rows: usize,
    /// The number of columns per layer.
    pub columns: usize,
    /// The number of cells, which is `layers × rows × columns`.
    pub cells: usize,
    /// The thermal capacitance matrix, which is diagonal, and, hence, only
    /// diagonal elements are stored, each the bit pattern of a double.
    pub capacitance: Vec<u64>,
    /// The thermal conductance matrix, which is sparse, and, hence, only
    /// nonzero elements are stored.
    pub conductance: SparseMatrix,
}

impl Circuit {
    /// Create a thermal RC circuit from a stack description and an
    /// analysis.
    pub fn new(description: StackDescription, analysis: Analysis) -> (res: Result<Circuit, Error>)
        ensures
            res is Ok <==> dims_fit(description) && geometry_ok(
                description.rows,
                description.columns,
                description.cell_length,
                description.cell_width,
            ) && materials_ok(description.elements@),
            res matches Ok(c) ==> {
                &&& c.cells == stack_layers(description.elements@).len() * description.rows
                    * description.columns
                &&& c.layers == stack_layers(description.elements@).len()
                &&& c.rows == description.rows
                &&& c.columns == description.columns
                &&& c.capacitance@ == caps_spec(
                    grid_spec(
                        description.elements@,
                        description.cell_length,
                        description.cell_width,
                    ),
                    (description.rows * description.columns) as nat,
                )
                &&& c.capacitance@.len() == c.cells
                &&& is_conductance(
                    c.conductance,
                    grid_spec(
                        description.elements@,
                        description.cell_length,
                        description.cell_width,
                    ),
                    description.rows as int,
                    description.columns as int,
                    analysis.spec_kind(),
                    analysis.spec_step_time(),
                )
                &&& c.conductance.rows == c.cells
                &&& c.conductance.columns == c.cells
                &&& c.conductance.nonzeros as int == connections_spec(
                    stack_layers(description.elements@),
                    description.rows as int,
                    description.columns as int,
                )
            },
    {
        let system = match System::new(description, analysis) {
            Ok(sys) => sys,
            Err(e) => {
                return Err(e);
            },
        };
        let capacitance = match system.capacitance() {
            Ok(v) => v,
            Err(e) => {
                return Err(e);
            },
        };
        let conductance = match system.conductance() {
            Ok(m) => m,
            Err(e) => {
                return Err(e);
            },
        };
        Ok(
            Circuit {
                layers: system.stack.dimensions.layers(),
                rows: system.stack.dimensions.rows(),
                columns: system.stack.dimensions.columns(),
                cells: system.stack.dimensions.cells(),
                capacitance,
                conductance,
            },
        )
    }
}

/// Law: rebuilding from the same stack description and analysis is
/// deterministic.  The contracts of `capacitance` and `conductance` pin
/// their outputs to one value each: any two capacitance vectors meeting
/// `capacitance`'s contract for one system are equal, and any two
/// conductance matrices meeting `conductance`'s contract for one system
/// hold bit-identical values, row indices and offsets.
#[verifier::rlimit(100)]
pub proof fn lemma_rebuild_deterministic(
    sys: System,
    v1: Seq<u64>,
    v2: Seq<u64>,
    m1: SparseMatrix,
    m2: SparseMatrix,
)
    requires
        v1 == caps_spec(
            grid_spec(sys.stack.elements@, sys.stack.cell_length, sys.stack.cell_width),
            (sys.stack.dimensions.spec_rows() * sys.stack.dimensions.spec_columns()) as nat,
        ),
        v2 == caps_spec(
            grid_spec(sys.stack.elements@, sys.stack.cell_length, sys.stack.cell_width),
            (sys.stack.dimensions.spec_rows() * sys.stack.dimensions.spec_columns()) as nat,
        ),
        is_conductance(
            m1,
            grid_spec(sys.stack.elements@, sys.stack.cell_length, sys.stack.cell_width),
            sys.stack.dimensions.spec_rows() as int,
            sys.stack.dimensions.spec_columns() as int,
            sys.analysis.spec_kind(),
            sys.analysis.spec_step_time(),
        ),
        is_conductance(
            m2,
            grid_spec(sys.stack.elements@, sys.stack.cell_length, sys.stack.cell_width),
            sys.stack.dimensions.spec_rows() as int,
            sys.stack.dimensions.spec_columns() as int,
            sys.analysis.spec_kind(),
            sys.analysis.spec_step_time(),
        ),
    ensures
        v1 == v2,
        m1.values@ == m2.values@,
        m1.row_indices@ == m2.row_indices@,
        m1.column_offsets@ == m2.column_offsets@,
        m1.nonzeros == m2.nonzeros,
{
    crate::system_matrix::lemma_conductance_deterministic(
        m1,
        m2,
        grid_spec(sys.stack.elements@, sys.stack.cell_length, sys.stack.cell_width),
        sys.stack.dimensions.spec_rows() as int,
        sys.stack.dimensions.spec_columns() as int,
        sys.analysis.spec_kind(),
        sys.analysis.spec_step_time(),
    );
}

} // verus!
