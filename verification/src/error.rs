//! The failure taxonomy shared by every construction in the crate.

use vstd::prelude::*;

verus! {

/// Why a construction failed.
///
/// The first four variants report malformed upstream input; `BuildFailure`
/// reports an internal consistency violation (a precomputed connection count
/// that disagrees with the assembled structure); `SizeMismatch` reports an
/// output or input buffer whose length disagrees with the grid; `Overflow`
/// reports a stack whose cell or connection count does not fit in `usize`.
#[derive(Clone, Copy, Debug, PartialEq, Eq, Structural)]
pub enum Error {
    /// A layer's thermal conductivity, specific heat, density, height, or a
    /// channel's coolant parameter is not a strictly positive finite double.
    InvalidMaterial,
    /// The grid has zero rows or zero columns, or a cell side length is not
    /// a strictly positive finite double.
    DegenerateGeometry,
    /// A floorplan element has zero extent or reaches outside the cell grid.
    InvalidFloorplan,
    /// A transient analysis was requested with a step time that is not a
    /// strictly positive finite double.
    InvalidAnalysis,
    /// An internal consistency check failed during assembly.
    BuildFailure,
    /// A power vector or output buffer has the wrong length.
    SizeMismatch,
    /// The stack's cell or connection count does not fit in `usize`.
    Overflow,
}

} // verus!
