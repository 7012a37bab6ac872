//! The thermal grid: per-cell capacitance and per-direction conductance
//! coefficients derived from the material stackup.
//!
//! Every coefficient is the bit pattern of an IEEE-754 double, and every
//! contract pins down the exact sequence of floating-point operations that
//! produces it; see the `fp` module.

use crate::dimensions::Dimensions;
use crate::error::Error;
use crate::fp::{div_bits, fdiv, fmul, mul_bits, pos_finite, F64_TWO, F64_ZERO};
use crate::stack::{geometry_ok, has_x, has_y, materials_ok, phys_valid, stack_layers, PhysLayer, Stack};
use vstd::prelude::*;

verus! {

/// A cell's footprint: `cell_length × cell_width`.
pub open spec fn area_bits(cell_length: u64, cell_width: u64) -> u64 {
    mul_bits(cell_length, cell_width)
}

/// A cell's heat capacitance in a layer: volumetric heat capacity (for a
/// solid, density times specific heat) times cell volume.
pub open spec fn phys_cap(p: PhysLayer, cell_length: u64, cell_width: u64) -> u64 {
    match p {
        PhysLayer::Solid { height, density, specific_heat, .. } => mul_bits(
            mul_bits(density, specific_heat),
            mul_bits(area_bits(cell_length, cell_width), height),
        ),
        PhysLayer::Channel { height, volumetric_heat_capacity, .. } => mul_bits(
            volumetric_heat_capacity,
            mul_bits(area_bits(cell_length, cell_width), height),
        ),
    }
}

/// The conductance between a cell and its east or west neighbour:
/// conductivity times the shared face (`height × cell_width`) over the cell
/// pitch; for a channel with active flow, the advective coupling along the
/// flow direction; `+0.0` where the layer does not connect.
pub open spec fn phys_gx(p: PhysLayer, cell_length: u64, cell_width: u64) -> u64 {
    match p {
        PhysLayer::Solid { height, conductivity, lateral, .. } => if lateral {
            div_bits(mul_bits(conductivity, mul_bits(height, cell_width)), cell_length)
        } else {
            F64_ZERO
        },
        PhysLayer::Channel { volumetric_heat_capacity, flow_rate, .. } => if flow_rate
            != F64_ZERO {
            mul_bits(volumetric_heat_capacity, flow_rate)
        } else {
            F64_ZERO
        },
    }
}

/// The conductance between a cell and its north or south neighbour; a
/// channel is adiabatic across the flow direction.
pub open spec fn phys_gy(p: PhysLayer, cell_length: u64, cell_width: u64) -> u64 {
    match p {
        PhysLayer::Solid { height, conductivity, lateral, .. } => if lateral {
            div_bits(mul_bits(conductivity, mul_bits(height, cell_length)), cell_width)
        } else {
            F64_ZERO
        },
        PhysLayer::Channel { .. } => F64_ZERO,
    }
}

/// The half-cell vertical conductance from a cell's centre to its top or
/// bottom face: `2 k A / h` for a solid, and the convective film
/// conductance `htc · A` for a channel.  The conductance across a layer
/// interface is the series combination of the two adjoining half-cell
/// conductances, which for two solids is their thickness-weighted harmonic
/// mean.
pub open spec fn phys_ghalf(p: PhysLayer, cell_length: u64, cell_width: u64) -> u64 {
    match p {
        PhysLayer::Solid { height, conductivity, .. } => div_bits(
            mul_bits(F64_TWO, mul_bits(conductivity, area_bits(cell_length, cell_width))),
            height,
        ),
        PhysLayer::Channel { heat_transfer_coefficient, .. } => mul_bits(
            heat_transfer_coefficient,
            area_bits(cell_length, cell_width),
        ),
    }
}

/// The conductance from a cell to the ambient, where the layer's top face
/// sees the ambient: `htc · A`.
pub open spec fn phys_ambient(p: PhysLayer, cell_length: u64, cell_width: u64) -> Option<u64> {
    match p {
        PhysLayer::Solid { ambient_htc: Some(h), .. } => Some(
            mul_bits(h, area_bits(cell_length, cell_width)),
        ),
        _ => None,
    }
}

/// The coefficients of one layer of the thermal grid.
#[derive(Clone, Copy, Debug, PartialEq)]
pub struct LayerCoeffs {
    /// Whether cells connect to their east and west neighbours.
    pub has_x: bool,
    /// Whether cells connect to their north and south neighbours.
    pub has_y: bool,
    /// Per-cell heat capacitance, as the bit pattern of a double.
    pub cap: u64,
    /// Conductance to an east or west neighbour.
    pub gx: u64,
    /// Conductance to a north or south neighbour.
    pub gy: u64,
    /// Half-cell vertical conductance.
    pub ghalf: u64,
    /// Conductance to the ambient, if the layer's top face sees it.
    pub ambient: Option<u64>,
}

/// The coefficients a physical layer denotes.
pub open spec fn coeffs_of(p: PhysLayer, cell_length: u64, cell_width: u64) -> LayerCoeffs {
    LayerCoeffs {
        has_x: has_x(p),
        has_y: has_y(p),
        cap: phys_cap(p, cell_length, cell_width),
        gx: phys_gx(p, cell_length, cell_width),
        gy: phys_gy(p, cell_length, cell_width),
        ghalf: phys_ghalf(p, cell_length, cell_width),
        ambient: phys_ambient(p, cell_length, cell_width),
    }
}

/// The coefficients of every layer of a stack, bottom to top.
pub open spec fn grid_spec(
    elements: Seq<crate::stack::StackElement>,
    cell_length: u64,
    cell_width: u64,
) -> Seq<LayerCoeffs> {
    stack_layers(elements).map_values(|p: PhysLayer| coeffs_of(p, cell_length, cell_width))
}

/// A thermal grid: the per-layer coefficients of a stack, bottom to top,
/// over a `rows × columns` cell grid.
#[derive(Clone, Debug)]
pub struct ThermalGrid {
    /// The per-layer coefficients, bottom to top.
    pub layers: Vec<LayerCoeffs>,
    /// The number of grid rows per layer.
    pub rows: usize,
    /// The number of grid columns per layer.
    pub columns: usize,
}

/// Whether a physical layer's parameters are admissible.
fn phys_valid_exec(p: &PhysLayer) -> (r: bool)
    ensures
        r == phys_valid(*p),
{
    match p {
        PhysLayer::Solid { height, conductivity, density, specific_heat, ambient_htc, .. } => {
            pos_finite(*height) && pos_finite(*conductivity) && pos_finite(*density) && pos_finite(
                *specific_heat,
            ) && match ambient_htc {
                Some(h) => pos_finite(*h),
                None => true,
            }
        },
        PhysLayer::Channel {
            height,
            heat_transfer_coefficient,
            volumetric_heat_capacity,
            flow_rate,
        } => {
            pos_finite(*height) && pos_finite(*heat_transfer_coefficient) && pos_finite(
                *volumetric_heat_capacity,
            ) && (*flow_rate == F64_ZERO || pos_finite(*flow_rate))
        },
    }
}

/// Compute one layer's coefficients.
fn coeffs_exec(p: &PhysLayer, cell_length: u64, cell_width: u64) -> (r: LayerCoeffs)
    ensures
        r == coeffs_of(*p, cell_length, cell_width),
{
    let area = fmul(cell_length, cell_width);
    match p {
        PhysLayer::Solid { height, conductivity, density, specific_heat, lateral, ambient_htc } => {
            let gl = if *lateral {
                fdiv(fmul(*conductivity, fmul(*height, cell_width)), cell_length)
            } else {
                F64_ZERO
            };
            let gw = if *lateral {
                fdiv(fmul(*conductivity, fmul(*height, cell_length)), cell_width)
            } else {
                F64_ZERO
            };
            LayerCoeffs {
                has_x: *lateral,
                has_y: *lateral,
                cap: fmul(fmul(*density, *specific_heat), fmul(area, *height)),
                gx: gl,
                gy: gw,
                ghalf: fdiv(fmul(F64_TWO, fmul(*conductivity, area)), *height),
                ambient: match ambient_htc {
                    Some(h) => Some(fmul(*h, area)),
                    None => None,
                },
            }
        },
        PhysLayer::Channel {
            height,
            heat_transfer_coefficient,
            volumetric_heat_capacity,
            flow_rate,
        } => {
            let active = *flow_rate != F64_ZERO;
            LayerCoeffs {
                has_x: active,
                has_y: false,
                cap: fmul(*volumetric_heat_capacity, fmul(area, *height)),
                gx: if active {
                    fmul(*volumetric_heat_capacity, *flow_rate)
                } else {
                    F64_ZERO
                },
                gy: F64_ZERO,
                ghalf: fmul(*heat_transfer_coefficient, area),
                ambient: None,
            }
        },
    }
}

/// The capacitance values of the first `l` layers, each layer's value
/// repeated once per cell of the layer, in layer-major order.
pub open spec fn caps_upto(g: Seq<LayerCoeffs>, cells_per_layer: nat, l: int) -> Seq<u64>
    decreases l,
{
    if l <= 0 {
        Seq::empty()
    } else {
        caps_upto(g, cells_per_layer, l - 1) + Seq::new(cells_per_layer, |i: int| g[l - 1].cap)
    }
}

/// The full capacitance vector: layer-major, then row, then column.
pub open spec fn caps_spec(g: Seq<LayerCoeffs>, cells_per_layer: nat) -> Seq<u64> {
    caps_upto(g, cells_per_layer, g.len() as int)
}

proof fn lemma_caps_upto_len(g: Seq<LayerCoeffs>, cells_per_layer: nat, l: int)
    requires
        0 <= l,
    ensures
        caps_upto(g, cells_per_layer, l).len() == l * cells_per_layer,
    decreases l,
{
    if l > 0 {
        lemma_caps_upto_len(g, cells_per_layer, l - 1);
        assert((l - 1) * cells_per_layer + cells_per_layer == l * cells_per_layer)
            by (nonlinear_arith);
    } else {
        assert(l * cells_per_layer == 0) by (nonlinear_arith)
            requires
                l == 0,
        ;
    }
}

impl ThermalGrid {
    /// Build the thermal grid of a stack.  Fails with `DegenerateGeometry`
    /// exactly when the grid has zero rows or columns or a cell side is not
    /// a strictly positive finite double, and otherwise with
    /// `InvalidMaterial` exactly when some layer's parameters are
    /// inadmissible.
    pub fn new(stack: &Stack) -> (res: Result<ThermalGrid, Error>)
        ensures
            !geometry_ok(
                stack.dimensions.spec_rows(),
                stack.dimensions.spec_columns(),
                stack.cell_length,
                stack.cell_width,
            ) <==> res == Err::<ThermalGrid, Error>(Error::DegenerateGeometry),
            geometry_ok(
                stack.dimensions.spec_rows(),
                stack.dimensions.spec_columns(),
                stack.cell_length,
                stack.cell_width,
            ) && !materials_ok(stack.elements@) <==> res == Err::<ThermalGrid, Error>(
                Error::InvalidMaterial,
            ),
            res is Ok <==> geometry_ok(
                stack.dimensions.spec_rows(),
                stack.dimensions.spec_columns(),
                stack.cell_length,
                stack.cell_width,
            ) && materials_ok(stack.elements@),
            res matches Ok(g) ==> {
                &&& g.layers@ == grid_spec(stack.elements@, stack.cell_length, stack.cell_width)
                &&& g.rows == stack.dimensions.spec_rows()
                &&& g.columns == stack.dimensions.spec_columns()
            },
    {
        let rows = stack.dimensions.rows();
        let columns = stack.dimensions.columns();
        if !(rows > 0 && columns > 0 && pos_finite(stack.cell_length) && pos_finite(
            stack.cell_width,
        )) {
            return Err(Error::DegenerateGeometry);
        }
        let flat = crate::stack::flatten_elements(&stack.elements);
        let ghost ls = stack_layers(stack.elements@);
        let n = flat.len();
        let mut coeffs: Vec<LayerCoeffs> = Vec::new();
        let mut i: usize = 0;
        while i < n
            invariant
                i <= n,
                n == ls.len(),
                flat@ == ls,
                forall|k: int| 0 <= k < i ==> phys_valid(ls[k]),
                coeffs@ == grid_spec(stack.elements@, stack.cell_length, stack.cell_width).take(
                    i as int,
                ),
            decreases n - i,
        {
            let p = &flat[i];
            if !phys_valid_exec(p) {
                return Err(Error::InvalidMaterial);
            }
            coeffs.push(coeffs_exec(p, stack.cell_length, stack.cell_width));
            proof {
                assert(coeffs@ =~= grid_spec(
                    stack.elements@,
                    stack.cell_length,
                    stack.cell_width,
                ).take(i + 1));
            }
            i = i + 1;
        }
        proof {
            assert(coeffs@ =~= grid_spec(stack.elements@, stack.cell_length, stack.cell_width));
        }
        Ok(ThermalGrid { layers: coeffs, rows, columns })
    }

    /// The per-cell capacitance vector, in layer-major, then row, then
    /// column order; cells of one layer share the layer's value.
    pub fn capacitance(&self, dims: &Dimensions) -> (r: Vec<u64>)
        requires
            dims.spec_layers() == self.layers@.len(),
            dims.spec_rows() == self.rows,
            dims.spec_columns() == self.columns,
            dims.spec_cells() == self.layers@.len() * self.rows * self.columns,
        ensures
            r@ == caps_spec(self.layers@, (self.rows * self.columns) as nat),
            r@.len() == dims.spec_cells(),
    {
        let layers = self.layers.len();
        if layers == 0 {
            let empty: Vec<u64> = Vec::new();
            proof {
                assert(empty@ =~= caps_spec(self.layers@, (self.rows * self.columns) as nat));
                assert(self.layers@.len() * self.rows * self.columns == 0) by (nonlinear_arith)
                    requires
                        self.layers@.len() == 0,
                ;
            }
            return empty;
        }
        proof {
            assert(self.rows * self.columns <= self.layers@.len() * self.rows * self.columns)
                by (nonlinear_arith)
                requires
                    self.layers@.len() >= 1,
                    self.rows >= 0,
                    self.columns >= 0,
            ;
        }
        let per_layer = self.rows * self.columns;
        let ghost cpl = per_layer as nat;
        let mut v: Vec<u64> = Vec::new();
        let mut l: usize = 0;
        while l < layers
            invariant
                l <= layers,
                layers == self.layers@.len(),
                per_layer == self.rows * self.columns,
                v@ == caps_upto(self.layers@, cpl, l as int),
            decreases layers - l,
        {
            let cap = self.layers[l].cap;
            let mut k: usize = 0;
            while k < per_layer
                invariant
                    l < layers,
                    k <= per_layer,
                    layers == self.layers@.len(),
                    per_layer == self.rows * self.columns,
                    cap == self.layers@[l as int].cap,
                    v@ == caps_upto(self.layers@, cpl, l as int) + Seq::new(
                        k as nat,
                        |i: int| self.layers@[l as int].cap,
                    ),
                decreases per_layer - k,
            {
                v.push(cap);
                proof {
                    assert(v@ =~= caps_upto(self.layers@, cpl, l as int) + Seq::new(
                        (k + 1) as nat,
                        |i: int| self.layers@[l as int].cap,
                    ));
                }
                k = k + 1;
            }
            proof {
                assert(v@ =~= caps_upto(self.layers@, cpl, l + 1));
            }
            l = l + 1;
        }
        proof {
            lemma_caps_upto_len(self.layers@, cpl, layers as int);
            assert(self.layers@.len() * ((self.rows * self.columns) as nat) == self.layers@.len()
                * self.rows * self.columns) by (nonlinear_arith);
        }
        v
    }
}

} // verus!
