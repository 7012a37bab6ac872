//! The stack description: the ordered composition of physical layers that
//! the thermal grid discretizes.
//!
//! A stack is described as an ordered sequence of elements, listed from the
//! top of the package to the bottom, together with the uniform cell grid
//! that every layer is divided into.  Each element expands into zero or more
//! physical layers; the flattened layer sequence is indexed from the bottom
//! of the stack upwards, and that order also fixes the layer-major order of
//! cells in every derived vector and matrix.

use crate::dimensions::Dimensions;
use crate::error::Error;
use crate::fp::{is_pos_finite, F64_ZERO};
use vstd::prelude::*;

verus! {

/// A solid material.
#[derive(Clone, Copy, Debug, PartialEq)]
pub struct Material {
    /// Thermal conductivity, as the bit pattern of a double.
    pub thermal_conductivity: u64,
    /// Mass density, as the bit pattern of a double.
    pub density: u64,
    /// Specific heat, as the bit pattern of a double.
    pub specific_heat: u64,
}

/// A solid layer of uniform material.
#[derive(Clone, Copy, Debug, PartialEq)]
pub struct Layer {
    /// The layer's height (thickness), as the bit pattern of a double.
    pub height: u64,
    /// The layer's material.
    pub material: Material,
}

/// The coolant flowing through a channel layer.
#[derive(Clone, Copy, Debug, PartialEq)]
pub struct Coolant {
    /// Convective heat transfer coefficient towards the adjacent layers, as
    /// the bit pattern of a double.
    pub heat_transfer_coefficient: u64,
    /// Volumetric heat capacity of the coolant, as the bit pattern of a
    /// double.
    pub volumetric_heat_capacity: u64,
    /// Volumetric flow rate along the channel; the bit pattern of `+0.0`
    /// describes a stagnant coolant.
    pub flow_rate: u64,
}

/// A channel layer: coolant instead of solid conduction.
#[derive(Clone, Copy, Debug, PartialEq)]
pub struct Channel {
    /// The channel's height, as the bit pattern of a double.
    pub height: u64,
    /// The coolant in the channel.
    pub coolant: Coolant,
}

/// A named rectangular region of a die's source layer, aligned to the cell
/// grid: it covers the cells in `rows × columns` cells starting at cell
/// `(row, column)` of its layer.
#[derive(Clone, Debug, PartialEq)]
pub struct FloorplanElement {
    /// The identifier.
    pub id: String,
    /// The first grid row covered.
    pub row: usize,
    /// The first grid column covered.
    pub column: usize,
    /// The number of grid rows covered.
    pub rows: usize,
    /// The number of grid columns covered.
    pub columns: usize,
}

/// The floorplan of the source layer of a die.  Insertion order is
/// meaningful: it defines the column order of the distribution matrix.
#[derive(Clone, Debug, PartialEq)]
pub struct Floorplan {
    /// The list of elements.
    pub elements: Vec<FloorplanElement>,
}

/// A die contained in a stack.
#[derive(Clone, Debug, PartialEq)]
pub struct Die {
    /// The identifier.
    pub id: String,
    /// The floorplan overlaid on the source layer.
    pub floorplan: Floorplan,
    /// The die's layers, listed from top to bottom.
    pub layers: Vec<Layer>,
    /// The index, into `layers`, of the layer that dissipates power.
    pub source: usize,
}

/// A heat sink on top of the stack: a spreader layer and a sink layer, both
/// conducting only vertically, with the sink's top face exchanging heat with
/// the ambient.
#[derive(Clone, Copy, Debug, PartialEq)]
pub struct HeatSink {
    /// The spreader layer, below the sink.
    pub spreader: Layer,
    /// The sink layer, whose top face sees the ambient.
    pub sink: Layer,
    /// Convective heat transfer coefficient towards the ambient, as the bit
    /// pattern of a double.
    pub heat_transfer_coefficient: u64,
}

/// An element of a stack.
#[derive(Clone, Debug, PartialEq)]
pub enum StackElement {
    /// An undefined element, contributing no layers.
    Undefined,
    /// A plain solid layer.
    Layer(Layer),
    /// A channel layer.
    Channel(Channel),
    /// A die.
    Die(Die),
    /// A heat sink.
    HeatSink(HeatSink),
}

/// A stack description: the ordered element sequence, listed from the top of
/// the package to the bottom, and the uniform cell grid of every layer.
#[derive(Clone, Debug, PartialEq)]
pub struct StackDescription {
    /// The elements, from top to bottom.
    pub elements: Vec<StackElement>,
    /// The number of grid rows per layer.
    pub rows: usize,
    /// The number of grid columns per layer.
    pub columns: usize,
    /// A cell's side along the column (x) direction, as the bit pattern of a
    /// double.
    pub cell_length: u64,
    /// A cell's side along the row (y) direction, as the bit pattern of a
    /// double.
    pub cell_width: u64,
}

/// One physical layer of the flattened stack.
#[derive(Clone, Copy, Debug, PartialEq)]
pub enum PhysLayer {
    /// A solid layer.
    Solid {
        /// Height, as the bit pattern of a double.
        height: u64,
        /// Thermal conductivity, as the bit pattern of a double.
        conductivity: u64,
        /// Mass density, as the bit pattern of a double.
        density: u64,
        /// Specific heat, as the bit pattern of a double.
        specific_heat: u64,
        /// Whether the layer conducts laterally within its plane.
        lateral: bool,
        /// Heat transfer coefficient towards the ambient, if the layer's
        /// top face sees the ambient.
        ambient_htc: Option<u64>,
    },
    /// A channel layer.
    Channel {
        /// Height, as the bit pattern of a double.
        height: u64,
        /// Convective heat transfer coefficient towards adjacent layers.
        heat_transfer_coefficient: u64,
        /// Volumetric heat capacity of the coolant.
        volumetric_heat_capacity: u64,
        /// Volumetric flow rate; the bit pattern of `+0.0` when stagnant.
        flow_rate: u64,
    },
}

/// The physical layer a solid `Layer` expands to.
pub open spec fn solid_of(l: Layer, lateral: bool, ambient_htc: Option<u64>) -> PhysLayer {
    PhysLayer::Solid {
        height: l.height,
        conductivity: l.material.thermal_conductivity,
        density: l.material.density,
        specific_heat: l.material.specific_heat,
        lateral: lateral,
        ambient_htc: ambient_htc,
    }
}

/// The physical layer a `Channel` expands to.
pub open spec fn channel_of(c: Channel) -> PhysLayer {
    PhysLayer::Channel {
        height: c.height,
        heat_transfer_coefficient: c.coolant.heat_transfer_coefficient,
        volumetric_heat_capacity: c.coolant.volumetric_heat_capacity,
        flow_rate: c.coolant.flow_rate,
    }
}

/// The physical layers of a die whose layers are listed top to bottom in
/// `s`, returned bottom to top.
pub open spec fn die_layers(s: Seq<Layer>) -> Seq<PhysLayer>
    decreases s.len(),
{
    if s.len() == 0 {
        Seq::empty()
    } else {
        die_layers(s.subrange(1, s.len() as int))
            + seq![solid_of(s[0], true, Option::<u64>::None)]
    }
}

/// The physical layers of one stack element, bottom to top.
pub open spec fn element_layers(e: StackElement) -> Seq<PhysLayer> {
    match e {
        StackElement::Undefined => Seq::empty(),
        StackElement::Layer(l) => seq![solid_of(l, true, Option::<u64>::None)],
        StackElement::Channel(c) => seq![channel_of(c)],
        StackElement::Die(d) => die_layers(d.layers@),
        StackElement::HeatSink(h) => seq![
            solid_of(h.spreader, false, Option::<u64>::None),
            solid_of(h.sink, false, Option::<u64>::Some(h.heat_transfer_coefficient)),
        ],
    }
}

/// The physical layers of an element sequence listed top to bottom,
/// returned bottom to top.
pub open spec fn layers_of(s: Seq<StackElement>) -> Seq<PhysLayer>
    decreases s.len(),
{
    if s.len() == 0 {
        Seq::empty()
    } else {
        layers_of(s.subrange(1, s.len() as int)) + element_layers(s[0])
    }
}

/// The flattened physical layers of a stack description, bottom to top.
pub open spec fn stack_layers(elements: Seq<StackElement>) -> Seq<PhysLayer> {
    layers_of(elements)
}

/// Whether cells of this layer connect to their east and west neighbours: a
/// lateral solid layer, or a channel with active coolant flow.
pub open spec fn has_x(p: PhysLayer) -> bool {
    match p {
        PhysLayer::Solid { lateral, .. } => lateral,
        PhysLayer::Channel { flow_rate, .. } => flow_rate != F64_ZERO,
    }
}

/// Whether cells of this layer connect to their north and south neighbours:
/// only a lateral solid layer; a channel is adiabatic across the flow
/// direction.
pub open spec fn has_y(p: PhysLayer) -> bool {
    match p {
        PhysLayer::Solid { lateral, .. } => lateral,
        PhysLayer::Channel { .. } => false,
    }
}

/// Whether a physical layer's parameters are admissible: heights and
/// material parameters strictly positive finite doubles, and a channel's
/// flow rate either exactly `+0.0` (stagnant) or strictly positive finite.
pub open spec fn phys_valid(p: PhysLayer) -> bool {
    match p {
        PhysLayer::Solid { height, conductivity, density, specific_heat, ambient_htc, .. } => {
            &&& is_pos_finite(height)
            &&& is_pos_finite(conductivity)
            &&& is_pos_finite(density)
            &&& is_pos_finite(specific_heat)
            &&& (ambient_htc matches Some(h) ==> is_pos_finite(h))
        },
        PhysLayer::Channel {
            height,
            heat_transfer_coefficient,
            volumetric_heat_capacity,
            flow_rate,
        } => {
            &&& is_pos_finite(height)
            &&& is_pos_finite(heat_transfer_coefficient)
            &&& is_pos_finite(volumetric_heat_capacity)
            &&& (flow_rate == F64_ZERO || is_pos_finite(flow_rate))
        },
    }
}

/// Whether every physical layer of the stack is admissible.
pub open spec fn materials_ok(elements: Seq<StackElement>) -> bool {
    forall|i: int|
        0 <= i < stack_layers(elements).len() ==> phys_valid(#[trigger] stack_layers(elements)[i])
}

/// Whether the cell grid is usable: at least one row and one column, and
/// strictly positive finite cell sides.
pub open spec fn geometry_ok(
    rows: usize,
    columns: usize,
    cell_length: u64,
    cell_width: u64,
) -> bool {
    rows > 0 && columns > 0 && is_pos_finite(cell_length) && is_pos_finite(cell_width)
}

impl StackDescription {
    /// The flattened physical layers this description denotes, bottom to
    /// top.
    pub open spec fn spec_layers(&self) -> Seq<PhysLayer> {
        stack_layers(self.elements@)
    }

    /// Whether the description's grid is usable.
    pub open spec fn spec_geometry_ok(&self) -> bool {
        geometry_ok(self.rows, self.columns, self.cell_length, self.cell_width)
    }

    /// Whether every layer's parameters are admissible.
    pub open spec fn spec_materials_ok(&self) -> bool {
        materials_ok(self.elements@)
    }

    /// Return the elements, from top to bottom.
    pub fn elements(&self) -> (r: &Vec<StackElement>)
        ensures
            r == &self.elements,
    {
        &self.elements
    }

    /// Flatten the description into its physical layers, bottom to top.
    pub fn flat_layers(&self) -> (r: Vec<PhysLayer>)
        ensures
            r@ == self.spec_layers(),
    {
        flatten_elements(&self.elements)
    }
}

/// Flatten an element list, listed top to bottom, into its physical layers,
/// bottom to top.
pub fn flatten_elements(elements: &Vec<StackElement>) -> (r: Vec<PhysLayer>)
    ensures
        r@ == stack_layers(elements@),
{
    let mut flat: Vec<PhysLayer> = Vec::new();
    let n = elements.len();
    let mut i = n;
    while i > 0
        invariant
            i <= n,
            n == elements@.len(),
            flat@ == layers_of(elements@.subrange(i as int, n as int)),
        decreases i,
    {
        i = i - 1;
        push_element_layers(&mut flat, &elements[i]);
        proof {
            assert(elements@.subrange(i as int, n as int).subrange(1, (n - i) as int)
                =~= elements@.subrange(i + 1, n as int));
            assert(elements@.subrange(i as int, n as int)[0] == elements@[i as int]);
        }
    }
    proof {
        assert(elements@.subrange(0, n as int) =~= elements@);
    }
    flat
}

/// A three-dimensional stack: a stack description together with the
/// dimensions it denotes.
#[derive(Clone, Debug)]
pub struct Stack {
    /// The dimensions.
    pub dimensions: Dimensions,
    /// The list of elements, from top to bottom.
    pub elements: Vec<StackElement>,
    /// A cell's side along the column (x) direction, as the bit pattern of
    /// a double.
    pub cell_length: u64,
    /// A cell's side along the row (y) direction, as the bit pattern of a
    /// double.
    pub cell_width: u64,
}

impl Stack {
    /// The stack description this stack carries.
    pub open spec fn description(&self) -> StackDescription {
        StackDescription {
            elements: self.elements,
            rows: self.dimensions.spec_rows(),
            columns: self.dimensions.spec_columns(),
            cell_length: self.cell_length,
            cell_width: self.cell_width,
        }
    }

    /// The stack's invariant: its dimensions are the ones its description
    /// denotes.
    pub open spec fn wf(&self) -> bool {
        self.dimensions.consistent_with(self.description())
    }

    /// Build a stack from a description, deriving its dimensions.  Fails
    /// with `Overflow` exactly when the cell or connection count does not
    /// fit in `usize`.
    pub fn new(description: StackDescription) -> (res: Result<Stack, Error>)
        ensures
            res is Ok <==> crate::dimensions::dims_fit(description),
            res matches Ok(st) ==> {
                &&& st.wf()
                &&& st.elements@ == description.elements@
                &&& st.dimensions.consistent_with(description)
                &&& st.cell_length == description.cell_length
                &&& st.cell_width == description.cell_width
            },
            res is Err ==> res == Err::<Stack, Error>(Error::Overflow),
    {
        let dimensions = match description.dimensions() {
            Ok(d) => d,
            Err(e) => {
                return Err(e);
            },
        };
        let StackDescription { elements, rows, columns, cell_length, cell_width } = description;
        Ok(Stack { dimensions, elements, cell_length, cell_width })
    }
}

/// Append the physical layers of one element, bottom to top.
fn push_element_layers(flat: &mut Vec<PhysLayer>, e: &StackElement) -> (r: ())
    ensures
        final(flat)@ == old(flat)@ + element_layers(*e),
{
    match e {
        StackElement::Undefined => {
            proof {
                assert(flat@ =~= flat@ + element_layers(*e));
            }
        },
        StackElement::Layer(l) => {
            flat.push(
                PhysLayer::Solid {
                    height: l.height,
                    conductivity: l.material.thermal_conductivity,
                    density: l.material.density,
                    specific_heat: l.material.specific_heat,
                    lateral: true,
                    ambient_htc: Option::None,
                },
            );
            proof {
                assert(flat@ =~= old(flat)@ + element_layers(*e));
            }
        },
        StackElement::Channel(c) => {
            flat.push(
                PhysLayer::Channel {
                    height: c.height,
                    heat_transfer_coefficient: c.coolant.heat_transfer_coefficient,
                    volumetric_heat_capacity: c.coolant.volumetric_heat_capacity,
                    flow_rate: c.coolant.flow_rate,
                },
            );
            proof {
                assert(flat@ =~= old(flat)@ + element_layers(*e));
            }
        },
        StackElement::Die(d) => {
            let n = d.layers.len();
            let mut j = n;
            while j > 0
                invariant
                    j <= n,
                    n == d.layers@.len(),
                    flat@ == old(flat)@ + die_layers(d.layers@.subrange(j as int, n as int)),
                decreases j,
            {
                j = j - 1;
                let l = &d.layers[j];
                flat.push(
                    PhysLayer::Solid {
                        height: l.height,
                        conductivity: l.material.thermal_conductivity,
                        density: l.material.density,
                        specific_heat: l.material.specific_heat,
                        lateral: true,
                        ambient_htc: Option::None,
                    },
                );
                proof {
                    assert(d.layers@.subrange(j as int, n as int).subrange(1, (n - j) as int)
                        =~= d.layers@.subrange(j + 1, n as int));
                    assert(d.layers@.subrange(j as int, n as int)[0] == d.layers@[j as int]);
                    assert(flat@ =~= old(flat)@ + die_layers(
                        d.layers@.subrange(j as int, n as int),
                    ));
                }
            }
            proof {
                assert(d.layers@.subrange(0, n as int) =~= d.layers@);
            }
        },
        StackElement::HeatSink(h) => {
            flat.push(
                PhysLayer::Solid {
                    height: h.spreader.height,
                    conductivity: h.spreader.material.thermal_conductivity,
                    density: h.spreader.material.density,
                    specific_heat: h.spreader.material.specific_heat,
                    lateral: false,
                    ambient_htc: Option::None,
                },
            );
            flat.push(
                PhysLayer::Solid {
                    height: h.sink.height,
                    conductivity: h.sink.material.thermal_conductivity,
                    density: h.sink.material.density,
                    specific_heat: h.sink.material.specific_heat,
                    lateral: false,
                    ambient_htc: Option::Some(h.heat_transfer_coefficient),
                },
            );
            proof {
                assert(flat@ =~= old(flat)@ + element_layers(*e));
            }
        },
    }
}

} // verus!
