use threed_ice::analysis::{Analysis, AnalysisType};
use threed_ice::error::Error;
use threed_ice::power_grid::PowerGrid;
use threed_ice::sparse::SparseMatrix;
use threed_ice::stack::{
    Channel, Coolant, Die, Floorplan, FloorplanElement, HeatSink, Layer, Material, Stack,
    StackDescription, StackElement,
};
use threed_ice::system::{Circuit, System};

fn bits(x: f64) -> u64 {
    x.to_bits()
}

fn layer(height: f64, conductivity: f64, specific_heat: f64) -> Layer {
    Layer {
        height: bits(height),
        material: Material {
            thermal_conductivity: bits(conductivity),
            density: bits(1.0),
            specific_heat: bits(specific_heat),
        },
    }
}

fn element(id: &str, row: usize, column: usize, rows: usize, columns: usize) -> FloorplanElement {
    FloorplanElement {
        id: id.to_string(),
        row,
        column,
        rows,
        columns,
    }
}

/// A stack with a die, an active channel, a stagnant channel, and a heat
/// sink, over a 3-by-2 grid.
fn mixed_description() -> StackDescription {
    let channel = |flow: f64| Channel {
        height: bits(0.5),
        coolant: Coolant {
            heat_transfer_coefficient: bits(3.0),
            volumetric_heat_capacity: bits(4.0),
            flow_rate: bits(flow),
        },
    };
    let die = Die {
        id: "CPU".to_string(),
        floorplan: Floorplan {
            elements: vec![element("Left", 0, 0, 3, 1), element("Right", 0, 1, 3, 1)],
        },
        layers: vec![layer(0.2, 2.0, 5.0), layer(0.1, 1.5, 7.0)],
        source: 0,
    };
    let sink = HeatSink {
        spreader: layer(1.0, 10.0, 1.0),
        sink: layer(2.0, 20.0, 2.0),
        heat_transfer_coefficient: bits(6.0),
    };
    StackDescription {
        elements: vec![
            StackElement::HeatSink(sink),
            StackElement::Channel(channel(0.25)),
            StackElement::Die(die),
            StackElement::Channel(channel(0.0)),
            StackElement::Layer(layer(0.3, 1.0, 1.0)),
        ],
        rows: 3,
        columns: 2,
        cell_length: bits(0.5),
        cell_width: bits(0.25),
    }
}

fn mixed_system(kind: AnalysisType) -> System {
    let analysis = Analysis::new(kind, bits(2e-2)).unwrap();
    System::new(mixed_description(), analysis).unwrap()
}

#[test]
fn counts_match_dimensions() {
    let system = mixed_system(AnalysisType::Steady);
    let dimensions = &system.stack.dimensions;
    assert_eq!(
        dimensions.cells(),
        dimensions.layers() * dimensions.rows() * dimensions.columns()
    );
    assert_eq!(dimensions.layers(), 7);
    let capacitance = system.capacitance().unwrap();
    assert_eq!(capacitance.len(), dimensions.cells());
    let conductance = system.conductance().unwrap();
    assert_eq!(conductance.rows, dimensions.cells());
    assert_eq!(conductance.columns, dimensions.cells());
    assert_eq!(conductance.nonzeros, dimensions.connections());
}

fn check_offsets(matrix: &SparseMatrix) {
    assert_eq!(matrix.column_offsets.len(), matrix.columns + 1);
    assert_eq!(matrix.column_offsets[0], 0);
    assert_eq!(matrix.column_offsets[matrix.columns], matrix.nonzeros);
    for j in 0..matrix.columns {
        assert!(matrix.column_offsets[j] <= matrix.column_offsets[j + 1]);
    }
}

#[test]
fn offsets_well_formed() {
    let system = mixed_system(AnalysisType::Transient);
    check_offsets(&system.conductance().unwrap());
    check_offsets(&system.distribution().unwrap());
}

#[test]
fn conductance_structurally_symmetric() {
    let conductance = mixed_system(AnalysisType::Transient).conductance().unwrap();
    for j in 0..conductance.columns {
        for k in conductance.column_offsets[j]..conductance.column_offsets[j + 1] {
            let i = conductance.row_indices[k];
            if i == j {
                continue;
            }
            let mut mirrored = false;
            for k2 in conductance.column_offsets[i]..conductance.column_offsets[i + 1] {
                if conductance.row_indices[k2] == j {
                    assert_eq!(conductance.values[k2], conductance.values[k]);
                    mirrored = true;
                }
            }
            assert!(mirrored, "entry ({}, {}) has no mirror", i, j);
        }
    }
}

#[test]
fn conductance_signs() {
    let conductance = mixed_system(AnalysisType::Transient).conductance().unwrap();
    for j in 0..conductance.columns {
        for k in conductance.column_offsets[j]..conductance.column_offsets[j + 1] {
            let value = f64::from_bits(conductance.values[k]);
            if conductance.row_indices[k] == j {
                assert!(value > 0.0);
            } else {
                assert!(value <= 0.0);
            }
        }
    }
}

#[test]
fn distribution_columns_sum_to_one() {
    let distribution = mixed_system(AnalysisType::Steady).distribution().unwrap();
    assert_eq!(distribution.columns, 2);
    for j in 0..distribution.columns {
        let mut sum = 0.0;
        for k in distribution.column_offsets[j]..distribution.column_offsets[j + 1] {
            sum += f64::from_bits(distribution.values[k]);
        }
        assert!((sum - 1.0).abs() <= 1e-12);
    }
}

#[test]
fn distribute_is_linear() {
    let system = mixed_system(AnalysisType::Steady);
    let grid = PowerGrid::new(&system.stack).unwrap();
    let cells = system.stack.dimensions.cells();
    let p1 = vec![bits(1.5), bits(-2.0)];
    let p2 = vec![bits(0.25), bits(4.0)];
    let (a, b) = (3.0, -0.5);
    let combined: Vec<u64> = (0..2)
        .map(|i| bits(a * f64::from_bits(p1[i]) + b * f64::from_bits(p2[i])))
        .collect();
    let mut y1 = vec![0u64; cells];
    let mut y2 = vec![0u64; cells];
    let mut y12 = vec![0u64; cells];
    grid.distribute(&p1, &mut y1).unwrap();
    grid.distribute(&p2, &mut y2).unwrap();
    grid.distribute(&combined, &mut y12).unwrap();
    for i in 0..cells {
        let lhs = f64::from_bits(y12[i]);
        let rhs = a * f64::from_bits(y1[i]) + b * f64::from_bits(y2[i]);
        assert!((lhs - rhs).abs() <= 1e-12, "cell {}: {} vs {}", i, lhs, rhs);
    }
}

#[test]
fn distribute_rejects_wrong_sizes() {
    let system = mixed_system(AnalysisType::Steady);
    let grid = PowerGrid::new(&system.stack).unwrap();
    let cells = system.stack.dimensions.cells();
    let power = vec![bits(1.0), bits(2.0)];
    let mut short = vec![bits(7.0); cells - 1];
    let before = short.clone();
    assert_eq!(
        grid.distribute(&power, &mut short),
        Err(Error::SizeMismatch)
    );
    assert_eq!(short, before, "a failed distribute must not write");
    let mut out = vec![0u64; cells];
    let bad_power = vec![bits(1.0)];
    assert_eq!(grid.distribute(&bad_power, &mut out), Err(Error::SizeMismatch));
}

#[test]
fn distribute_equals_distribution_product() {
    let system = mixed_system(AnalysisType::Steady);
    let grid = PowerGrid::new(&system.stack).unwrap();
    let distribution = system.distribution().unwrap();
    let power = vec![bits(0.125), bits(-3.5)];
    let mut direct = vec![0u64; system.stack.dimensions.cells()];
    grid.distribute(&power, &mut direct).unwrap();
    let product = distribution.apply(&power).unwrap();
    assert_eq!(direct, product, "bit-identical by construction");
}

#[test]
fn rebuild_is_deterministic() {
    let first = mixed_system(AnalysisType::Transient);
    let second = mixed_system(AnalysisType::Transient);
    assert_eq!(
        first.capacitance().unwrap(),
        second.capacitance().unwrap()
    );
    let c1 = first.conductance().unwrap();
    let c2 = second.conductance().unwrap();
    assert_eq!(c1.values, c2.values);
    assert_eq!(c1.row_indices, c2.row_indices);
    assert_eq!(c1.column_offsets, c2.column_offsets);
    let d1 = first.distribution().unwrap();
    let d2 = second.distribution().unwrap();
    assert_eq!(d1.values, d2.values);
}

#[test]
fn invalid_material_is_rejected() {
    let mut description = mixed_description();
    description.elements.push(StackElement::Layer(layer(0.1, -1.0, 1.0)));
    let analysis = Analysis::new(AnalysisType::Steady, bits(0.0)).unwrap();
    let system = System::new(description, analysis).unwrap();
    assert_eq!(system.capacitance(), Err(Error::InvalidMaterial));
    assert_eq!(system.conductance().unwrap_err(), Error::InvalidMaterial);
}

#[test]
fn zero_conductivity_is_rejected() {
    let mut description = mixed_description();
    description.elements.push(StackElement::Layer(layer(0.1, 0.0, 1.0)));
    let analysis = Analysis::new(AnalysisType::Steady, bits(0.0)).unwrap();
    let system = System::new(description, analysis).unwrap();
    assert_eq!(system.capacitance(), Err(Error::InvalidMaterial));
}

#[test]
fn degenerate_geometry_is_rejected() {
    let mut description = mixed_description();
    description.rows = 0;
    let analysis = Analysis::new(AnalysisType::Steady, bits(0.0)).unwrap();
    let system = System::new(description, analysis).unwrap();
    assert_eq!(system.capacitance(), Err(Error::DegenerateGeometry));
    let mut description = mixed_description();
    description.cell_length = bits(-1.0);
    let system = System::new(description, analysis).unwrap();
    assert_eq!(system.conductance().unwrap_err(), Error::DegenerateGeometry);
}

#[test]
fn invalid_floorplan_is_rejected() {
    // An element reaching outside the grid.
    let mut description = mixed_description();
    if let StackElement::Die(die) = &mut description.elements[2] {
        die.floorplan.elements[0] = element("Wide", 0, 0, 3, 3);
    }
    let analysis = Analysis::new(AnalysisType::Steady, bits(0.0)).unwrap();
    let system = System::new(description, analysis).unwrap();
    assert_eq!(system.distribution().unwrap_err(), Error::InvalidFloorplan);
    // A zero-area element.
    let mut description = mixed_description();
    if let StackElement::Die(die) = &mut description.elements[2] {
        die.floorplan.elements[0] = element("Empty", 0, 0, 0, 1);
    }
    let system = System::new(description, analysis).unwrap();
    assert_eq!(system.distribution().unwrap_err(), Error::InvalidFloorplan);
    // A source index past the die's layers.
    let mut description = mixed_description();
    if let StackElement::Die(die) = &mut description.elements[2] {
        die.source = 2;
    }
    let system = System::new(description, analysis).unwrap();
    assert_eq!(system.distribution().unwrap_err(), Error::InvalidFloorplan);
}

#[test]
fn invalid_analysis_is_rejected() {
    assert_eq!(
        Analysis::new(AnalysisType::Transient, bits(0.0)).unwrap_err(),
        Error::InvalidAnalysis
    );
    assert_eq!(
        Analysis::new(AnalysisType::Transient, bits(-1.0)).unwrap_err(),
        Error::InvalidAnalysis
    );
    assert!(Analysis::new(AnalysisType::Steady, bits(0.0)).is_ok());
}

#[test]
fn overflow_is_rejected() {
    let mut description = mixed_description();
    description.rows = usize::MAX;
    description.columns = 2;
    let analysis = Analysis::new(AnalysisType::Steady, bits(0.0)).unwrap();
    assert_eq!(
        System::new(description, analysis).unwrap_err(),
        Error::Overflow
    );
}

#[test]
fn stale_dimensions_fail_assembly() {
    let analysis = Analysis::new(AnalysisType::Steady, bits(0.0)).unwrap();
    let mut stack = Stack::new(mixed_description()).unwrap();
    let mut other = mixed_description();
    other.elements.push(StackElement::Layer(layer(0.1, 1.0, 1.0)));
    let taller = Stack::new(other).unwrap();
    // Dimensions of a different stack: the discovered counts disagree.
    stack.dimensions = taller.dimensions;
    let grid = threed_ice::thermal_grid::ThermalGrid::new(&stack).unwrap();
    assert_eq!(
        threed_ice::system_matrix::SystemMatrix::new(&stack, &analysis, &grid).unwrap_err(),
        Error::BuildFailure
    );
}

#[test]
fn sparse_matrix_validates() {
    let ok = SparseMatrix::new(2, 2, vec![bits(1.0), bits(2.0)], vec![0, 1], vec![0, 1, 2]);
    assert!(ok.is_ok());
    // Offsets that decrease.
    assert_eq!(
        SparseMatrix::new(2, 3, vec![bits(1.0), bits(2.0)], vec![0, 1], vec![0, 2, 1, 2])
            .map(|_| ())
            .unwrap_err(),
        Error::BuildFailure
    );
    // A row index out of range.
    assert_eq!(
        SparseMatrix::new(2, 2, vec![bits(1.0), bits(2.0)], vec![0, 2], vec![0, 1, 2])
            .map(|_| ())
            .unwrap_err(),
        Error::BuildFailure
    );
    // Rows that do not ascend within a column.
    assert_eq!(
        SparseMatrix::new(2, 1, vec![bits(1.0), bits(2.0)], vec![1, 0], vec![0, 2])
            .map(|_| ())
            .unwrap_err(),
        Error::BuildFailure
    );
}

#[test]
fn circuit_matches_system() {
    let analysis = Analysis::new(AnalysisType::Transient, bits(2e-2)).unwrap();
    let circuit = Circuit::new(mixed_description(), analysis).unwrap();
    let system = mixed_system(AnalysisType::Transient);
    assert_eq!(circuit.layers, 7);
    assert_eq!(circuit.rows, 3);
    assert_eq!(circuit.columns, 2);
    assert_eq!(circuit.cells, 42);
    assert_eq!(circuit.capacitance, system.capacitance().unwrap());
    assert_eq!(circuit.conductance.values, system.conductance().unwrap().values);
}

#[test]
fn stagnant_channel_is_adiabatic() {
    // The stagnant channel is layer 1 (from the bottom); its cells must
    // have no lateral entries: exactly the diagonal plus the two vertical
    // neighbours.
    let conductance = mixed_system(AnalysisType::Steady).conductance().unwrap();
    let cells_per_layer = 6;
    for cell in cells_per_layer..2 * cells_per_layer {
        let entries = conductance.column_offsets[cell + 1] - conductance.column_offsets[cell];
        assert_eq!(entries, 3);
    }
    // The active channel is layer 4; its cells also couple to their east
    // and west neighbours, where those exist.
    let active = 4 * cells_per_layer;
    let entries = conductance.column_offsets[active + 1] - conductance.column_offsets[active];
    assert_eq!(entries, 4);
}

#[test]
fn empty_stack() {
    let description = StackDescription {
        elements: vec![],
        rows: 2,
        columns: 2,
        cell_length: bits(1.0),
        cell_width: bits(1.0),
    };
    let analysis = Analysis::new(AnalysisType::Steady, bits(0.0)).unwrap();
    let system = System::new(description, analysis).unwrap();
    assert_eq!(system.stack.dimensions.layers(), 0);
    assert_eq!(system.stack.dimensions.cells(), 0);
    assert_eq!(system.stack.dimensions.connections(), 0);
    assert_eq!(system.capacitance().unwrap(), Vec::<u64>::new());
    let conductance = system.conductance().unwrap();
    assert_eq!(conductance.rows, 0);
    assert_eq!(conductance.nonzeros, 0);
    assert_eq!(conductance.column_offsets, vec![0]);
    let distribution = system.distribution().unwrap();
    assert_eq!(distribution.columns, 0);
}
