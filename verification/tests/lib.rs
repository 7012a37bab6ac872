use threed_ice::analysis::{Analysis, AnalysisType};
use threed_ice::sparse::SparseMatrix;
use threed_ice::stack::{
    Die, Floorplan, FloorplanElement, HeatSink, Layer, Material, StackDescription, StackElement,
};
use threed_ice::system::System;

fn bits(x: f64) -> u64 {
    x.to_bits()
}

fn close(actual: &[f64], expected: &[f64], tolerance: f64) {
    assert_eq!(actual.len(), expected.len());
    for i in 0..actual.len() {
        assert!(
            (actual[i] - expected[i]).abs() <= tolerance,
            "index {}: {} vs {}",
            i,
            actual[i],
            expected[i]
        );
    }
}

fn layer(height: f64, conductivity: f64, specific_heat: f64) -> Layer {
    Layer {
        height: bits(height),
        material: Material {
            thermal_conductivity: bits(conductivity),
            density: bits(1.0),
            specific_heat: bits(specific_heat),
        },
    }
}

/// A four-layer stack over a 2-by-2 grid: a die of two laterally conducting
/// layers below a heat sink whose spreader and sink conduct only
/// vertically.
fn default_description() -> StackDescription {
    let core = |id: &str, row: usize, column: usize| FloorplanElement {
        id: id.to_string(),
        row,
        column,
        rows: 1,
        columns: 1,
    };
    let die = Die {
        id: "DIE".to_string(),
        floorplan: Floorplan {
            elements: vec![
                core("Core0", 0, 0),
                core("Core1", 0, 1),
                core("Core2", 1, 0),
                core("Core3", 1, 1),
            ],
        },
        // Listed top to bottom: the source layer is the bottom one.
        layers: vec![
            layer(0.01, 0.008, 0.032),
            layer(
                0.10606601717798213,
                0.1414213562373095,
                0.009899494936611665,
            ),
        ],
        source: 1,
    };
    let sink = HeatSink {
        spreader: layer(1.0, 0.62780825698588438, 0.79875),
        sink: layer(1.0, 13.955335293771604, 22.0455),
        heat_transfer_coefficient: bits(21.30392728972236),
    };
    StackDescription {
        elements: vec![StackElement::HeatSink(sink), StackElement::Die(die)],
        rows: 2,
        columns: 2,
        cell_length: bits(1.0),
        cell_width: bits(1.0),
    }
}

fn default_system() -> System {
    let analysis = Analysis::new(AnalysisType::Transient, bits(1e-3)).unwrap();
    System::new(default_description(), analysis).unwrap()
}

/// A four-layer stack over a 4-by-4 grid whose bottom layer is the source,
/// with four floorplan elements each covering one 2-by-2 quadrant.
fn double_description() -> StackDescription {
    let quadrant = |id: &str, row: usize, column: usize| FloorplanElement {
        id: id.to_string(),
        row,
        column,
        rows: 2,
        columns: 2,
    };
    let die = Die {
        id: "DIE".to_string(),
        floorplan: Floorplan {
            elements: vec![
                quadrant("Q0", 0, 0),
                quadrant("Q1", 0, 2),
                quadrant("Q2", 2, 0),
                quadrant("Q3", 2, 2),
            ],
        },
        layers: vec![
            layer(1.0, 1.0, 1.0),
            layer(1.0, 1.0, 1.0),
            layer(1.0, 1.0, 1.0),
            layer(1.0, 1.0, 1.0),
        ],
        source: 3,
    };
    StackDescription {
        elements: vec![StackElement::Die(die)],
        rows: 4,
        columns: 4,
        cell_length: bits(1.0),
        cell_width: bits(1.0),
    }
}

fn dense(matrix: &SparseMatrix) -> Vec<f64> {
    let mut out = vec![0.0; matrix.rows * matrix.columns];
    for j in 0..matrix.columns {
        for k in matrix.column_offsets[j]..matrix.column_offsets[j + 1] {
            out[j * matrix.rows + matrix.row_indices[k]] = f64::from_bits(matrix.values[k]);
        }
    }
    out
}

#[test]
fn system_capacitance() {
    let capacitance: Vec<f64> = default_system()
        .capacitance()
        .unwrap()
        .iter()
        .map(|&v| f64::from_bits(v))
        .collect();
    close(
        &capacitance,
        &[
            1.05000e-03, 1.05000e-03, 1.05000e-03, 1.05000e-03, 3.20000e-04, 3.20000e-04,
            3.20000e-04, 3.20000e-04, 7.98750e-01, 7.98750e-01, 7.98750e-01, 7.98750e-01,
            2.20455e+01, 2.20455e+01, 2.20455e+01, 2.20455e+01,
        ],
        1e-15,
    );
}

#[test]
fn system_conductance() {
    let conductance = default_system().conductance().unwrap();
    assert_eq!(conductance.rows, 4 * 2 * 2);
    assert_eq!(conductance.columns, 4 * 2 * 2);
    assert_eq!(conductance.nonzeros, 56);
    let values: Vec<f64> = conductance
        .values
        .iter()
        .map(|&v| f64::from_bits(v))
        .collect();
    close(
        &values,
        &[
            2.080000000000000e+00,
            -1.500000000000000e-02,
            -1.500000000000000e-02,
            -1.000000000000000e+00,
            -1.500000000000000e-02,
            2.080000000000000e+00,
            -1.500000000000000e-02,
            -1.000000000000000e+00,
            -1.500000000000000e-02,
            2.080000000000000e+00,
            -1.500000000000000e-02,
            -1.000000000000000e+00,
            -1.500000000000000e-02,
            -1.500000000000000e-02,
            2.080000000000000e+00,
            -1.000000000000000e+00,
            -1.000000000000000e+00,
            2.023681082934419e+00,
            -8.000000000000001e-05,
            -8.000000000000001e-05,
            -7.035210829344193e-01,
            -1.000000000000000e+00,
            -8.000000000000001e-05,
            2.023681082934419e+00,
            -8.000000000000001e-05,
            -7.035210829344193e-01,
            -1.000000000000000e+00,
            -8.000000000000001e-05,
            2.023681082934419e+00,
            -8.000000000000001e-05,
            -7.035210829344193e-01,
            -1.000000000000000e+00,
            -8.000000000000001e-05,
            -8.000000000000001e-05,
            2.023681082934419e+00,
            -7.035210829344193e-01,
            -7.035210829344193e-01,
            8.006550829678521e+02,
            -1.201561884917640e+00,
            -7.035210829344193e-01,
            8.006550829678521e+02,
            -1.201561884917640e+00,
            -7.035210829344193e-01,
            8.006550829678521e+02,
            -1.201561884917640e+00,
            -7.035210829344193e-01,
            8.006550829678521e+02,
            -1.201561884917640e+00,
            -1.201561884917640e+00,
            2.206800548917464e+04,
            -1.201561884917640e+00,
            2.206800548917464e+04,
            -1.201561884917640e+00,
            2.206800548917464e+04,
            -1.201561884917640e+00,
            2.206800548917464e+04,
        ],
        1e-10,
    );
    assert_eq!(
        &conductance.row_indices[..],
        &[
            0, 1, 2, 4, 0, 1, 3, 5, 0, 2, 3, 6, 1, 2, 3, 7, 0, 4, 5, 6, 8, 1, 4, 5, 7, 9, 2, 4, 6,
            7, 10, 3, 5, 6, 7, 11, 4, 8, 12, 5, 9, 13, 6, 10, 14, 7, 11, 15, 8, 12, 9, 13, 10, 14,
            11, 15,
        ][..]
    );
    assert_eq!(
        &conductance.column_offsets[..],
        &[0, 4, 8, 12, 16, 21, 26, 31, 36, 39, 42, 45, 48, 50, 52, 54, 56][..]
    );
}

#[test]
fn system_distribution() {
    let analysis = Analysis::new(AnalysisType::Steady, bits(0.0)).unwrap();
    let system = System::new(double_description(), analysis).unwrap();
    let distribution = system.distribution().unwrap();

    assert_eq!(distribution.rows, 4 * 4 * 4);
    assert_eq!(distribution.columns, 4);

    let distribution = dense(&distribution);
    assert_eq!(
        &distribution,
        &vec![
            0.25, 0.25, 0.0, 0.0, 0.25, 0.25, 0.0, 0.0, 0.0, 0.0, 0.0, 0.0, 0.0, 0.0, 0.0, 0.0,
            0.00, 0.00, 0.0, 0.0, 0.00, 0.00, 0.0, 0.0, 0.0, 0.0, 0.0, 0.0, 0.0, 0.0, 0.0, 0.0,
            0.00, 0.00, 0.0, 0.0, 0.00, 0.00, 0.0, 0.0, 0.0, 0.0, 0.0, 0.0, 0.0, 0.0, 0.0, 0.0,
            0.00, 0.00, 0.0, 0.0, 0.00, 0.00, 0.0, 0.0, 0.0, 0.0, 0.0, 0.0, 0.0, 0.0, 0.0, 0.0,
            0.0, 0.0, 0.25, 0.25, 0.0, 0.0, 0.25, 0.25, 0.0, 0.0, 0.0, 0.0, 0.0, 0.0, 0.0, 0.0,
            0.0, 0.0, 0.00, 0.00, 0.0, 0.0, 0.00, 0.00, 0.0, 0.0, 0.0, 0.0, 0.0, 0.0, 0.0, 0.0,
            0.0, 0.0, 0.00, 0.00, 0.0, 0.0, 0.00, 0.00, 0.0, 0.0, 0.0, 0.0, 0.0, 0.0, 0.0, 0.0,
            0.0, 0.0, 0.00, 0.00, 0.0, 0.0, 0.00, 0.00, 0.0, 0.0, 0.0, 0.0, 0.0, 0.0, 0.0, 0.0,
            0.0, 0.0, 0.0, 0.0, 0.0, 0.0, 0.0, 0.0, 0.25, 0.25, 0.0, 0.0, 0.25, 0.25, 0.0, 0.0,
            0.0, 0.0, 0.0, 0.0, 0.0, 0.0, 0.0, 0.0, 0.00, 0.00, 0.0, 0.0, 0.00, 0.00, 0.0, 0.0,
            0.0, 0.0, 0.0, 0.0, 0.0, 0.0, 0.0, 0.0, 0.00, 0.00, 0.0, 0.0, 0.00, 0.00, 0.0, 0.0,
            0.0, 0.0, 0.0, 0.0, 0.0, 0.0, 0.0, 0.0, 0.00, 0.00, 0.0, 0.0, 0.00, 0.00, 0.0, 0.0,
            0.0, 0.0, 0.0, 0.0, 0.0, 0.0, 0.0, 0.0, 0.0, 0.0, 0.25, 0.25, 0.0, 0.0, 0.25, 0.25,
            0.0, 0.0, 0.0, 0.0, 0.0, 0.0, 0.0, 0.0, 0.0, 0.0, 0.00, 0.00, 0.0, 0.0, 0.00, 0.00,
            0.0, 0.0, 0.0, 0.0, 0.0, 0.0, 0.0, 0.0, 0.0, 0.0, 0.00, 0.00, 0.0, 0.0, 0.00, 0.00,
            0.0, 0.0, 0.0, 0.0, 0.0, 0.0, 0.0, 0.0, 0.0, 0.0, 0.00, 0.00, 0.0, 0.0, 0.00, 0.00,
        ]
    );
}

#[test]
fn system_stack() {
    let system = default_system();
    let stack = &system.stack;

    let dimensions = &stack.dimensions;
    assert_eq!(dimensions.layers(), 4);
    assert_eq!(dimensions.rows(), 2);
    assert_eq!(dimensions.columns(), 2);
    assert_eq!(dimensions.connections(), 56);

    let elements = &stack.elements;
    assert_eq!(elements.len(), 2);
    let die = match (&elements[0], &elements[1]) {
        (&StackElement::HeatSink(_), &StackElement::Die(ref die)) => die,
        _ => unreachable!(),
    };
    assert_eq!(&die.id, "DIE");

    let floorplan = &die.floorplan;
    assert_eq!(
        floorplan
            .elements
            .iter()
            .map(|element| &element.id)
            .collect::<Vec<_>>(),
        &["Core0", "Core1", "Core2", "Core3"]
    );
}
