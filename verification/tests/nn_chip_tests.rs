use halo2_machinelearning::field::Felt;
use halo2_machinelearning::nn_chip::{
    AffineConstraint, CellAssignment, ForwardLayerChip, ForwardLayerConfig, InstanceCopy,
    LayerLayout, LayerParams, Query,
};

fn f(n: u64) -> Felt {
    Felt::from_u64(n)
}

fn config(dims: [usize; 2]) -> ForwardLayerConfig {
    // columns: input 0, bias 1, output 2, weights 3..
    let weights = (0..dims[0]).map(|c| 3 + c).collect();
    ForwardLayerConfig::new(weights, 1, 0, 2, dims, 7)
}

fn region_value(cells: &[CellAssignment], column: usize, row: usize) -> Felt {
    cells
        .iter()
        .rev()
        .find(|c| c.column == column && c.row == row)
        .and_then(|c| c.value)
        .unwrap_or(Felt::zero())
}

fn all_cells(layout: &LayerLayout) -> Vec<CellAssignment> {
    let mut v = layout.biases.clone();
    v.extend(layout.weights.iter().copied());
    v.extend(layout.inputs.iter().copied());
    v.extend(layout.outputs.iter().copied());
    v
}

fn constraint_residual(c: &AffineConstraint, cells: &[CellAssignment], base: usize) -> Felt {
    let mut acc = Felt::zero();
    for (a, b) in &c.products {
        let x = region_value(cells, a.column, base + a.rotation);
        let y = region_value(cells, b.column, base + b.rotation);
        acc = acc.add(&x.mul(&y));
    }
    acc = acc.add(&region_value(cells, c.bias.column, base + c.bias.rotation));
    acc.add(&region_value(cells, c.output.column, base + c.output.rotation).neg())
}

#[test]
fn construct_keeps_the_config() {
    let cfg = config([2, 2]);
    let chip = ForwardLayerChip::construct(cfg.clone());
    assert_eq!(chip.config(), &cfg);
}

#[test]
fn load_input_constant_places_inputs_by_row() {
    let chip = ForwardLayerChip::construct(config([2, 2]));
    let cells = chip.load_input_constant(&[f(4), f(9)]);
    assert_eq!(
        cells,
        vec![
            CellAssignment { column: 0, row: 0, value: Some(f(4)), constant: true },
            CellAssignment { column: 0, row: 1, value: Some(f(9)), constant: true },
        ]
    );
}

#[test]
fn load_input_advice_keeps_unknown_values() {
    let chip = ForwardLayerChip::construct(config([2, 2]));
    let cells = chip.load_input_advice(&[None, Some(f(3))]);
    assert_eq!(
        cells,
        vec![
            CellAssignment { column: 0, row: 0, value: None, constant: false },
            CellAssignment { column: 0, row: 1, value: Some(f(3)), constant: false },
        ]
    );
}

#[test]
fn load_input_instance_offsets_rows() {
    let chip = ForwardLayerChip::construct(config([2, 2]));
    let copies = chip.load_input_instance(5, 10, 3);
    assert_eq!(copies.len(), 3);
    assert_eq!(copies[2], InstanceCopy { instance: 5, instance_row: 12, column: 0, row: 2 });
    assert!(chip.load_input_instance(5, 10, 0).is_empty());
}

#[test]
fn add_layers_computes_the_affine_map() {
    let chip = ForwardLayerChip::construct(config([2, 2]));
    let layer = LayerParams { weights: vec![f(1), f(2), f(3), f(4)], biases: vec![f(5), f(6)] };
    let layout = chip.add_layers(&[Some(f(7)), Some(f(8))], &layer);
    // output 0 = 1*7 + 3*8 + 5, output 1 = 2*7 + 4*8 + 6
    assert_eq!(layout.outputs[0], CellAssignment { column: 2, row: 0, value: Some(f(36)), constant: false });
    assert_eq!(layout.outputs[1], CellAssignment { column: 2, row: 1, value: Some(f(52)), constant: false });
    assert_eq!(layout.selector, 7);
    assert_eq!(layout.selector_row, 0);
    assert_eq!(layout.biases[1], CellAssignment { column: 1, row: 1, value: Some(f(6)), constant: true });
    // weight k goes to column weights[k % out_dim], row k / out_dim
    assert_eq!(layout.weights[1], CellAssignment { column: 4, row: 0, value: Some(f(2)), constant: true });
    assert_eq!(layout.weights[2], CellAssignment { column: 3, row: 1, value: Some(f(3)), constant: true });
    assert_eq!(layout.inputs[1], CellAssignment { column: 0, row: 1, value: Some(f(8)), constant: false });
}

#[test]
fn add_layers_wraps_around_the_modulus() {
    let chip = ForwardLayerChip::construct(config([1, 1]));
    let minus_two = f(2).neg();
    let layer = LayerParams { weights: vec![f(3)], biases: vec![f(1)] };
    let layout = chip.add_layers(&[Some(minus_two)], &layer);
    assert_eq!(layout.outputs[0].value, Some(f(5).neg()));
}

#[test]
fn add_layers_unknown_input_gives_unknown_outputs() {
    let chip = ForwardLayerChip::construct(config([2, 2]));
    let layer = LayerParams { weights: vec![f(1), f(2), f(3), f(4)], biases: vec![f(5), f(6)] };
    let layout = chip.add_layers(&[Some(f(7)), None], &layer);
    assert_eq!(layout.outputs[0].value, None);
    assert_eq!(layout.outputs[1].value, None);
}

#[test]
fn add_layers_without_inputs_gives_the_biases() {
    let chip = ForwardLayerChip::construct(config([2, 2]));
    let layer = LayerParams { weights: vec![], biases: vec![f(5), f(6)] };
    let layout = chip.add_layers(&[], &layer);
    assert_eq!(layout.outputs[0].value, Some(f(5)));
    assert_eq!(layout.outputs[1].value, Some(f(6)));
    assert!(layout.weights.is_empty());
}

#[test]
fn affine_gate_has_one_constraint_per_output() {
    let cfg = config([2, 3]);
    let gate = cfg.affine_gate();
    assert_eq!(gate.len(), 2);
    assert_eq!(gate[1].selector, 7);
    assert_eq!(gate[1].output, Query { column: 2, rotation: 1 });
    assert_eq!(gate[1].bias, Query { column: 1, rotation: 1 });
    assert_eq!(gate[1].products.len(), 3);
    assert_eq!(
        gate[1].products[2],
        (Query { column: 4, rotation: 2 }, Query { column: 0, rotation: 2 })
    );
}

#[test]
fn square_layout_satisfies_the_gate() {
    let cfg = config([3, 3]);
    let chip = ForwardLayerChip::construct(cfg.clone());
    let layer = LayerParams {
        weights: (1..=9).map(|n| f(n * 11)).collect(),
        biases: vec![f(2), f(3).neg(), f(5)],
    };
    let input = [Some(f(4)), Some(f(6).neg()), Some(f(u64::MAX))];
    let layout = chip.add_layers(&input, &layer);
    let cells = all_cells(&layout);
    for c in cfg.affine_gate() {
        assert_eq!(constraint_residual(&c, &cells, layout.selector_row), Felt::zero());
    }
}

fn layout_meets_every_constraint(dims: [usize; 2]) {
    let cfg = config(dims);
    let chip = ForwardLayerChip::construct(cfg.clone());
    let n = (dims[0] * dims[1]) as u64;
    let layer = LayerParams {
        weights: (1..=n).map(|k| if k % 2 == 0 { f(k * 7).neg() } else { f(k * 13) }).collect(),
        biases: (0..dims[0] as u64).map(|b| f(b + 100)).collect(),
    };
    let input: Vec<Option<Felt>> = (0..dims[1] as u64).map(|j| Some(f(j * 5 + 1))).collect();
    let layout = chip.add_layers(&input, &layer);
    let cells = all_cells(&layout);
    let gate = cfg.affine_gate();
    assert_eq!(gate.len(), dims[0]);
    for c in gate {
        assert_eq!(constraint_residual(&c, &cells, layout.selector_row), Felt::zero());
    }
}

#[test]
fn wide_layout_satisfies_the_gate() {
    layout_meets_every_constraint([1, 2]);
    layout_meets_every_constraint([2, 3]);
}

#[test]
fn tall_layout_satisfies_the_gate() {
    layout_meets_every_constraint([3, 2]);
    layout_meets_every_constraint([4, 1]);
}

#[test]
fn non_square_weights_go_to_their_output_column() {
    // out_dim 2, in_dim 3: weight i + 2 * j belongs to output i, input j.
    let chip = ForwardLayerChip::construct(config([2, 3]));
    let layer = LayerParams { weights: (1..=6).map(f).collect(), biases: vec![f(0), f(0)] };
    let layout = chip.add_layers(&[Some(f(1)), Some(f(10)), Some(f(100))], &layer);
    assert_eq!(layout.weights[5], CellAssignment { column: 4, row: 2, value: Some(f(6)), constant: true });
    // output 0 = 1*1 + 3*10 + 5*100, output 1 = 2*1 + 4*10 + 6*100
    assert_eq!(layout.outputs[0].value, Some(f(531)));
    assert_eq!(layout.outputs[1].value, Some(f(642)));
}

#[test]
fn configure_without_inputs_needs_no_weight_columns() {
    let (cfg, gate) = ForwardLayerChip::configure(0, vec![], 1, 2, [3, 0], 9);
    assert_eq!(cfg.dims, [3, 0]);
    assert_eq!(gate.len(), 3);
    assert!(gate.iter().all(|c| c.products.is_empty()));
    assert_eq!(gate[2].output, Query { column: 2, rotation: 2 });
}

#[test]
fn configure_builds_config_and_constraints() {
    let (cfg, gate) = ForwardLayerChip::configure(0, vec![3, 4], 1, 2, [2, 2], 9);
    assert_eq!(cfg, ForwardLayerConfig::new(vec![3, 4], 1, 0, 2, [2, 2], 9));
    assert_eq!(gate, cfg.affine_gate());
    assert_eq!(gate[0].products[1], (Query { column: 3, rotation: 1 }, Query { column: 0, rotation: 1 }));
}
