use crate::field::{add_mod, field_modulus, mul_mod, Felt};
use vstd::arithmetic::div_mod::*;
use vstd::arithmetic::mul::*;
use vstd::prelude::*;

verus! {

/// The weights and biases of one affine layer. The weight that input `j`
/// carries into output `i` is `weights[i + j * out_dim]`.
#[derive(Clone, Debug, Default)]
pub struct LayerParams {
    pub weights: Vec<Felt>,
    pub biases: Vec<Felt>,
}

/// Where a forward layer lives in the circuit: the advice columns that
/// hold the weights (one per output), the bias, the input and the output,
/// the layer's dimensions `[out_dim, in_dim]`, and the selector that turns
/// its gate on. Columns and the selector are named by their indices.
#[derive(Clone, Debug, PartialEq, Eq)]
pub struct ForwardLayerConfig {
    pub weights: Vec<usize>,
    pub bias: usize,
    pub input: usize,
    pub output: usize,
    pub dims: [usize; 2],
    pub nn_selector: usize,
}

/// A chip that lays out forward layers under one configuration.
#[derive(Clone, Debug)]
pub struct ForwardLayerChip {
    config: ForwardLayerConfig,
}

/// One advice cell written in a region, at a row relative to the region's
/// start; `None` stands for a value that is not known (as when keys are
/// generated). A `constant` cell is bound to its value as a constant of the
/// circuit, so that no witness can hold another value there.
#[derive(Clone, Copy, Debug, PartialEq, Eq)]
pub struct CellAssignment {
    pub column: usize,
    pub row: usize,
    pub value: Option<Felt>,
    pub constant: bool,
}

/// One advice cell copied from a row of an instance column.
#[derive(Clone, Copy, Debug, PartialEq, Eq)]
pub struct InstanceCopy {
    pub instance: usize,
    pub instance_row: usize,
    pub column: usize,
    pub row: usize,
}

/// Everything one forward layer writes into its region, in the order in
/// which it is written: the selector enabled at `selector_row`, then the
/// biases, the weights, the copies of the inputs, and the outputs.
#[derive(Clone, Debug, PartialEq, Eq)]
pub struct LayerLayout {
    pub selector: usize,
    pub selector_row: usize,
    pub biases: Vec<CellAssignment>,
    pub weights: Vec<CellAssignment>,
    pub inputs: Vec<CellAssignment>,
    pub outputs: Vec<CellAssignment>,
}

/// A cell of a gate, named by its column and its rotation (a row offset
/// from the row where the constraint is evaluated).
#[derive(Clone, Copy, Debug, PartialEq, Eq)]
pub struct Query {
    pub column: usize,
    pub rotation: usize,
}

/// One polynomial constraint of the affine gate:
/// `selector * (sum of the products - output + bias)`.
#[derive(Clone, Debug, PartialEq, Eq)]
pub struct AffineConstraint {
    pub selector: usize,
    pub output: Query,
    pub bias: Query,
    pub products: Vec<(Query, Query)>,
}

pub open spec fn opt_val(v: Option<Felt>) -> Option<nat> {
    match v {
        Some(x) => Some(x.val()),
        None => None,
    }
}

/// The output `i` of the layer before its bias, summed over the first `n`
/// inputs, step by step in the field; unknown as soon as one of those
/// inputs is.
pub open spec fn affine_acc(
    weights: Seq<Felt>,
    out_dim: nat,
    input: Seq<Option<Felt>>,
    i: nat,
    n: nat,
) -> Option<nat>
    decreases n,
{
    if n == 0 {
        Some(0)
    } else {
        match (affine_acc(weights, out_dim, input, i, (n - 1) as nat), input[n - 1]) {
            (Some(a), Some(x)) => Some(
                add_mod(a, mul_mod(weights[i + (n - 1) * out_dim].val(), x.val())),
            ),
            _ => None,
        }
    }
}

/// The output `i` of the layer: the weighted sum of all inputs plus the
/// bias, in the field.
pub open spec fn affine_output(layer: LayerParams, out_dim: nat, input: Seq<Option<Felt>>, i: nat) -> Option<nat> {
    match affine_acc(layer.weights@, out_dim, input, i, input.len()) {
        Some(a) => Some(add_mod(a, layer.biases@[i as int].val())),
        None => None,
    }
}

impl ForwardLayerConfig {
    /// The inputs on which `add_layers` neither divides by zero nor reads
    /// past the end of a vector: the weights fit the weight columns, and
    /// every output finds its bias and a weight for each input.
    pub open spec fn layer_fits(self, layer: LayerParams, input_len: nat) -> bool {
        &&& layer.weights.len() > 0 ==> self.dims[0] > 0
        &&& forall|k: int|
            0 <= k < layer.weights.len() ==> #[trigger] (k % (self.dims[0] as int))
                < self.weights.len()
        &&& self.dims[0] <= layer.biases.len()
        &&& self.dims[0] * input_len <= layer.weights.len()
    }

    /// The columns of the layer are pairwise distinct.
    pub open spec fn columns_distinct(self) -> bool {
        &&& forall|a: int, b: int|
            0 <= a < b < self.weights.len() ==> self.weights@[a] != self.weights@[b]
        &&& forall|a: int|
            0 <= a < self.weights.len() ==> {
                &&& self.weights@[a] != self.bias
                &&& self.weights@[a] != self.input
                &&& self.weights@[a] != self.output
            }
        &&& self.bias != self.input
        &&& self.bias != self.output
        &&& self.input != self.output
    }

    /// `gate` is the affine gate of this configuration: for each output `i`,
    /// the products of weight column `i` and the input column at rotations
    /// `0..in_dim`, with the bias and the output at rotation `i`.
    pub open spec fn is_affine_gate(self, gate: Seq<AffineConstraint>) -> bool {
        &&& gate.len() == self.dims[0]
        &&& forall|i: int|
            0 <= i < gate.len() ==> {
                &&& (#[trigger] gate[i]).selector == self.nn_selector
                &&& gate[i].output == Query { column: self.output, rotation: i as usize }
                &&& gate[i].bias == Query { column: self.bias, rotation: i as usize }
                &&& gate[i].products@.len() == self.dims[1]
                &&& forall|j: int|
                    0 <= j < self.dims[1] ==> #[trigger] gate[i].products@[j] == (
                        Query { column: self.weights@[i], rotation: j as usize },
                        Query { column: self.input, rotation: j as usize },
                    )
            }
    }

    /// `layout` is what `add_layers` writes for `layer` and `input` under this
    /// configuration.
    pub open spec fn is_layer_layout(
        self,
        layer: LayerParams,
        input: Seq<Option<Felt>>,
        layout: LayerLayout,
    ) -> bool {
        &&& layout.selector == self.nn_selector
        &&& layout.selector_row == 0
        &&& layout.biases@.len() == layer.biases.len()
        &&& forall|k: int|
            0 <= k < layer.biases.len() ==> #[trigger] layout.biases@[k] == (CellAssignment {
                column: self.bias,
                row: k as usize,
                value: Some(layer.biases@[k]),
                constant: true,
            })
        &&& layout.weights@.len() == layer.weights.len()
        &&& forall|k: int|
            0 <= k < layer.weights.len() ==> #[trigger] layout.weights@[k] == (CellAssignment {
                column: self.weights@[k % (self.dims[0] as int)],
                row: (k / (self.dims[0] as int)) as usize,
                value: Some(layer.weights@[k]),
                constant: true,
            })
        &&& layout.inputs@.len() == input.len()
        &&& forall|j: int|
            0 <= j < input.len() ==> #[trigger] layout.inputs@[j] == (CellAssignment {
                column: self.input,
                row: j as usize,
                value: input[j],
                constant: false,
            })
        &&& layout.outputs@.len() == self.dims[0]
        &&& forall|i: int|
            0 <= i < self.dims[0] ==> {
                &&& (#[trigger] layout.outputs@[i]).column == self.output
                &&& layout.outputs@[i].row == i
                &&& !layout.outputs@[i].constant
                &&& opt_val(layout.outputs@[i].value) == affine_output(
                    layer,
                    self.dims[0] as nat,
                    input,
                    i as nat,
                )
            }
    }

    /// A configuration, field by field.
    pub fn new(
        weights: Vec<usize>,
        bias: usize,
        input: usize,
        output: usize,
        dims: [usize; 2],
        nn_selector: usize,
    ) -> (r: ForwardLayerConfig)
        ensures
            r.weights@ == weights@,
            r.bias == bias,
            r.input == input,
            r.output == output,
            r.dims == dims,
            r.nn_selector == nn_selector,
    {
        ForwardLayerConfig { weights, bias, input, output, dims, nn_selector }
    }

    /// The constraints of the affine gate: for each output `i`,
    /// `sum_j weight_i[j] * input[j] - output[i] + bias[i]`, all taken at the
    /// rows below the selector's.
    pub fn affine_gate(&self) -> (gate: Vec<AffineConstraint>)
        requires
            self.dims[1] > 0 ==> self.dims[0] <= self.weights.len(),
        ensures
            self.is_affine_gate(gate@),
    {
        let out_dim = self.dims[0];
        let in_dim = self.dims[1];
        let mut gate: Vec<AffineConstraint> = Vec::new();
        for i in 0..out_dim
            invariant
                out_dim == self.dims[0],
                in_dim == self.dims[1],
                self.dims[1] > 0 ==> self.dims[0] <= self.weights.len(),
                gate@.len() == i,
                forall|k: int|
                    0 <= k < i ==> {
                        &&& (#[trigger] gate@[k]).selector == self.nn_selector
                        &&& gate@[k].output == Query { column: self.output, rotation: k as usize }
                        &&& gate@[k].bias == Query { column: self.bias, rotation: k as usize }
                        &&& gate@[k].products@.len() == self.dims[1]
                        &&& forall|j: int|
                            0 <= j < self.dims[1] ==> #[trigger] gate@[k].products@[j] == (
                                Query { column: self.weights@[k], rotation: j as usize },
                                Query { column: self.input, rotation: j as usize },
                            )
                    },
        {
            let mut products: Vec<(Query, Query)> = Vec::new();
            for j in 0..in_dim
                invariant
                    in_dim == self.dims[1],
                    in_dim > 0 ==> i < self.weights.len(),
                    products@.len() == j,
                    forall|m: int|
                        0 <= m < j ==> #[trigger] products@[m] == (
                            Query { column: self.weights@[i as int], rotation: m as usize },
                            Query { column: self.input, rotation: m as usize },
                        ),
            {
                products.push(
                    (
                        Query { column: self.weights[i], rotation: j },
                        Query { column: self.input, rotation: j },
                    ),
                );
            }
            gate.push(
                AffineConstraint {
                    selector: self.nn_selector,
                    output: Query { column: self.output, rotation: i },
                    bias: Query { column: self.bias, rotation: i },
                    products,
                },
            );
        }
        gate
    }
}

impl ForwardLayerChip {
    /// The configuration the chip lays out under.
    pub closed spec fn layer_config(self) -> ForwardLayerConfig {
        self.config
    }

    /// A chip for `config`.
    pub fn construct(config: ForwardLayerConfig) -> (chip: ForwardLayerChip)
        ensures
            chip.layer_config() == config,
    {
        ForwardLayerChip { config }
    }

    /// Configures a forward layer on the given columns and selector: the
    /// configuration, and the constraints of the affine gate that the
    /// selector turns on.
    pub fn configure(
        input: usize,
        weights: Vec<usize>,
        bias: usize,
        output: usize,
        dims: [usize; 2],
        nn_selector: usize,
    ) -> (r: (ForwardLayerConfig, Vec<AffineConstraint>))
        requires
            dims[1] > 0 ==> dims[0] <= weights.len(),
        ensures
            r.0.weights@ == weights@,
            r.0.bias == bias,
            r.0.input == input,
            r.0.output == output,
            r.0.dims == dims,
            r.0.nn_selector == nn_selector,
            r.0.is_affine_gate(r.1@),
    {
        let config = ForwardLayerConfig::new(weights, bias, input, output, dims, nn_selector);
        let gate = config.affine_gate();
        (config, gate)
    }

    /// The chip's configuration.
    pub fn config(&self) -> (r: &ForwardLayerConfig)
        ensures
            *r == self.layer_config(),
    {
        &self.config
    }

    /// Loads constant inputs into the input column, input `i` at row `i`.
    pub fn load_input_constant(&self, input: &[Felt]) -> (cells: Vec<CellAssignment>)
        ensures
            cells@.len() == input@.len(),
            forall|i: int|
                0 <= i < input@.len() ==> #[trigger] cells@[i] == (CellAssignment {
                    column: self.layer_config().input,
                    row: i as usize,
                    value: Some(input@[i]),
                    constant: true,
                }),
    {
        let mut cells: Vec<CellAssignment> = Vec::new();
        for i in 0..input.len()
            invariant
                cells@.len() == i,
                forall|k: int|
                    0 <= k < i ==> #[trigger] cells@[k] == (CellAssignment {
                        column: self.layer_config().input,
                        row: k as usize,
                        value: Some(input@[k]),
                        constant: true,
                    }),
        {
            cells.push(
                CellAssignment {
                    column: self.config.input,
                    row: i,
                    value: Some(input[i]),
                    constant: true,
                },
            );
        }
        cells
    }

    /// Loads witness inputs into the input column, input `i` at row `i`.
    pub fn load_input_advice(&self, input: &[Option<Felt>]) -> (cells: Vec<CellAssignment>)
        ensures
            cells@.len() == input@.len(),
            forall|i: int|
                0 <= i < input@.len() ==> #[trigger] cells@[i] == (CellAssignment {
                    column: self.layer_config().input,
                    row: i as usize,
                    value: input@[i],
                    constant: false,
                }),
    {
        let mut cells: Vec<CellAssignment> = Vec::new();
        for i in 0..input.len()
            invariant
                cells@.len() == i,
                forall|k: int|
                    0 <= k < i ==> #[trigger] cells@[k] == (CellAssignment {
                        column: self.layer_config().input,
                        row: k as usize,
                        value: input@[k],
                        constant: false,
                    }),
        {
            cells.push(
                CellAssignment { column: self.config.input, row: i, value: input[i], constant: false },
            );
        }
        cells
    }

    /// Loads `len` inputs from the instance column `instance`, starting at
    /// its row `starting_row`, into the input column, input `i` at row `i`.
    pub fn load_input_instance(&self, instance: usize, starting_row: usize, len: usize) -> (copies:
        Vec<InstanceCopy>)
        requires
            len > 0 ==> starting_row + (len - 1) <= usize::MAX,
        ensures
            copies@.len() == len,
            forall|i: int|
                0 <= i < len ==> #[trigger] copies@[i] == (InstanceCopy {
                    instance,
                    instance_row: (starting_row + i) as usize,
                    column: self.layer_config().input,
                    row: i as usize,
                }),
    {
        let mut copies: Vec<InstanceCopy> = Vec::new();
        for i in 0..len
            invariant
                len > 0 ==> starting_row + (len - 1) <= usize::MAX,
                copies@.len() == i,
                forall|k: int|
                    0 <= k < i ==> #[trigger] copies@[k] == (InstanceCopy {
                        instance,
                        instance_row: (starting_row + k) as usize,
                        column: self.layer_config().input,
                        row: k as usize,
                    }),
        {
            copies.push(
                InstanceCopy {
                    instance,
                    instance_row: starting_row + i,
                    column: self.config.input,
                    row: i,
                },
            );
        }
        copies
    }

    /// Lays out one affine layer: enables the selector at the region's first
    /// row, binds bias `k` as a constant at row `k` of the bias column and
    /// weight `k` as a constant at row `k / out_dim` of weight column
    /// `k % out_dim` (so weight column `i` holds the weights of output `i`,
    /// input `j`'s at row `j`), copies input `j` to row `j` of the input
    /// column, and writes output `i`, the field value of
    /// `sum_j weights[i + j * out_dim] * input[j] + biases[i]`, at row `i` of
    /// the output column.
    pub fn add_layers(&self, input: &[Option<Felt>], layer: &LayerParams) -> (layout: LayerLayout)
        requires
            self.layer_config().layer_fits(*layer, input@.len()),
        ensures
            self.layer_config().is_layer_layout(*layer, input@, layout),
    {
        let config = &self.config;
        let offset: usize = 0;

        let mut biases: Vec<CellAssignment> = Vec::new();
        for index in 0..layer.biases.len()
            invariant
                config == self.layer_config(),
                offset == 0,
                biases@.len() == index,
                forall|k: int|
                    0 <= k < index ==> #[trigger] biases@[k] == (CellAssignment {
                        column: config.bias,
                        row: k as usize,
                        value: Some(layer.biases@[k]),
                        constant: true,
                    }),
        {
            biases.push(
                CellAssignment {
                    column: config.bias,
                    row: offset + index,
                    value: Some(layer.biases[index]),
                    constant: true,
                },
            );
        }

        let out_dim = config.dims[0];
        let mut weights: Vec<CellAssignment> = Vec::new();
        for iii in 0..layer.weights.len()
            invariant
                config == self.layer_config(),
                offset == 0,
                out_dim == config.dims[0],
                config.layer_fits(*layer, input@.len()),
                weights@.len() == iii,
                forall|k: int|
                    0 <= k < iii ==> #[trigger] weights@[k] == (CellAssignment {
                        column: config.weights@[k % (out_dim as int)],
                        row: (k / (out_dim as int)) as usize,
                        value: Some(layer.weights@[k]),
                        constant: true,
                    }),
        {
            assert((iii as int) % (out_dim as int) < config.weights.len());
            let column = config.weights[iii % out_dim];
            weights.push(
                CellAssignment {
                    column,
                    row: offset + iii / out_dim,
                    value: Some(layer.weights[iii]),
                    constant: true,
                },
            );
        }

        let mut inputs: Vec<CellAssignment> = Vec::new();
        for j in 0..input.len()
            invariant
                config == self.layer_config(),
                offset == 0,
                inputs@.len() == j,
                forall|k: int|
                    0 <= k < j ==> #[trigger] inputs@[k] == (CellAssignment {
                        column: config.input,
                        row: k as usize,
                        value: input@[k],
                        constant: false,
                    }),
        {
            inputs.push(
                CellAssignment {
                    column: config.input,
                    row: offset + j,
                    value: input[j],
                    constant: false,
                },
            );
        }

        let mut outputs: Vec<CellAssignment> = Vec::new();
        for i in 0..out_dim
            invariant
                config == self.layer_config(),
                offset == 0,
                out_dim == config.dims[0],
                config.layer_fits(*layer, input@.len()),
                outputs@.len() == i,
                forall|k: int|
                    0 <= k < i ==> {
                        &&& (#[trigger] outputs@[k]).column == config.output
                        &&& outputs@[k].row == k
                        &&& !outputs@[k].constant
                        &&& opt_val(outputs@[k].value) == affine_output(
                            *layer,
                            out_dim as nat,
                            input@,
                            k as nat,
                        )
                    },
        {
            let mut o: Option<Felt> = Some(Felt::zero());
            for j in 0..input.len()
                invariant
                    i < out_dim,
                    out_dim * input@.len() <= layer.weights@.len(),
                    opt_val(o) == affine_acc(
                        layer.weights@,
                        out_dim as nat,
                        input@,
                        i as nat,
                        j as nat,
                    ),
            {
                assert(i + j * out_dim < out_dim * input@.len()) by (nonlinear_arith)
                    requires
                        i < out_dim,
                        j < input@.len(),
                ;
                assert(j * out_dim <= i + j * out_dim);
                assert(i + j * out_dim < layer.weights.len());
                let w = &layer.weights[i + j * out_dim];
                o = match (o, input[j]) {
                    (Some(a), Some(x)) => Some(a.add(&w.mul(&x))),
                    _ => None,
                };
            }
            let x = match o {
                Some(a) => Some(a.add(&layer.biases[i])),
                None => None,
            };
            outputs.push(
                CellAssignment { column: config.output, row: offset + i, value: x, constant: false },
            );
        }

        LayerLayout {
            selector: config.nn_selector,
            selector_row: offset,
            biases,
            weights,
            inputs,
            outputs,
        }
    }
}

/// The number a written cell holds; a cell whose value is unknown is read
/// as zero.
pub open spec fn cell_value(value: Option<Felt>) -> nat {
    match value {
        Some(x) => x.val(),
        None => 0,
    }
}

/// What a region holds at `(column, row)` once `cells` have been written in
/// order: the value of the last write to that cell, or zero where none was.
pub open spec fn region_value(cells: Seq<CellAssignment>, column: usize, row: int) -> nat
    decreases cells.len(),
{
    if cells.len() == 0 {
        0
    } else {
        let last = cells.last();
        if last.column == column && last.row == row {
            cell_value(last.value)
        } else {
            region_value(cells.drop_last(), column, row)
        }
    }
}

impl LayerLayout {
    /// The cells of the layout in the order in which they are written.
    pub open spec fn cells(self) -> Seq<CellAssignment> {
        self.biases@ + self.weights@ + self.inputs@ + self.outputs@
    }
}

/// The value a query reads when its constraint is evaluated at row `base`.
pub open spec fn query_value(cells: Seq<CellAssignment>, q: Query, base: int) -> nat {
    region_value(cells, q.column, base + q.rotation)
}

/// The sum of the first `n` products of a constraint, evaluated at row `base`.
pub open spec fn products_sum(
    cells: Seq<CellAssignment>,
    products: Seq<(Query, Query)>,
    base: int,
    n: nat,
) -> int
    decreases n,
{
    if n == 0 {
        0
    } else {
        products_sum(cells, products, base, (n - 1) as nat) + query_value(
            cells,
            products[n - 1].0,
            base,
        ) * query_value(cells, products[n - 1].1, base)
    }
}

/// The value of a constraint, without its selector, evaluated at row `base`
/// over the integers.
pub open spec fn constraint_value(c: AffineConstraint, cells: Seq<CellAssignment>, base: int) -> int {
    products_sum(cells, c.products@, base, c.products@.len()) + query_value(cells, c.bias, base)
        - query_value(cells, c.output, base)
}

/// The constraint is met at row `base`: its value is zero in the field.
pub open spec fn constraint_holds(c: AffineConstraint, cells: Seq<CellAssignment>, base: int) -> bool {
    constraint_value(c, cells, base) % (field_modulus() as int) == 0
}

/// The region holds at a cell what the last write to it wrote.
proof fn lemma_last_write(cells: Seq<CellAssignment>, k: int, column: usize, row: int)
    requires
        0 <= k < cells.len(),
        cells[k].column == column,
        cells[k].row == row,
        forall|m: int|
            k < m < cells.len() ==> !((#[trigger] cells[m]).column == column && cells[m].row
                == row),
    ensures
        region_value(cells, column, row) == cell_value(cells[k].value),
    decreases cells.len(),
{
    if k < cells.len() - 1 {
        let last = cells.len() - 1;
        assert(!(cells[last].column == column && cells[last].row == row));
        let rest = cells.drop_last();
        assert forall|m: int| k < m < rest.len() implies !((#[trigger] rest[m]).column == column
            && rest[m].row == row) by {
            assert(rest[m] == cells[m]);
        }
        lemma_last_write(rest, k, column, row);
    }
}

/// The sum over the first `n` inputs of the products that output `i` adds up.
spec fn weighted_sum(layer: LayerParams, out_dim: nat, input: Seq<Option<Felt>>, i: nat, n: nat) -> int
    decreases n,
{
    if n == 0 {
        0
    } else {
        weighted_sum(layer, out_dim, input, i, (n - 1) as nat) + layer.weights@[i + (n - 1)
            * out_dim].val() * cell_value(input[n - 1])
    }
}

/// What the lemmas below share: a layer over as many known inputs as its
/// input dimension, whose
/// layout and gate come from one configuration with distinct columns.
spec fn known_layer(
    config: ForwardLayerConfig,
    layer: LayerParams,
    input: Seq<Option<Felt>>,
    layout: LayerLayout,
) -> bool {
    &&& config.columns_distinct()
    &&& input.len() == config.dims[1]
    &&& config.layer_fits(layer, input.len())
    &&& forall|j: int| 0 <= j < input.len() ==> (#[trigger] input[j]) is Some
    &&& config.is_layer_layout(layer, input, layout)
}

proof fn lemma_cells_index(layout: LayerLayout, m: int)
    requires
        0 <= m < layout.cells().len(),
    ensures
        layout.cells().len() == layout.biases@.len() + layout.weights@.len() + layout.inputs@.len()
            + layout.outputs@.len(),
        m < layout.biases@.len() ==> layout.cells()[m] == layout.biases@[m],
        layout.biases@.len() <= m < layout.biases@.len() + layout.weights@.len()
            ==> layout.cells()[m] == layout.weights@[m - layout.biases@.len()],
        layout.biases@.len() + layout.weights@.len() <= m < layout.biases@.len()
            + layout.weights@.len() + layout.inputs@.len() ==> layout.cells()[m]
            == layout.inputs@[m - layout.biases@.len() - layout.weights@.len()],
        layout.biases@.len() + layout.weights@.len() + layout.inputs@.len() <= m
            ==> layout.cells()[m] == layout.outputs@[m - layout.biases@.len()
            - layout.weights@.len() - layout.inputs@.len()],
{
    let bw = layout.biases@ + layout.weights@;
    let bwi = bw + layout.inputs@;
    assert(layout.cells() == bwi + layout.outputs@);
    if m < bwi.len() {
        assert(layout.cells()[m] == bwi[m]);
        if m < bw.len() {
            assert(bwi[m] == bw[m]);
        }
    }
}

proof fn lemma_weight_column_index(config: ForwardLayerConfig, layer: LayerParams, input_len: nat, k: int)
    requires
        config.layer_fits(layer, input_len),
        0 <= k < layer.weights.len(),
    ensures
        config.dims[0] > 0,
        0 <= k % (config.dims[0] as int) < config.weights.len(),
        0 <= k / (config.dims[0] as int),
        k == (config.dims[0] as int) * (k / (config.dims[0] as int)) + k % (config.dims[0] as int),
{
    let d = config.dims[0] as int;
    assert(k % d < config.weights.len());
    lemma_fundamental_div_mod(k, d);
    lemma_mod_bound(k, d);
    lemma_div_pos_is_pos(k, d);
}

proof fn lemma_bias_cell(
    config: ForwardLayerConfig,
    layer: LayerParams,
    input: Seq<Option<Felt>>,
    layout: LayerLayout,
    i: int,
)
    requires
        known_layer(config, layer, input, layout),
        0 <= i < config.dims[0],
    ensures
        region_value(layout.cells(), config.bias, i) == layer.biases@[i].val(),
{
    let cells = layout.cells();
    let nb = layout.biases@.len() as int;
    let nw = layout.weights@.len() as int;
    let ni = layout.inputs@.len() as int;
    lemma_cells_index(layout, i);
    assert(layout.biases@[i].row == i);
    assert forall|m: int| i < m < cells.len() implies !((#[trigger] cells[m]).column
        == config.bias && cells[m].row == i) by {
        lemma_cells_index(layout, m);
        if m < nb {
            assert(cells[m].row == m);
        } else if m < nb + nw {
            let k = m - nb;
            lemma_weight_column_index(config, layer, input.len(), k);
            assert(layout.weights@[k].column == config.weights@[k % (config.dims[0] as int)]);
        } else if m < nb + nw + ni {
            assert(layout.inputs@[m - nb - nw].column == config.input);
        } else {
            assert(layout.outputs@[m - nb - nw - ni].column == config.output);
        }
    }
    lemma_last_write(cells, i, config.bias, i);
}

proof fn lemma_input_cell(
    config: ForwardLayerConfig,
    layer: LayerParams,
    input: Seq<Option<Felt>>,
    layout: LayerLayout,
    j: int,
)
    requires
        known_layer(config, layer, input, layout),
        0 <= j < input.len(),
    ensures
        region_value(layout.cells(), config.input, j) == cell_value(input[j]),
{
    let cells = layout.cells();
    let nb = layout.biases@.len() as int;
    let nw = layout.weights@.len() as int;
    let ni = layout.inputs@.len() as int;
    let k = nb + nw + j;
    lemma_cells_index(layout, k);
    assert(layout.inputs@[j].row == j);
    assert forall|m: int| k < m < cells.len() implies !((#[trigger] cells[m]).column
        == config.input && cells[m].row == j) by {
        lemma_cells_index(layout, m);
        if m < nb + nw + ni {
            assert(layout.inputs@[m - nb - nw].row == m - nb - nw);
        } else {
            assert(layout.outputs@[m - nb - nw - ni].column == config.output);
        }
    }
    lemma_last_write(cells, k, config.input, j);
}

proof fn lemma_output_cell(
    config: ForwardLayerConfig,
    layer: LayerParams,
    input: Seq<Option<Felt>>,
    layout: LayerLayout,
    i: int,
)
    requires
        known_layer(config, layer, input, layout),
        0 <= i < config.dims[0],
    ensures
        region_value(layout.cells(), config.output, i) == cell_value(layout.outputs@[i].value),
{
    let cells = layout.cells();
    let nb = layout.biases@.len() as int;
    let nw = layout.weights@.len() as int;
    let ni = layout.inputs@.len() as int;
    let k = nb + nw + ni + i;
    lemma_cells_index(layout, k);
    assert(layout.outputs@[i].row == i);
    assert forall|m: int| k < m < cells.len() implies !((#[trigger] cells[m]).column
        == config.output && cells[m].row == i) by {
        lemma_cells_index(layout, m);
        assert(layout.outputs@[m - nb - nw - ni].row == m - nb - nw - ni);
    }
    lemma_last_write(cells, k, config.output, i);
}

proof fn lemma_weight_cell(
    config: ForwardLayerConfig,
    layer: LayerParams,
    input: Seq<Option<Felt>>,
    layout: LayerLayout,
    i: int,
    j: int,
)
    requires
        known_layer(config, layer, input, layout),
        0 <= i < config.dims[0],
        0 <= j < config.dims[1],
    ensures
        region_value(layout.cells(), config.weights@[i], j) == layer.weights@[i + j
            * config.dims[0]].val(),
{
    let cells = layout.cells();
    let d = config.dims[0] as int;
    let e = config.dims[1] as int;
    let nb = layout.biases@.len() as int;
    let nw = layout.weights@.len() as int;
    let ni = layout.inputs@.len() as int;
    let w = i + j * d;
    assert(w < d * e) by (nonlinear_arith)
        requires
            w == i + j * d,
            0 <= i < d,
            0 <= j < e,
    ;
    assert(d * e == config.dims[0] * input.len());
    lemma_fundamental_div_mod_converse(w, d, j, i);
    let k = nb + w;
    lemma_cells_index(layout, k);
    assert(cells[k] == layout.weights@[w]);
    assert forall|m: int| k < m < cells.len() implies !((#[trigger] cells[m]).column
        == config.weights@[i] && cells[m].row == j) by {
        lemma_cells_index(layout, m);
        if m < nb + nw {
            let v = m - nb;
            lemma_weight_column_index(config, layer, input.len(), v);
            assert(layout.weights@[v].column == config.weights@[v % d]);
            assert(layout.weights@[v].row == (v / d) as usize);
            if cells[m].column == config.weights@[i] && cells[m].row == j {
                if v % d < i {
                    assert(config.weights@[v % d] != config.weights@[i]);
                } else if v % d > i {
                    assert(config.weights@[i] != config.weights@[v % d]);
                }
                assert(v % d == i);
                assert(v / d == j);
                assert(v == d * j + i);
                lemma_mul_is_commutative(d, j);
                assert(false);
            }
        } else if m < nb + nw + ni {
            assert(layout.inputs@[m - nb - nw].column == config.input);
        } else {
            assert(layout.outputs@[m - nb - nw - ni].column == config.output);
        }
    }
    lemma_last_write(cells, k, config.weights@[i], j);
}

proof fn lemma_products_sum(
    config: ForwardLayerConfig,
    layer: LayerParams,
    input: Seq<Option<Felt>>,
    layout: LayerLayout,
    gate: Seq<AffineConstraint>,
    i: int,
    n: nat,
)
    requires
        known_layer(config, layer, input, layout),
        config.is_affine_gate(gate),
        0 <= i < config.dims[0],
        n <= config.dims[1],
    ensures
        products_sum(layout.cells(), gate[i].products@, 0, n) == weighted_sum(
            layer,
            config.dims[0] as nat,
            input,
            i as nat,
            n,
        ),
    decreases n,
{
    if n > 0 {
        let j = n - 1;
        lemma_products_sum(config, layer, input, layout, gate, i, (n - 1) as nat);
        assert(gate[i].products@[j] == (
            Query { column: config.weights@[i], rotation: j as usize },
            Query { column: config.input, rotation: j as usize },
        ));
        lemma_weight_cell(config, layer, input, layout, i, j);
        lemma_input_cell(config, layer, input, layout, j);
    }
}

proof fn lemma_acc_known(
    layer: LayerParams,
    out_dim: nat,
    input: Seq<Option<Felt>>,
    i: nat,
    n: nat,
)
    requires
        n <= input.len(),
        forall|j: int| 0 <= j < input.len() ==> (#[trigger] input[j]) is Some,
    ensures
        affine_acc(layer.weights@, out_dim, input, i, n) == Some(
            (weighted_sum(layer, out_dim, input, i, n) % (field_modulus() as int)) as nat,
        ),
    decreases n,
{
    let p = field_modulus() as int;
    if n == 0 {
        lemma_small_mod(0, field_modulus());
    } else {
        lemma_acc_known(layer, out_dim, input, i, (n - 1) as nat);
        let s = weighted_sum(layer, out_dim, input, i, (n - 1) as nat);
        let x = input[n - 1]->0;
        assert(input[n - 1] is Some);
        let t = (layer.weights@[i + (n - 1) * out_dim].val() * x.val()) as int;
        lemma_add_mod_noop(s, t, p);
        lemma_mod_twice(s, p);
        lemma_mod_twice(t, p);
        lemma_mod_bound(s + t, p);
    }
}

/// Law of the chip: in the region that `add_layers` writes for a layer of
/// any shape, over as many known inputs as its input dimension and with
/// the layer's columns distinct, every constraint of the layer's affine
/// gate is met at the row where the layer enables its selector.
pub proof fn lemma_layout_satisfies_affine_gate(
    config: ForwardLayerConfig,
    layer: LayerParams,
    input: Seq<Option<Felt>>,
    layout: LayerLayout,
    gate: Seq<AffineConstraint>,
    i: int,
)
    requires
        config.columns_distinct(),
        input.len() == config.dims[1],
        config.layer_fits(layer, input.len()),
        forall|j: int| 0 <= j < input.len() ==> (#[trigger] input[j]) is Some,
        config.is_layer_layout(layer, input, layout),
        config.is_affine_gate(gate),
        0 <= i < config.dims[0],
    ensures
        gate[i].selector == layout.selector,
        constraint_holds(gate[i], layout.cells(), layout.selector_row as int),
{
    let p = field_modulus() as int;
    let cells = layout.cells();
    let d = config.dims[0] as nat;
    assert(known_layer(config, layer, input, layout));
    lemma_products_sum(config, layer, input, layout, gate, i, config.dims[1] as nat);
    lemma_bias_cell(config, layer, input, layout, i);
    lemma_output_cell(config, layer, input, layout, i);
    lemma_acc_known(layer, d, input, i as nat, input.len());
    let s = weighted_sum(layer, d, input, i as nat, input.len());
    let b = layer.biases@[i].val() as int;
    assert(cell_value(layout.outputs@[i].value) == ((s % p) + b) % p);
    lemma_add_mod_noop_right(s % p, b, p);
    lemma_add_mod_noop(s, b, p);
    lemma_mod_twice(s, p);
    assert(((s % p) + b) % p == (s + b) % p);
    let x = s + b;
    assert(constraint_value(gate[i], cells, 0) == x - x % p);
    lemma_fundamental_div_mod(x, p);
    lemma_mul_is_commutative(p, x / p);
    lemma_mod_multiples_basic(x / p, p);
}

proof fn lemma_acc_known_iff(layer: LayerParams, out_dim: nat, input: Seq<Option<Felt>>, i: nat, n: nat)
    requires
        n <= input.len(),
    ensures
        affine_acc(layer.weights@, out_dim, input, i, n) is Some <==> forall|j: int|
            0 <= j < n ==> (#[trigger] input[j]) is Some,
    decreases n,
{
    if n > 0 {
        lemma_acc_known_iff(layer, out_dim, input, i, (n - 1) as nat);
    }
}

/// Law of the layer: an output is known exactly when every input is known.
pub proof fn lemma_output_known_iff_inputs_known(
    layer: LayerParams,
    out_dim: nat,
    input: Seq<Option<Felt>>,
    i: nat,
)
    ensures
        affine_output(layer, out_dim, input, i) is Some <==> forall|j: int|
            0 <= j < input.len() ==> (#[trigger] input[j]) is Some,
{
    lemma_acc_known_iff(layer, out_dim, input, i, input.len());
}

} // verus!
