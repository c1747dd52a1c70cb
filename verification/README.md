# halo2_machinelearning

An affine neural-network layer as a halo2 chip over the Pallas base field.

- `src/field.rs`: `Felt`, a field element held as its canonical bytes, with
  its arithmetic done by `pasta_curves` (through `halo2_proofs`), and the
  conversions between signed integers and field elements.
- `src/nn_chip.rs`: the layer's configuration, the constraints of its affine
  gate, and the layout of one layer (which value goes to which cell), with
  the proof that a layer's layout, of any shape, meets its gate.
- `app/lib.rs`: the halo2 circuit side: columns, selector, `Chip` impl and the
  region writes that carry out the layouts.
