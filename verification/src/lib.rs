//! An affine neural-network layer laid out as a halo2 chip over the
//! Pallas base field: the arithmetic of the layer, where each value of
//! the layer is placed in the circuit's region, and the affine gate that
//! the placed values must satisfy.
pub mod field;
pub mod nn_chip;
