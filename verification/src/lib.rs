//! Arithmetic-circuit gadgets ("chips") for elliptic-curve operations:
//! complete point addition, incomplete point addition, and the per-row
//! gate of windowed fixed-base scalar multiplication.
//!
//! Each chip follows the same two-phase pattern: `configure` registers
//! wires and constraint polynomials with the constraint system once, and
//! `assign` computes witness values and places them into a region's rows.
//! Conditional logic (doubling vs. generic addition, identity handling)
//! is encoded branchlessly through field-inverse indicators, because
//! circuit constraints cannot branch.

pub mod backend;
pub mod ecc;
pub mod field;
