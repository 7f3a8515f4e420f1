//! A symbolic interpreter for a small SSA-based intermediate language of
//! the QBE family.
//!
//! Programs are executed on purely symbolic inputs: every register holds an
//! SMT bit-vector, memory is a symbolic byte array, and conditional jumps
//! consult a solver to prune infeasible paths. The solver itself (Z3) is
//! reached through a small set of trusted wrappers; everything the
//! interpreter decides — widths, coercions, layout addresses, frame and
//! path bookkeeping — is verified.
pub mod error;
pub mod types;
pub mod value;
pub mod memory;
pub mod util;
pub mod state;
pub mod interp;
