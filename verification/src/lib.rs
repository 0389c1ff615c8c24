//! Bridge between a least-squares solver's evaluation callback and a
//! user-supplied cost function.
//!
//! The solver hands over flat buffers: one per parameter block, one for the
//! residuals and, for every parameter block whose derivatives it wants, one
//! that holds the Jacobian of that block row by row. This crate turns those
//! buffers into the nested, optional views a cost function works on, calls the
//! cost function, and reports its verdict as the solver's integer status.
//! Nothing is copied: every view borrows from the buffer it shows, so what the
//! cost function writes is what the solver finds in its buffers afterwards.

pub mod cost;
pub mod derivative;
pub mod jacobian;
pub mod layout;
pub mod trampoline;
pub mod types;
