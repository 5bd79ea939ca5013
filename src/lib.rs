//! Force composition for simulated bodies and the decision rules of a two-body
//! orbit solver.

pub mod forces;
pub mod orbit;
