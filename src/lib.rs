//! Expense tracking through a short chat conversation: a versioned schema
//! migration plan, reference data with validated expense commits, and a
//! per-conversation draft editing state machine.

pub mod text;
pub mod clock;
pub mod schema;
pub mod model;
pub mod bot;
