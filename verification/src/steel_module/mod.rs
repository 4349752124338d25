//! Steel module declarations and the rules applied to them.
pub mod state;
pub mod rules;
