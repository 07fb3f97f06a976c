//! Arithmetic quiz equations whose value is fixed before they are built.
//!
//! An equation is a tree of binary operators over exact decimal leaves. The
//! builder starts from the value the equation must have and inverts one
//! operator per level to obtain the values of the two operands.

pub mod answer;
pub mod decimal;
pub mod equation;
pub mod number_pane;
pub mod progress;
pub mod quiz;
pub mod random;
