//! A textual expression preprocessor for a calculator.
//!
//! An input line is classified as a raw expression, a variable definition or a
//! function definition; stored functions are then expanded at their call sites and
//! stored variables replaced by their rendered values, so that what is left is a
//! bare arithmetic string for a numeric evaluator.
pub mod expression;
pub mod session;
pub mod text;
