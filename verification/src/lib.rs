//! A harness that judges snippets of source code by what a toolchain makes
//! of them, and the small sample routines that such snippets hold.
//!
//! A fixture is a snippet with a manifest that declares what is expected of
//! it: that it compiles, that it fails to compile, that it draws certain
//! warnings, or that certain tests end in a certain way. The harness reads
//! the manifest ([`manifest`], [`fixture`]), reads what the toolchain printed
//! ([`parser`], [`json`]), compares the two ([`rules`], [`evaluator`]) and
//! sums the verdicts up ([`order`], [`report`], [`describe`], [`render`]).
//! Running the toolchain is left to the caller.
//!
//! Every function has a contract over the views of its arguments, and
//! [`theorems`] holds what follows from the rules for every judgment.
//!
//! [`samples`] and [`stack`] hold the sample routines.

pub mod describe;
pub mod evaluator;
pub mod fixture;
pub mod json;
pub mod manifest;
pub mod model;
pub mod order;
pub mod parser;
pub mod render;
pub mod report;
pub mod rules;
pub mod samples;
pub mod scan;
pub mod stack;
pub mod text;
pub mod theorems;

pub use samples::{
    calculate, calculate_factorial, fibonacci, function_with_unused_param, get_constant,
    safe_divide,
};
pub use stack::Stack;
