//! Differential testing of tensor frameworks: a small SSA tensor language, the
//! shape rules that make every generated program legal, the driver that hands
//! one program to several frameworks, and the comparison of what they return.

pub mod autograd;
pub mod burn_eval;
pub mod candle;
pub mod config;
pub mod driver;
pub mod float;
pub mod matrix;
pub mod ops;
pub mod oracle;
pub mod program;
pub mod resolve;
pub mod selection;
pub mod shape;
pub mod target;
pub mod text;

