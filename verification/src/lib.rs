//! A small command language that drives a pen-plotter turtle.
//!
//! The crate holds the interpreter core: the statement chainer and parser,
//! the arithmetic expression planner, the command table, the variable store,
//! the turtle state machine and the session that runs programs. Numbers are
//! carried as IEEE 754 bit patterns; arithmetic on them is done by the host,
//! which the session asks one operation at a time.

pub mod arithmetic;
pub mod color;
pub mod commands;
pub mod diagnostics;
pub mod execution;
pub mod meaning;
pub mod number;
pub mod parsing;
pub mod turtle;
