//! A command-line reverse polish notation calculator.
//!
//! The calculator keeps a stack of IEEE-754 binary64 numbers, carried
//! throughout as their 64-bit patterns.  One line of input is parsed into a
//! sequence of commands, and each command is applied to the stack in order.

pub mod rpncalc;
