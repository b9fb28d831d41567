//! The values that a program computes with.

pub mod value;
