//! The plain parts of runtime values.

use malachite::Rational;
use vstd::prelude::*;

verus! {

/// A truth value.
#[derive(Debug)]
pub struct Boolean {
    /// The truth value itself.
    pub value: bool,
}

/// An exact rational number.
#[derive(Debug)]
pub struct Number {
    /// The number itself.
    pub value: Rational,
}

} // verus!
