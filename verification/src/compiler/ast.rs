//! The plain parts of the expression tree.

use super::interner::Interned;
use vstd::prelude::*;

verus! {

/// A name in an expression, by the handle of its interned text.
#[derive(Debug)]
pub struct Identifier {
    /// The handle of the name.
    pub name: Interned,
}

} // verus!
