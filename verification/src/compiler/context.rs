//! What one compilation shares between its passes.

use super::interner::Interner;
use vstd::prelude::*;

verus! {

/// The state of one compilation.
pub struct Context {
    /// The table of the names that the program uses.
    pub symbol_interner: Interner,
}

impl Context {
    /// A context whose tables are empty.
    pub fn new() -> (cx: Context)
        ensures
            cx.symbol_interner.wf(),
            cx.symbol_interner.values().len() == 0,
    {
        Context { symbol_interner: Interner::new() }
    }
}

impl Default for Context {
    fn default() -> (cx: Context)
        ensures
            cx.symbol_interner.wf(),
            cx.symbol_interner.values().len() == 0,
    {
        Context::new()
    }
}

} // verus!
