//! Effects: background work a component asks for.  This build runs none.
use vstd::prelude::*;

verus! {

/// An effect a component asks to run.
#[derive(Debug, Clone, Copy, PartialEq, Eq, Structural)]
pub struct Effect;

impl Effect {
    /// No effects.
    pub fn none() -> (v: Vec<Effect>)
        ensures
            v@.len() == 0,
    {
        Vec::new()
    }
}

} // verus!
