//! The two ways in which a request to the engine can be refused.

use vstd::prelude::*;

verus! {

#[derive(Clone, Copy, Debug, PartialEq, Eq, Structural)]
pub enum EngineError {
    /// The tiles handed over do not form a rectangular grid.
    InvalidLayout,
    /// The handle was never issued by the table it is used on.
    InvalidHandle,
}

} // verus!
