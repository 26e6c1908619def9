//! The request to shut down.

use vstd::prelude::*;

verus! {

/// A request to shut down, as the interrupt handler sends it.
#[derive(Debug)]
pub struct Shutdown(());

impl Shutdown {
    pub fn new() -> Self {
        Shutdown(())
    }
}

} // verus!
