//! A flag that a host sets to stop a command that is under way.

use std::sync::atomic::AtomicBool;
use std::sync::Arc;
use vstd::prelude::*;

verus! {

/// A token that a host and a command share. Once it is cancelled it stays so.
#[derive(Debug)]
pub struct FastFsCancellationToken {
    pub state: Arc<AtomicBool>,
}

impl FastFsCancellationToken {
    /// The flag that the token stands for; what is done through the one is seen through the other.
    pub fn state(&self) -> (result: Arc<AtomicBool>)
        ensures
            result == self.state,
    {
        Arc::clone(&self.state)
    }
}

} // verus!
