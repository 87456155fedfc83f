//! The HTTP API server of a node.

use vstd::prelude::*;

verus! {

/// HTTP API server for blockchain operations
pub struct HttpApi {}

impl HttpApi {
    /// Create a new HTTP API server
    pub fn new() -> (api: Self)
        ensures
            api == (HttpApi {}),
    {
        Self {}
    }
}

impl Default for HttpApi {
    fn default() -> (api: Self)
        ensures
            api == (HttpApi {}),
    {
        Self::new()
    }
}

} // verus!
