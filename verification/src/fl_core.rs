//! The federated-learning client: the part of it that needs no arithmetic
//! on weights.

use vstd::prelude::*;
use vstd::string::StringExecFns;

verus! {

#[derive(Clone, Copy, Debug, PartialEq, Eq, Structural)]
pub enum FlError {
    /// A training round could not be computed.
    ComputeError,
}

/// A client that trains on the data under one local path.
pub struct FlClientCore {
    local_data_path: String,
}

impl FlClientCore {
    /// The path that this client was made for.
    pub closed spec fn data_path(self) -> Seq<char> {
        self.local_data_path@
    }

    /// A client for the data under `data_path`.
    pub fn new(data_path: &str) -> (core: Self)
        ensures
            core.data_path() == data_path@,
    {
        FlClientCore { local_data_path: String::from_str(data_path) }
    }

    /// The path that this client was made for.
    pub fn local_data_path(&self) -> (path: &str)
        ensures
            path@ == self.data_path(),
    {
        self.local_data_path.as_str()
    }
}

} // verus!
