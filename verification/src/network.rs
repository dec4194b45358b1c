//! The upload channel: the endpoint it is bound to.

use vstd::prelude::*;
use vstd::string::StringExecFns;

verus! {

#[derive(Clone, Copy, Debug, PartialEq, Eq, Structural)]
pub enum NetworkError {
    /// The endpoint could not be reached.
    ConnectionFailed,
}

/// A channel to one endpoint.
pub struct SecureChannel {
    endpoint: String,
}

impl SecureChannel {
    /// The endpoint that this channel was made for.
    pub closed spec fn target(self) -> Seq<char> {
        self.endpoint@
    }

    /// A channel to `endpoint`.
    pub fn new(endpoint: &str) -> (channel: Self)
        ensures
            channel.target() == endpoint@,
    {
        SecureChannel { endpoint: String::from_str(endpoint) }
    }

    /// The endpoint that this channel was made for.
    pub fn endpoint(&self) -> (endpoint: &str)
        ensures
            endpoint@ == self.target(),
    {
        self.endpoint.as_str()
    }
}

} // verus!
