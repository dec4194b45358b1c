//! What the foreign-function boundary reports.

use vstd::prelude::*;

verus! {

/// The one error of the boundary: a vault error, flattened to its message.
#[derive(Clone, Debug)]
pub enum MobileError {
    VaultError { msg: String },
}

} // verus!
