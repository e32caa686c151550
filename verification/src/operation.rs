//! The kinds of request a caller can make of the connection.

use vstd::prelude::*;

verus! {

/// What a caller asks the connection to do: read a value, change one,
/// or end the session.
#[derive(Hash, Eq, PartialEq, Debug, Clone, Structural)]
pub enum Operation {
    Query,
    SetValue,
    Stop,
}

} // verus!
