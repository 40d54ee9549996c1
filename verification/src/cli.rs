//! Plain command data the argument layer hands the library: which token
//! operation to perform, and which puzzle an input command works on.

use vstd::prelude::*;

verus! {

/// A session-token command: store a new token, or show the stored one.
#[derive(Debug)]
pub enum TokenCmd {
    Store { token: String },
    Show,
}

/// Arguments of an input command: whether to refetch over the cache, and an
/// optional puzzle selection (a year is only honoured together with a day).
#[derive(Debug, Clone, Copy, PartialEq, Eq, Structural)]
pub struct InputArgs {
    pub force: bool,
    pub year: Option<u32>,
    pub day: Option<u32>,
}

} // verus!
