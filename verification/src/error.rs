//! The errors the engine reports synchronously to its clients.

use crate::name::Name;
use vstd::prelude::*;

verus! {

/// What went wrong with a client call.
#[derive(Debug)]
pub enum Error {
    /// An update was addressed to an input that was never created.
    InputNotExists(Name),
    /// A query was addressed to a trace that was never created.
    TraceNotExist(Name),
    /// The worker thread pool could not be created.
    FailedToStartWorkers(String),
    /// Creation of an input whose name is already in use.
    InputAlreadyExists(Name),
    /// Creation of a trace whose name is already in use.
    TraceAlreadyExists(Name),
}

} // verus!
