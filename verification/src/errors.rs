//! Error taxonomy of the runtime core.
//!
//! Dispatch-level and resource-level errors are recoverable: they are
//! surfaced to script as ordinary error response values and never affect
//! process or table state. Only an engine-fatal failure terminates the loop.

use vstd::prelude::*;

verus! {

/// Invalid startup configuration; fatal before an isolate exists.
#[derive(Clone, Copy, PartialEq, Eq, Structural, Debug)]
pub enum ConfigError {
    /// The worker pool must have at least one thread.
    NoWorkerThreads,
}

/// A request that the dispatcher itself rejects before any handler runs.
#[derive(Clone, Copy, PartialEq, Eq, Structural, Debug)]
pub enum DispatchError {
    /// No handler is registered under the requested op id.
    UnknownOp,
    /// The control buffer is structurally invalid.
    MalformedRequest,
}

/// A resource-table error, surfaced to script as a recoverable value.
#[derive(Clone, Copy, PartialEq, Eq, Structural, Debug)]
pub enum ResourceError {
    /// The id was never allocated.
    NotFound,
    /// The id was allocated once but its resource is no longer open.
    AlreadyClosed,
    /// The op's resource was closed while the work was in flight.
    Cancelled,
}

/// A failure of synchronous script execution, captured as a typed result
/// so that the caller decides whether to treat it as fatal.
#[derive(Clone, Copy, PartialEq, Eq, Structural, Debug)]
pub enum ExecError {
    /// The engine could not compile the source.
    CompileFailed,
    /// The compiled unit threw while running.
    ScriptFailed,
}

/// An uncaught top-level script exception or unrecoverable native fault;
/// the only error that terminates the event loop.
#[derive(Clone, Copy, PartialEq, Eq, Structural, Debug)]
pub enum FatalError {
    EngineFatal,
}

} // verus!
