//! Embeddable sandboxed script-execution runtime core.
//!
//! The core is the isolate engine: an op-dispatch protocol that routes
//! numbered requests from script code to native handlers, a resource table
//! of open handle-addressable objects, and an event loop that bridges
//! synchronous single-threaded script execution with asynchronous work
//! completing on a worker pool. Completions are consumed one at a time and
//! delivered into the script context in strict run-to-completion turns.

pub mod control;
pub mod dispatch;
pub mod errors;
pub mod isolate;
pub mod pending;
pub mod resources;
pub mod uri_util;
