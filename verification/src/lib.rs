//! A cross-platform process-execution engine.
//!
//! The library is the decision core of the engine: it tracks every spawned
//! process under an opaque handle, models the per-process output stream up to
//! its final termination event, normalizes the `PATH` environment variable,
//! and resolves command names to candidate executable paths.  Every operation
//! that touches the operating system (creating a process, writing to a pipe,
//! delivering a signal, probing the file system) is performed by the host
//! around this library, which feeds the outcomes back in as plain values.

pub mod bytes;
pub mod error;
pub mod events;
pub mod locator;
pub mod path_resolver;
pub mod registry;
pub mod spawn;
pub mod termination;
