//! A model of a cross-process named-event synchronization primitive.
//!
//! An OS session holds named kernel event objects: two-state
//! (signalled / non-signalled) auto-reset flags that independent processes
//! find by name. A process refers to an object through a process-local
//! handle; distinct handles may refer to the same shared object. This crate
//! verifies the lifecycle and signalling rules of that primitive over an
//! explicit session state: creation is idempotent by name, opening requires a
//! prior creation, a signal is consumed by exactly one successful poll, and
//! each handle is released exactly once.

pub mod event;
pub mod laws;
pub mod session;
