//! Coordination service core for distributing a shared queue of test
//! specifications across the parallel worker instances of one CI build.
//!
//! The library holds the in-memory registry of builds and instances, the
//! dequeue-and-assign protocol, master election, completion tracking, and
//! time-based eviction of stale builds. Transport, configuration loading and
//! JSON encoding live outside the library.

pub mod clock;
pub mod identity;
pub mod laws;
pub mod lemmas;
pub mod model;
pub mod registry;
