//! Decision core of an asynchronous, cancellable OS-signal subscription
//! subsystem, and the boundary of a domain-name-to-ASCII conversion.

pub mod domain;
pub mod error;
pub mod laws;
pub mod model;
pub mod signal;
pub mod table;
