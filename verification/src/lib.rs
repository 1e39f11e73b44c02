//! An incremental progress display for an integer-factoring run.
//!
//! An external factoring engine reports discovery events: a number was split
//! into factors, a pending factor turned out prime, or composite. This crate
//! keeps a running model of what is known so far (confirmed primes, composite
//! expansions, factors still awaiting a primality verdict) and renders that
//! model as a terminal frame in one of two modes, succinct or historical.
//!
//! The crate holds no I/O: callers feed it events as plain values and write
//! the returned frame bytes to the terminal themselves.

pub mod digits;
pub mod order;
pub mod laws;
pub mod style;
pub mod render;
pub mod tracker;

pub use digits::Digits;
pub use tracker::Child;
pub use tracker::Entry;
pub use tracker::FactorClass;
pub use tracker::ProtocolError;
pub use tracker::VerboseFactoring;
