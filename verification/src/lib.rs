//! Core of a spoiler-hiding chat service.
//!
//! Users submit content that is stored behind an opaque identifier and
//! revealed to recipients on demand, either at once or after a second
//! confirmation tap, until the entry expires.
//!
//! The crate holds the service's registry: per-user creation sessions,
//! staged content awaiting a title, the finished-spoiler table joined with a
//! time-ordered expiry index, and the double-tap confirmation gate.  Every
//! operation is an in-memory step with a contract; the surrounding process
//! supplies the clock, the transport, and a lock around the whole registry.

pub mod expiry;
pub mod spoiler;
pub mod state;
pub mod strings;
pub mod util;
