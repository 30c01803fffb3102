//! Verified core of a proxy for master/replica/sentinel Redis deployments.
//!
//! The proxy asks a sentinel for the current master of a named cache and
//! forwards each client connection there. It remembers every cache it has seen
//! so that it can still find the master when the sentinel cannot be reached.
//! This crate holds the decisions of that proxy; the network work around them
//! (connecting, querying, copying bytes) is done by its caller.

pub mod addr;
pub mod text;
pub mod info;
pub mod redis_tools;
pub mod state;
pub mod transfer;
