//! Library behind a terminal dashboard for an intrusion-prevention daemon.
//!
//! The library holds the verified core: turning the control tool's text
//! output into a typed snapshot of jails and banned addresses, resolving
//! ban-expiry times, deriving the filtered and sorted view of one jail's
//! entries, and the state machine that maps input events to state changes
//! and commands.  Process invocation and rendering live outside, in the
//! binary around this crate.

pub mod addr;
pub mod clock;
pub mod controller;
pub mod durations;
pub mod expiry;
pub mod fetch;
pub mod model;
pub mod parse;
pub mod text;
pub mod view;
