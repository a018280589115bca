//! The decision core of a packet reflector.
//!
//! A reflector captures link-layer frames on several interfaces, routes each parsed packet to the
//! handlers registered for it, and lets them re-emit it elsewhere. Everything here is pure state
//! and decisions, proved against the contracts written on it: what the kernel or the network
//! reports comes in as plain values, and what has to be done next goes out as plain values. Times
//! are nanoseconds on a monotonic clock, counted from an origin the caller picks.

pub mod arena;
pub mod capture;
pub mod counters;
pub mod dispatch;
pub mod errno;
pub mod interface;
pub mod net;
pub mod reflector;
pub mod text;
