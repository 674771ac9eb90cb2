//! Serial-link integrity tester: a reference payload is sent out over a
//! byte transport, and the bytes that come back are compared with it position
//! by position, under a deadline. A run reports its statistics however it
//! ends: at the end of the stream, at the deadline, or on a fatal error.
use vstd::prelude::*;

pub mod config;
pub mod engine;
pub mod framing;
pub mod payload;

verus! {

} // verus!
