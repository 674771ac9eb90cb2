//! The reference payload: random bytes that are both sent and used as the
//! expectation for what comes back.
use rand::rngs::ThreadRng;
use rand::RngCore;
use vstd::prelude::*;

verus! {

/// The payload length used when none is given.
pub const DEFAULT_PAYLOAD_LEN: usize = 20000;

#[verifier::external_type_specification]
#[verifier::external_body]
pub struct ExThreadRng(ThreadRng);

/// Relies on rand::thread_rng for the thread's generator, seeded by the
/// system; nothing is promised of it. It panics only if the system's random
/// source cannot seed it.
pub assume_specification[ rand::thread_rng ]() -> ThreadRng;

/// Relies on ThreadRng's `RngCore::fill_bytes`: every byte of `buf` is
/// overwritten with a random one and the length stays; nothing is known of
/// the values.
#[verifier::external_body]
fn fill_random(rng: &mut ThreadRng, buf: &mut Vec<u8>)
    ensures
        final(buf)@.len() == old(buf)@.len(),
{
    rng.fill_bytes(buf.as_mut_slice())
}

/// A fresh reference payload of exactly `len` random bytes; empty for zero.
pub fn generate_payload(len: usize) -> (r: Vec<u8>)
    ensures
        r@.len() == len,
{
    let mut buf: Vec<u8> = Vec::with_capacity(len);
    let mut i: usize = 0;
    while i < len
        invariant
            i <= len,
            buf@.len() == i,
        decreases len - i,
    {
        buf.push(0u8);
        i = i + 1;
    }
    let mut rng = rand::thread_rng();
    fill_random(&mut rng, &mut buf);
    buf
}

} // verus!
