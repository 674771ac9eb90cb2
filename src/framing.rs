//! The framing adapter: each inbound delivery is taken whole as one chunk,
//! and an outbound buffer is copied verbatim, with no header or terminator.
use bytes::BufMut;
use bytes::BytesMut;
use vstd::prelude::*;

verus! {

#[verifier::external_type_specification]
#[verifier::external_body]
pub struct ExBytesMut(BytesMut);

/// The bytes that a `BytesMut` holds, in order.
pub uninterp spec fn buffer_bytes(b: BytesMut) -> Seq<u8>;

/// Relies on BytesMut::is_empty: true exactly when the buffer holds no byte.
#[verifier::external_body]
fn buffer_is_empty(b: &BytesMut) -> (r: bool)
    ensures
        r == (buffer_bytes(*b).len() == 0),
{
    b.is_empty()
}

/// Relies on `<[u8]>::to_vec` through BytesMut's `Deref`: a copy of the bytes.
#[verifier::external_body]
fn buffer_to_vec(b: &BytesMut) -> (r: Vec<u8>)
    ensures
        r@ == buffer_bytes(*b),
{
    b.to_vec()
}

/// Relies on BytesMut::clear: afterwards the buffer holds no byte.
#[verifier::external_body]
fn buffer_clear(b: &mut BytesMut)
    ensures
        buffer_bytes(*final(b)).len() == 0,
{
    b.clear()
}

/// Relies on BytesMut::reserve: it changes the capacity, never the bytes.
/// It panics when the new capacity overflows, which the bound rules out.
#[verifier::external_body]
fn buffer_reserve(b: &mut BytesMut, additional: usize)
    requires
        buffer_bytes(*old(b)).len() + additional <= isize::MAX,
    ensures
        buffer_bytes(*final(b)) == buffer_bytes(*old(b)),
{
    b.reserve(additional)
}

/// Relies on BytesMut's `BufMut::put_slice`: the bytes of `src` are appended.
/// It panics past `isize::MAX` bytes, which the bound rules out.
#[verifier::external_body]
fn buffer_put_slice(b: &mut BytesMut, src: &[u8])
    requires
        buffer_bytes(*old(b)).len() + src@.len() <= isize::MAX,
    ensures
        buffer_bytes(*final(b)) == buffer_bytes(*old(b)) + src@,
{
    b.put_slice(src)
}

/// The codec between raw transport bytes and comparison chunks.
pub struct SerialTester;

impl SerialTester {
    /// Takes everything accumulated in `acc` as one chunk and clears it; on
    /// an empty buffer there is no chunk yet.
    pub fn decode(&mut self, acc: &mut BytesMut) -> (r: Option<Vec<u8>>)
        ensures
            buffer_bytes(*old(acc)).len() == 0 ==> r is None && buffer_bytes(*final(acc))
                == buffer_bytes(*old(acc)),
            buffer_bytes(*old(acc)).len() > 0 ==> r is Some && r->0@ == buffer_bytes(*old(acc))
                && buffer_bytes(*final(acc)).len() == 0,
    {
        if !buffer_is_empty(acc) {
            let res = buffer_to_vec(acc);
            buffer_clear(acc);
            Some(res)
        } else {
            None
        }
    }

    /// Appends `item` verbatim to `buf`.
    pub fn encode(&mut self, item: Vec<u8>, buf: &mut BytesMut)
        requires
            buffer_bytes(*old(buf)).len() + item@.len() <= isize::MAX,
        ensures
            buffer_bytes(*final(buf)) == buffer_bytes(*old(buf)) + item@,
    {
        buffer_reserve(buf, item.len());
        buffer_put_slice(buf, item.as_slice());
    }
}

} // verus!
