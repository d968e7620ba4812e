//! The key buffer: a small vector that stays inline for short keys.

use vstd::prelude::*;
use tinyvec::TinyVec;

verus! {

/// Number of key bytes that are stored inline before the buffer moves to the heap.
pub const ARRAY_VEC_SIZE: usize = 64;

/// A key or key candidate, held in a `TinyVec` with `ARRAY_VEC_SIZE` inline slots.
///
/// The buffer is opaque to the verifier; `key_bytes` names its contents and the
/// functions below are the only code that touches it.
#[verifier::external_body]
#[derive(Debug, PartialEq, Eq, Hash)]
pub struct ArrVec {
    bytes: TinyVec<[u8; ARRAY_VEC_SIZE]>,
}

/// The bytes that a key buffer holds, in order.
pub uninterp spec fn key_bytes(key: ArrVec) -> Seq<u8>;

impl View for ArrVec {
    type V = Seq<u8>;

    open spec fn view(&self) -> Seq<u8> {
        key_bytes(*self)
    }
}

/// `TinyVec::new`: the new buffer is empty.
#[verifier::external_body]
fn buffer_new() -> (key: ArrVec)
    ensures
        key_bytes(key) == Seq::<u8>::empty(),
{
    ArrVec { bytes: TinyVec::new() }
}

/// `TinyVec::push`: the byte is appended at the end, whether the buffer is
/// inline or has moved to the heap; the bytes before it stay.
#[verifier::external_body]
fn buffer_push(key: &mut ArrVec, byte: u8)
    ensures
        key_bytes(*final(key)) == key_bytes(*old(key)).push(byte),
{
    key.bytes.push(byte)
}

/// `TinyVec::as_slice`: the slice holds exactly the buffer's bytes, in order.
#[verifier::external_body]
fn buffer_as_slice(key: &ArrVec) -> (bytes: &[u8])
    ensures
        bytes@ == key_bytes(*key),
{
    key.bytes.as_slice()
}

impl ArrVec {
    /// An empty key buffer.
    pub fn new() -> (key: ArrVec)
        ensures
            key@ == Seq::<u8>::empty(),
    {
        buffer_new()
    }

    /// Appends one byte.
    pub fn push(&mut self, byte: u8)
        ensures
            final(self)@ == old(self)@.push(byte),
    {
        buffer_push(self, byte)
    }

    /// The key's bytes.
    pub fn as_slice(&self) -> (bytes: &[u8])
        ensures
            bytes@ == self@,
    {
        buffer_as_slice(self)
    }

    /// Number of bytes in the key.
    pub fn len(&self) -> (n: usize)
        ensures
            n == self@.len(),
    {
        buffer_as_slice(self).len()
    }

    /// A key buffer holding a copy of `bytes`.
    pub fn from_slice(bytes: &[u8]) -> (key: ArrVec)
        ensures
            key@ == bytes@,
    {
        let mut key = buffer_new();
        let mut i: usize = 0;
        while i < bytes.len()
            invariant
                i <= bytes@.len(),
                key@ == bytes@.take(i as int),
            decreases bytes@.len() - i,
        {
            buffer_push(&mut key, bytes[i]);
            assert(bytes@.take(i as int).push(bytes@[i as int]) =~= bytes@.take(i + 1));
            i += 1;
        }
        assert(bytes@.take(bytes@.len() as int) =~= bytes@);
        key
    }

    /// Whether the key holds exactly the bytes of `other`.
    pub fn holds(&self, other: &[u8]) -> (same: bool)
        ensures
            same == (self@ == other@),
    {
        let mine = buffer_as_slice(self);
        if mine.len() != other.len() {
            return false;
        }
        let mut i: usize = 0;
        while i < mine.len()
            invariant
                i <= mine@.len(),
                mine@ == self@,
                mine@.len() == other@.len(),
                forall|j: int| 0 <= j < i ==> mine@[j] == other@[j],
            decreases mine@.len() - i,
        {
            if mine[i] != other[i] {
                return false;
            }
            i += 1;
        }
        assert(mine@ =~= other@);
        true
    }
}

} // verus!
