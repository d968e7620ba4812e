//! Key recovery for repeating-key XOR ciphers.
//!
//! The crate estimates the key length of a ciphertext from its index of
//! coincidence and recovers candidate keys by frequency analysis or from a
//! known fragment of plaintext (a crib).
//!
//! - [`kl_anal`] estimates the key length; [`residue`] holds the frequency
//!   table that it shares with the frequency attack.
//! - [`key_guess`] holds the three strategies that recover keys, and
//!   [`key_buffer`] the buffer in which a key is kept.
//! - [`session`] runs one analysis from the ciphertext to its keys, and
//!   [`render`] renders the keys for a report.
//! - [`key_laws`] and [`cipher_laws`] prove what holds of the results for
//!   every ciphertext.
//!
//! Indices of coincidence are whole numbers of parts per million throughout.

use vstd::prelude::*;

pub mod error;
pub mod key_buffer;
pub mod residue;
pub mod kl_anal;
pub mod key_guess;
pub mod key_laws;
pub mod cipher_laws;
pub mod render;
pub mod session;

pub use key_guess::Context;
pub use session::{run, Config};

verus! {

/// The repeating-key XOR of `data` with `key`: byte `i` of the result is
/// `data[i] ^ key[i mod key.len()]`.
pub open spec fn xor_stream(data: Seq<u8>, key: Seq<u8>) -> Seq<u8> {
    Seq::new(data.len(), |i: int| data[i] ^ key[i % (key.len() as int)])
}

/// XOR-ing twice with the same byte gives the byte back.
pub proof fn lemma_xor_cancels(a: u8, b: u8)
    ensures
        (a ^ b) ^ b == a,
{
    assert((a ^ b) ^ b == a) by (bit_vector);
}

/// Decrypting twice with the same key restores the data.
pub proof fn lemma_decrypt_involution(data: Seq<u8>, key: Seq<u8>)
    requires
        key.len() > 0,
    ensures
        xor_stream(xor_stream(data, key), key) == data,
{
    let once = xor_stream(data, key);
    let twice = xor_stream(once, key);
    assert forall|i: int| 0 <= i < data.len() implies twice[i] == data[i] by {
        lemma_xor_cancels(data[i], key[i % (key.len() as int)]);
    }
    assert(twice =~= data);
}

/// Decrypts (or, equally, encrypts) `data` under the repeating key `key`.
pub fn decrypt(data: &[u8], key: &[u8]) -> (out: Vec<u8>)
    requires
        data@.len() > 0 ==> key@.len() > 0,
    ensures
        out@ == xor_stream(data@, key@),
{
    let mut out: Vec<u8> = Vec::new();
    let mut i: usize = 0;
    while i < data.len()
        invariant
            i <= data@.len(),
            key@.len() > 0 || data@.len() == 0,
            out@.len() == i,
            forall|j: int| 0 <= j < i ==> out@[j] == data@[j] ^ key@[j % (key@.len() as int)],
        decreases data@.len() - i,
    {
        out.push(data[i] ^ key[i % key.len()]);
        i += 1;
    }
    assert(out@ =~= xor_stream(data@, key@));
    out
}

} // verus!
