//! Renderings of a key for a report: as text, in base64 and in hex.

use vstd::prelude::*;
use crate::key_buffer::ArrVec;

verus! {

/// The sixteen hex digits, lower case.
pub open spec fn hex_digits() -> Seq<char> {
    seq!['0', '1', '2', '3', '4', '5', '6', '7', '8', '9', 'a', 'b', 'c', 'd', 'e', 'f']
}

/// The hex rendering of `bytes`: two digits for each byte, the high half first.
pub open spec fn hex_text(bytes: Seq<u8>) -> Seq<char> {
    Seq::new(
        2 * bytes.len(),
        |i: int|
            if i % 2 == 0 {
                hex_digits()[(bytes[i / 2] >> 4) as int]
            } else {
                hex_digits()[(bytes[i / 2] & 0x0f) as int]
            },
    )
}

/// The base64 rendering of `bytes`, in the standard alphabet and padded.
pub uninterp spec fn base64_text(bytes: Seq<u8>) -> Seq<char>;

/// `bytes` read as UTF-8, with a replacement character for what is not.
pub uninterp spec fn lossy_text(bytes: Seq<u8>) -> Seq<char>;

/// Whether `len` bytes can be rendered in base64: the rendering's length has
/// to fit a `usize`.
pub open spec fn renderable(len: nat) -> bool {
    len / 3 * 4 + 4 <= usize::MAX
}

/// `hex::encode`: every byte becomes two lower-case hex digits, the digit of
/// its high four bits and then the digit of its low four bits.
#[verifier::external_body]
fn hex_encode(bytes: &[u8]) -> (text: String)
    ensures
        text@ == hex_text(bytes@),
{
    hex::encode(bytes)
}

/// `base64::encode`: the standard, padded encoding of the bytes. It panics
/// where the length of the encoding overflows, which `requires` rules out.
#[verifier::external_body]
fn base64_encode(bytes: &[u8]) -> (text: String)
    requires
        renderable(bytes@.len()),
    ensures
        text@ == base64_text(bytes@),
{
    base64::encode(bytes)
}

/// `String::from_utf8_lossy`: the bytes as text, invalid sequences replaced.
#[verifier::external_body]
fn utf8_lossy(bytes: &[u8]) -> (text: String)
    ensures
        text@ == lossy_text(bytes@),
{
    String::from_utf8_lossy(bytes).into_owned()
}

/// One key guess as it is reported.
pub struct KeyReport {
    /// Position of the key among the guesses, from 0.
    pub index: usize,
    /// The key read as text.
    pub text: String,
    /// The key in base64.
    pub base64: String,
    /// The key in hex, without a prefix.
    pub hex: String,
}

impl KeyReport {
    /// Whether this is the report of the key `key` at position `index`.
    pub open spec fn describes(self, index: nat, key: Seq<u8>) -> bool {
        &&& self.index == index
        &&& self.text@ == lossy_text(key)
        &&& self.base64@ == base64_text(key)
        &&& self.hex@ == hex_text(key)
    }
}

/// Renders the key guess at position `index`.
pub fn report_key(index: usize, key: &ArrVec) -> (report: KeyReport)
    requires
        renderable(key@.len()),
    ensures
        report.describes(index as nat, key@),
{
    let bytes = key.as_slice();
    KeyReport {
        index,
        text: utf8_lossy(bytes),
        base64: base64_encode(bytes),
        hex: hex_encode(bytes),
    }
}

/// Renders every key guess, in order.
pub fn report_keys(keys: &Vec<ArrVec>) -> (reports: Vec<KeyReport>)
    requires
        forall|i: int| 0 <= i < keys@.len() ==> renderable((#[trigger] keys@[i])@.len()),
    ensures
        reports@.len() == keys@.len(),
        forall|i: int|
            0 <= i < keys@.len() ==> (#[trigger] reports@[i]).describes(i as nat, keys@[i]@),
{
    let mut reports: Vec<KeyReport> = Vec::with_capacity(keys.len());
    let mut i: usize = 0;
    while i < keys.len()
        invariant
            i <= keys@.len(),
            reports@.len() == i,
            forall|j: int| 0 <= j < keys@.len() ==> renderable((#[trigger] keys@[j])@.len()),
            forall|j: int| 0 <= j < i ==> (#[trigger] reports@[j]).describes(j as nat, keys@[j]@),
        decreases keys@.len() - i,
    {
        let report = report_key(i, &keys[i]);
        reports.push(report);
        i += 1;
    }
    reports
}

} // verus!
