//! Why the attacks work: what a repeating key leaves unchanged.
//!
//! Within one residue class of the key length every byte is XOR-ed with the
//! same key byte. That moves the byte values around but keeps how often each
//! occurs, and so keeps the index of coincidence and the rank of the most
//! frequent byte.

use vstd::prelude::*;
use vstd::arithmetic::div_mod::{
    lemma_fundamental_div_mod,
    lemma_mod_multiples_vanish,
    lemma_small_mod,
};
use crate::key_guess::{
    candidates,
    is_most_common,
    lemma_most_common_exists,
    lemma_most_common_unique,
    most_common_byte,
    most_common_key,
    MostCommonMethod,
};
use crate::key_laws::lemma_most_common_candidates;
use crate::kl_anal::{class_ic, coincidences, ic_sum, lemma_coincidences_bound, mean_ic};
use crate::residue::{
    frequency,
    lemma_class_member,
    lemma_frequency_bound,
    lemma_frequency_push,
    residue_class,
};
use crate::xor_stream;

verus! {

/// `class` with every byte XOR-ed with `mask`.
pub open spec fn xor_all(class: Seq<u8>, mask: u8) -> Seq<u8> {
    Seq::new(class.len(), |j: int| class[j] ^ mask)
}

/// Under a key whose length divides `step`, a residue class of the ciphertext
/// is the same class of the plaintext with one key byte XOR-ed to every byte.
pub proof fn lemma_residue_of_cipher(plain: Seq<u8>, key: Seq<u8>, offset: nat, step: nat)
    requires
        key.len() > 0,
        step > 0,
        step % key.len() == 0,
    ensures
        residue_class(xor_stream(plain, key), offset, step) == xor_all(
            residue_class(plain, offset, step),
            key[(offset % key.len()) as int],
        ),
{
    let data = xor_stream(plain, key);
    let n = key.len() as int;
    let ours = residue_class(data, offset, step);
    let theirs = xor_all(residue_class(plain, offset, step), key[(offset % key.len()) as int]);
    let q = (step as int) / n;
    lemma_fundamental_div_mod(step as int, n);
    assert forall|j: int| 0 <= j < ours.len() implies ours[j] == theirs[j] by {
        lemma_class_member(plain.len(), offset, step, j as nat);
        let at = offset + j * step;
        assert(j * step == n * (q * j)) by (nonlinear_arith)
            requires
                step == n * q,
        ;
        lemma_mod_multiples_vanish(q * j, offset as int, n);
        assert(at == n * (q * j) + offset);
    }
    assert(ours =~= theirs);
}

/// XOR-ing every byte of a class with a mask moves the frequency of each
/// value to the value XOR-ed with the mask.
pub proof fn lemma_frequency_of_xor(class: Seq<u8>, mask: u8, value: u8)
    ensures
        frequency(xor_all(class, mask), value ^ mask) == frequency(class, value),
    decreases class.len(),
{
    if class.len() == 0 {
        lemma_frequency_bound(class, value);
        lemma_frequency_bound(xor_all(class, mask), value ^ mask);
    } else {
        let front = class.drop_last();
        let last = class.last();
        lemma_frequency_of_xor(front, mask, value);
        assert(xor_all(class, mask) =~= xor_all(front, mask).push(last ^ mask));
        assert(class =~= front.push(last));
        lemma_frequency_push(xor_all(front, mask), last ^ mask, value ^ mask);
        lemma_frequency_push(front, last, value);
        assert((last ^ mask == value ^ mask) == (last == value)) by (bit_vector);
    }
}

/// Number of ordered pairs of distinct positions of `class` that hold the same byte.
pub open spec fn agreeing_pairs(class: Seq<u8>) -> nat
    decreases class.len(),
{
    if class.len() == 0 {
        0
    } else {
        agreeing_pairs(class.drop_last()) + 2 * frequency(class.drop_last(), class.last())
    }
}

/// A new byte agrees with every earlier byte of its value, in both orders.
proof fn lemma_coincidences_push(class: Seq<u8>, byte: u8, upto: nat)
    requires
        upto <= 256,
    ensures
        coincidences(class.push(byte), upto) == coincidences(class, upto) + if (byte as nat)
            < upto {
            2 * frequency(class, byte)
        } else {
            0nat
        },
    decreases upto,
{
    if upto > 0 {
        let value = (upto - 1) as u8;
        lemma_coincidences_push(class, byte, (upto - 1) as nat);
        lemma_frequency_push(class, byte, value);
        let f = frequency(class, value) as int;
        assert((f + 1) * f == f * (f - 1) + 2 * f && f * (f - 1) >= 0) by (nonlinear_arith)
            requires
                f >= 0,
        ;
    }
}

/// The coincidences of a class, summed over the byte values, are its agreeing pairs.
pub proof fn lemma_coincidences_are_pairs(class: Seq<u8>)
    ensures
        coincidences(class, 256) == agreeing_pairs(class),
    decreases class.len(),
{
    if class.len() == 0 {
        lemma_coincidences_bound(class, 256);
    } else {
        let front = class.drop_last();
        lemma_coincidences_are_pairs(front);
        lemma_coincidences_push(front, class.last(), 256);
        assert(front.push(class.last()) =~= class);
    }
}

/// XOR-ing every byte of a class with a mask keeps its agreeing pairs.
proof fn lemma_pairs_of_xor(class: Seq<u8>, mask: u8)
    ensures
        agreeing_pairs(xor_all(class, mask)) == agreeing_pairs(class),
    decreases class.len(),
{
    if class.len() > 0 {
        let front = class.drop_last();
        let last = class.last();
        lemma_pairs_of_xor(front, mask);
        assert(xor_all(class, mask).drop_last() =~= xor_all(front, mask));
        assert(xor_all(class, mask).last() == last ^ mask);
        lemma_frequency_of_xor(front, mask, last);
    }
}

/// XOR-ing every byte of a class with a mask keeps its index of coincidence.
pub proof fn lemma_class_ic_of_xor(class: Seq<u8>, mask: u8)
    ensures
        class_ic(xor_all(class, mask)) == class_ic(class),
{
    lemma_coincidences_are_pairs(class);
    lemma_coincidences_are_pairs(xor_all(class, mask));
    lemma_pairs_of_xor(class, mask);
}

proof fn lemma_ic_sum_of_cipher(plain: Seq<u8>, key: Seq<u8>, key_length: nat, upto: nat)
    requires
        key.len() > 0,
        key_length > 0,
        key_length % key.len() == 0,
    ensures
        ic_sum(xor_stream(plain, key), key_length, upto) == ic_sum(plain, key_length, upto),
    decreases upto,
{
    if upto > 0 {
        let offset = (upto - 1) as nat;
        lemma_ic_sum_of_cipher(plain, key, key_length, offset);
        lemma_residue_of_cipher(plain, key, offset, key_length);
        lemma_class_ic_of_xor(
            residue_class(plain, offset, key_length),
            key[(offset % key.len()) as int],
        );
    }
}

/// At every trial length that is a multiple of the length of the key, the
/// ciphertext scores exactly as the plaintext does: the key has no part in
/// the score.
pub proof fn lemma_cipher_scores_as_plain(plain: Seq<u8>, key: Seq<u8>, trial_length: nat)
    requires
        key.len() > 0,
        trial_length > 0,
        trial_length % key.len() == 0,
    ensures
        mean_ic(xor_stream(plain, key), trial_length) == mean_ic(plain, trial_length),
{
    lemma_ic_sum_of_cipher(plain, key, trial_length, trial_length);
}

/// Frequency analysis recovers the key exactly where the assumption behind it
/// holds: if in every residue class of the plaintext the byte `common` occurs
/// more often than any other byte, the one candidate is the key.
pub proof fn lemma_most_common_recovers_key(method: MostCommonMethod, plain: Seq<u8>, key: Seq<u8>)
    requires
        key.len() > 0,
        forall|i: nat, other: u8|
            i < key.len() && other != method.common ==> #[trigger] frequency(
                residue_class(plain, i, key.len()),
                other,
            ) < frequency(residue_class(plain, i, key.len()), method.common),
    ensures
        candidates(&method, xor_stream(plain, key), key.len()) == seq![key],
{
    let data = xor_stream(plain, key);
    let n = key.len();
    let common = method.common;
    let guess = most_common_key(data, n, common);
    assert forall|i: int| 0 <= i < n implies guess[i] == key[i] by {
        let theirs = residue_class(plain, i as nat, n);
        let ours = residue_class(data, i as nat, n);
        let mask = key[i];
        let top = common ^ mask;
        lemma_small_mod(i as nat, n);
        assert(n % n == 0) by {
            lemma_mod_multiples_vanish(1, 0, n as int);
            lemma_small_mod(0, n);
        }
        lemma_residue_of_cipher(plain, key, i as nat, n);
        assert(ours == xor_all(theirs, mask));
        lemma_frequency_of_xor(theirs, mask, common);
        assert forall|other: u8|
            #![trigger frequency(ours, other)]
            frequency(ours, other) <= frequency(ours, top) && (other < top ==> frequency(
                ours,
                other,
            ) < frequency(ours, top)) by {
            let source = other ^ mask;
            lemma_frequency_of_xor(theirs, mask, source);
            assert((other ^ mask) ^ mask == other) by (bit_vector);
            assert((other ^ mask == common) == (other == common ^ mask)) by (bit_vector);
            if other != top {
                assert(frequency(theirs, source) < frequency(theirs, common));
            }
        }
        assert(is_most_common(ours, top));
        lemma_most_common_exists(ours);
        lemma_most_common_unique(ours, top, most_common_byte(ours));
        assert((common ^ mask) ^ common == mask) by (bit_vector);
    }
    assert(guess =~= key);
    lemma_most_common_candidates(method, data, n);
    assert(candidates(&method, data, n) =~= seq![key]);
}

} // verus!
