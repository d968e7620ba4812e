//! Residue classes of a text and their byte frequencies.
//!
//! Under a repeating key of length `step`, the bytes at positions `offset`,
//! `offset + step`, `offset + 2 * step`, ... are all encrypted with the same
//! key byte. Both the key-length analysis and the frequency attack work on the
//! frequency table of such a class.

use vstd::prelude::*;
use vstd::seq_lib::*;

verus! {

/// Number of positions `offset + k * step` that lie inside a text of `len` bytes.
pub open spec fn class_len(len: nat, offset: nat, step: nat) -> nat {
    if step == 0 || offset >= len {
        0
    } else {
        ((len - offset - 1) / (step as int) + 1) as nat
    }
}

/// The bytes of `data` at positions `offset`, `offset + step`, `offset + 2 * step`, ...
pub open spec fn residue_class(data: Seq<u8>, offset: nat, step: nat) -> Seq<u8> {
    Seq::new(class_len(data.len(), offset, step), |k: int| data[offset + k * step])
}

/// How often `value` occurs in `class`.
pub open spec fn frequency(class: Seq<u8>, value: u8) -> nat {
    class.to_multiset().count(value)
}

/// Position `offset + k * step` lies inside the text exactly when `k` is below
/// the class length.
pub proof fn lemma_class_member(len: nat, offset: nat, step: nat, k: nat)
    requires
        step > 0,
    ensures
        k < class_len(len, offset, step) <==> offset + k * step < len,
{
    if offset < len {
        let span = (len - offset - 1) as int;
        let s = step as int;
        assert(span == s * (span / s) + span % s && 0 <= span % s < s) by (nonlinear_arith)
            requires
                s > 0,
                span >= 0,
        ;
        let q = span / s;
        if (k as int) <= q {
            assert(k * s <= q * s) by (nonlinear_arith)
                requires
                    0 <= k <= q,
                    s > 0,
            ;
            assert(q * s == s * q) by (nonlinear_arith);
        } else {
            assert(k * s >= (q + 1) * s) by (nonlinear_arith)
                requires
                    k >= q + 1,
                    s > 0,
            ;
            assert((q + 1) * s == s * q + s) by (nonlinear_arith);
        }
    } else {
        assert(k * step >= 0) by (nonlinear_arith)
            requires
                k >= 0,
                step >= 0,
        ;
    }
}

/// No byte value occurs more often than the class has bytes.
pub proof fn lemma_frequency_bound(class: Seq<u8>, value: u8)
    ensures
        frequency(class, value) <= class.len(),
    decreases class.len(),
{
    broadcast use group_to_multiset_ensures;

    if class.len() > 0 {
        let front = class.drop_last();
        lemma_frequency_bound(front, value);
        assert(front.push(class.last()) =~= class);
    } else {
        assert(!class.contains(value));
    }
}

/// Appending a byte raises the frequency of that byte by one and leaves the others.
pub proof fn lemma_frequency_push(class: Seq<u8>, byte: u8, value: u8)
    ensures
        frequency(class.push(byte), value) == frequency(class, value) + if value == byte {
            1nat
        } else {
            0nat
        },
{
    broadcast use group_to_multiset_ensures;

}

/// Frequency table of the residue class `offset` modulo `step`: entry `v` counts
/// the bytes of value `v` in the class.
pub fn frequency_table(data: &[u8], offset: usize, step: usize) -> (table: [usize; 256])
    requires
        step > 0,
    ensures
        forall|v: u8| #[trigger]
            table@[v as int] == frequency(residue_class(data@, offset as nat, step as nat), v),
{
    let mut table: [usize; 256] = [0usize; 256];
    proof {
        broadcast use vstd::array::group_array_axioms;

        assert(table == vstd::array::spec_array_fill_for_copy_type::<usize, 256>(0usize));
        assert(forall|j: int| 0 <= j < 256 ==> table@[j] == 0);
    }
    let ghost class = residue_class(data@, offset as nat, step as nat);
    let ghost mut k: nat = 0;
    proof {
        lemma_class_member(data@.len(), offset as nat, step as nat, 0);
        assert forall|v: u8| #[trigger] table@[v as int] == frequency(class.take(0), v) by {
            lemma_frequency_bound(class.take(0), v);
            assert(table@[v as int] == 0);
        }
    }
    let mut i: usize = offset;
    while i < data.len()
        invariant_except_break
            i == offset + k * step,
            i < data@.len() <==> k < class.len(),
        invariant
            step > 0,
            class == residue_class(data@, offset as nat, step as nat),
            k <= class.len(),
            forall|v: u8| #[trigger] table@[v as int] == frequency(class.take(k as int), v),
        ensures
            k == class.len(),
        decreases class.len() - k,
    {
        let byte = data[i];
        let slot: usize = byte as usize;
        proof {
            lemma_frequency_bound(class.take(k as int), byte);
            assert(class.take(k as int + 1) =~= class.take(k as int).push(byte));
            assert forall|v: u8| #[trigger]
                frequency(class.take(k as int + 1), v) == frequency(class.take(k as int), v) + if v
                    == byte {
                    1nat
                } else {
                    0nat
                } by {
                lemma_frequency_push(class.take(k as int), byte, v);
            }
        }
        table[slot] = table[slot] + 1;
        proof {
            assert((k + 1) * step == k * step + step) by (nonlinear_arith);
            lemma_class_member(data@.len(), offset as nat, step as nat, k + 1);
            k = k + 1;
        }
        if step >= data.len() - i {
            break ;
        }
        i = i + step;
    }
    proof {
        assert(class.take(k as int) =~= class);
    }
    table
}

} // verus!
