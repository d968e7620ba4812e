//! Key-length analysis by index of coincidence.
//!
//! For a trial key length the text is split into residue classes; the score of
//! the length is the mean index of coincidence of its classes. Scores are held
//! as whole parts per million, rounded down, so that every comparison is exact.

use vstd::prelude::*;
use crate::residue::{
    class_len,
    frequency,
    frequency_table,
    lemma_frequency_bound,
    lemma_frequency_push,
    residue_class,
};

verus! {

/// One, in the unit in which scores are held.
pub const PPM: u64 = 1_000_000;

/// Scores that differ by at most this much count as the same score (0.001).
pub const EPSILON: u64 = 1_000;

/// The index of coincidence of English text (0.067).
pub const ENGLISH_IC: u64 = 67_000;

/// Longest text that the analysis accepts: its arithmetic is done in 128 bits.
pub const MAX_TEXT_LEN: u64 = 0xFFFF_FFFF_FFFF;

/// Number of ordered pairs of distinct positions of `class` that hold the same
/// byte, counted over the byte values below `upto`: the sum of `f * (f - 1)`
/// over their frequencies `f`.
pub open spec fn coincidences(class: Seq<u8>, upto: nat) -> nat
    decreases upto,
{
    if upto == 0 {
        0
    } else {
        let f = frequency(class, (upto - 1) as u8);
        coincidences(class, (upto - 1) as nat) + (f * (f - 1)) as nat
    }
}

/// Number of bytes of `class` whose value is below `upto`.
pub open spec fn mass(class: Seq<u8>, upto: nat) -> nat
    decreases upto,
{
    if upto == 0 {
        0
    } else {
        mass(class, (upto - 1) as nat) + frequency(class, (upto - 1) as u8)
    }
}

/// Index of coincidence of one class in parts per million: the coincidences
/// divided by the number of ordered pairs of distinct positions. A class of
/// fewer than two bytes has none.
pub open spec fn class_ic(class: Seq<u8>) -> nat {
    let n = class.len();
    if n <= 1 {
        0
    } else {
        ((coincidences(class, 256) * PPM) / (n * (n - 1))) as nat
    }
}

/// Sum of the class scores of the classes `0 .. upto` modulo `key_length`.
pub open spec fn ic_sum(data: Seq<u8>, key_length: nat, upto: nat) -> nat
    decreases upto,
{
    if upto == 0 {
        0
    } else {
        ic_sum(data, key_length, (upto - 1) as nat) + class_ic(
            residue_class(data, (upto - 1) as nat, key_length),
        )
    }
}

/// Score of a trial key length: the mean of its classes' scores.
pub open spec fn mean_ic(data: Seq<u8>, key_length: nat) -> nat {
    ic_sum(data, key_length, key_length) / key_length
}

/// The scores of the trial lengths `1 ..= count`; entry `i` is the score of length `i + 1`.
pub open spec fn ic_scores(data: Seq<u8>, count: nat) -> Seq<u64> {
    Seq::new(count, |i: int| mean_ic(data, (i + 1) as nat) as u64)
}

/// Absolute difference of two scores.
pub open spec fn distance(a: u64, b: u64) -> nat {
    if a <= b {
        (b - a) as nat
    } else {
        (a - b) as nat
    }
}

/// Whether the trial length `candidate + 1` only repeats the shorter length
/// `best + 1`: their scores agree up to `EPSILON` and the longer length is a
/// multiple of the shorter one.
pub open spec fn is_harmonic(scores: Seq<u64>, best: int, candidate: int) -> bool {
    distance(scores[candidate], scores[best]) <= EPSILON && (candidate + 1) % (best + 1) == 0
}

/// Whether the trial length `candidate + 1` takes the place of `best + 1`: it
/// is strictly closer to the target and no mere multiple of it.
pub open spec fn displaces(scores: Seq<u64>, target: u64, best: int, candidate: int) -> bool {
    distance(scores[candidate], target) < distance(scores[best], target) && !is_harmonic(
        scores,
        best,
        candidate,
    )
}

/// Index of the preferred score among the first `upto`, going through them
/// from the shortest length up and keeping the earlier one on a draw.
pub open spec fn best_index(scores: Seq<u64>, target: u64, upto: nat) -> nat
    decreases upto,
{
    if upto <= 1 {
        0
    } else {
        let best = best_index(scores, target, (upto - 1) as nat);
        if displaces(scores, target, best as int, upto - 1) {
            (upto - 1) as nat
        } else {
            best
        }
    }
}

/// The shorter length of which the trial length `candidate + 1` was taken to
/// be a repetition, if it was passed over for that reason: it is closer to the
/// target than the length preferred before it, and harmonic to it.
pub open spec fn passed_over(scores: Seq<u64>, target: u64, candidate: int) -> Option<nat> {
    let best = best_index(scores, target, candidate as nat) as int;
    if distance(scores[candidate], target) < distance(scores[best], target) && is_harmonic(
        scores,
        best,
        candidate,
    ) {
        Some((best + 1) as nat)
    } else {
        None
    }
}

/// The smaller of two lengths.
pub open spec fn least(a: nat, b: nat) -> nat {
    if a <= b {
        a
    } else {
        b
    }
}

/// The key length that the analysis settles on: the trial lengths run from 1 to
/// the smaller of `max_length` and the length of the text.
pub open spec fn estimated_key_length(data: Seq<u8>, max_length: nat, target: u64) -> nat {
    let count = least(max_length, data.len());
    best_index(ic_scores(data, count), target, count) + 1
}

/// The preferred index lies among those examined.
pub proof fn lemma_best_index_bound(scores: Seq<u64>, target: u64, upto: nat)
    ensures
        upto == 0 ==> best_index(scores, target, upto) == 0,
        upto > 0 ==> best_index(scores, target, upto) < upto,
    decreases upto,
{
    if upto > 1 {
        lemma_best_index_bound(scores, target, (upto - 1) as nat);
    }
}

/// The estimate is a length from 1 to the smaller of `max_length` and the
/// length of the text, wherever that range is not empty.
pub proof fn lemma_estimate_in_range(data: Seq<u8>, max_length: nat, target: u64)
    ensures
        1 <= estimated_key_length(data, max_length, target),
        least(max_length, data.len()) >= 1 ==> estimated_key_length(data, max_length, target)
            <= least(max_length, data.len()),
        least(max_length, data.len()) == 0 ==> estimated_key_length(data, max_length, target) == 1,
{
    let count = least(max_length, data.len());
    lemma_best_index_bound(ic_scores(data, count), target, count);
}

/// Appending a byte adds one to the mass below `upto` exactly when the byte is below `upto`.
proof fn lemma_mass_push(class: Seq<u8>, byte: u8, upto: nat)
    requires
        upto <= 256,
    ensures
        mass(class.push(byte), upto) == mass(class, upto) + if (byte as nat) < upto {
            1nat
        } else {
            0nat
        },
    decreases upto,
{
    if upto > 0 {
        lemma_mass_push(class, byte, (upto - 1) as nat);
        lemma_frequency_push(class, byte, (upto - 1) as u8);
    }
}

/// Every byte of a class is counted once among the 256 byte values.
pub proof fn lemma_mass_is_len(class: Seq<u8>)
    ensures
        mass(class, 256) == class.len(),
    decreases class.len(),
{
    if class.len() == 0 {
        lemma_mass_empty(class, 256);
    } else {
        let front = class.drop_last();
        lemma_mass_is_len(front);
        lemma_mass_push(front, class.last(), 256);
        assert(front.push(class.last()) =~= class);
    }
}

proof fn lemma_mass_empty(class: Seq<u8>, upto: nat)
    requires
        class.len() == 0,
        upto <= 256,
    ensures
        mass(class, upto) == 0,
    decreases upto,
{
    if upto > 0 {
        lemma_mass_empty(class, (upto - 1) as nat);
        lemma_frequency_bound(class, (upto - 1) as u8);
    }
}

/// The mass grows with the range of byte values.
proof fn lemma_mass_monotone(class: Seq<u8>, lower: nat, upper: nat)
    requires
        lower <= upper <= 256,
    ensures
        mass(class, lower) <= mass(class, upper),
    decreases upper,
{
    if lower < upper {
        lemma_mass_monotone(class, lower, (upper - 1) as nat);
    }
}

/// Each byte of value `v` coincides with at most `n - 1` others.
proof fn lemma_coincidences_by_mass(class: Seq<u8>, upto: nat)
    requires
        class.len() >= 1,
        upto <= 256,
    ensures
        coincidences(class, upto) <= mass(class, upto) * (class.len() - 1),
    decreases upto,
{
    if upto > 0 {
        let v = (upto - 1) as u8;
        let f = frequency(class, v) as int;
        let n = class.len() as int;
        let m = mass(class, (upto - 1) as nat) as int;
        lemma_coincidences_by_mass(class, (upto - 1) as nat);
        lemma_frequency_bound(class, v);
        assert(0 <= f * (f - 1) <= f * (n - 1)) by (nonlinear_arith)
            requires
                0 <= f <= n,
                n >= 1,
        ;
        assert((m + f) * (n - 1) == m * (n - 1) + f * (n - 1)) by (nonlinear_arith);
    } else {
        assert(0 * (class.len() - 1) == 0) by (nonlinear_arith);
    }
}

/// There are never more coincidences than ordered pairs of distinct positions.
pub proof fn lemma_coincidences_bound(class: Seq<u8>, upto: nat)
    requires
        upto <= 256,
    ensures
        coincidences(class, upto) <= class.len() * (class.len() - 1),
        class.len() == 0 ==> coincidences(class, upto) == 0,
{
    let n = class.len() as int;
    if n >= 1 {
        lemma_coincidences_by_mass(class, upto);
        lemma_mass_monotone(class, upto, 256);
        lemma_mass_is_len(class);
        let m = mass(class, upto) as int;
        assert(m * (n - 1) <= n * (n - 1)) by (nonlinear_arith)
            requires
                0 <= m <= n,
                n >= 1,
        ;
    } else {
        lemma_coincidences_empty(class, upto);
    }
}

proof fn lemma_coincidences_empty(class: Seq<u8>, upto: nat)
    requires
        class.len() == 0,
        upto <= 256,
    ensures
        coincidences(class, upto) == 0,
    decreases upto,
{
    if upto > 0 {
        lemma_coincidences_empty(class, (upto - 1) as nat);
        lemma_frequency_bound(class, (upto - 1) as u8);
        assert(0 * (0 - 1) == 0) by (nonlinear_arith);
    }
}

/// An index of coincidence never exceeds one.
pub proof fn lemma_class_ic_bound(class: Seq<u8>)
    ensures
        class_ic(class) <= PPM,
{
    let n = class.len() as int;
    if n > 1 {
        lemma_coincidences_bound(class, 256);
        let c = coincidences(class, 256) as int;
        let d = n * (n - 1);
        assert(d > 0) by (nonlinear_arith)
            requires
                d == n * (n - 1),
                n > 1,
        ;
        assert((c * 1_000_000) / d <= 1_000_000) by (nonlinear_arith)
            requires
                0 <= c <= d,
                d > 0,
        ;
    }
}

/// The score of a class is its index of coincidence in parts per million,
/// rounded down to a whole number: the true ratio lies less than one part per
/// million above it.
pub proof fn lemma_class_ic_is_rounded_down(class: Seq<u8>)
    requires
        class.len() >= 2,
    ensures
        ({
            let pairs = class.len() * (class.len() - 1);
            class_ic(class) * pairs <= coincidences(class, 256) * PPM < (class_ic(class) + 1)
                * pairs
        }),
{
    let n = class.len() as int;
    let c = coincidences(class, 256) as int;
    let d = n * (n - 1);
    assert(d > 0) by (nonlinear_arith)
        requires
            d == n * (n - 1),
            n >= 2,
    ;
    let x = c * 1_000_000;
    assert(x == d * (x / d) + x % d && 0 <= x % d < d) by (nonlinear_arith)
        requires
            d > 0,
    ;
    assert((x / d) * d == d * (x / d) && (x / d + 1) * d == d * (x / d) + d) by (nonlinear_arith);
    assert(x / d >= 0) by (nonlinear_arith)
        requires
            x >= 0,
            d > 0,
    ;
}

/// The sum of `upto` class scores is at most `upto`.
pub proof fn lemma_ic_sum_bound(data: Seq<u8>, key_length: nat, upto: nat)
    ensures
        ic_sum(data, key_length, upto) <= upto * PPM,
    decreases upto,
{
    if upto > 0 {
        lemma_ic_sum_bound(data, key_length, (upto - 1) as nat);
        lemma_class_ic_bound(residue_class(data, (upto - 1) as nat, key_length));
    }
}

/// The score of a trial length never exceeds one.
pub proof fn lemma_mean_ic_bound(data: Seq<u8>, key_length: nat)
    requires
        key_length > 0,
    ensures
        mean_ic(data, key_length) <= PPM,
{
    lemma_ic_sum_bound(data, key_length, key_length);
    let s = ic_sum(data, key_length, key_length) as int;
    let k = key_length as int;
    assert(s / k <= 1_000_000) by (nonlinear_arith)
        requires
            0 <= s <= k * 1_000_000,
            k > 0,
    ;
}

/// Number of bytes in the residue class `offset` modulo `step`.
pub fn class_size(data: &[u8], offset: usize, step: usize) -> (n: usize)
    requires
        step > 0,
    ensures
        n == class_len(data@.len(), offset as nat, step as nat),
        n == residue_class(data@, offset as nat, step as nat).len(),
        n <= data@.len(),
{
    if offset >= data.len() {
        0
    } else {
        let span = data.len() - offset - 1;
        proof {
            let sp = span as int;
            let st = step as int;
            assert(0 <= sp / st <= sp) by (nonlinear_arith)
                requires
                    sp >= 0,
                    st > 0,
            ;
        }
        span / step + 1
    }
}

/// Index of coincidence, in parts per million, of the residue class `offset`
/// modulo `step`.
pub fn calc_ic(data: &[u8], offset: usize, step: usize) -> (ic: u64)
    requires
        step > 0,
        data@.len() <= MAX_TEXT_LEN,
    ensures
        ic == class_ic(residue_class(data@, offset as nat, step as nat)),
        ic <= PPM,
{
    let ghost class = residue_class(data@, offset as nat, step as nat);
    let n = class_size(data, offset, step);
    proof {
        lemma_class_ic_bound(class);
    }
    if n <= 1 {
        return 0;
    }
    let table = frequency_table(data, offset, step);
    let mut pairs: u128 = 0;
    let mut value: usize = 0;
    while value < 256
        invariant
            value <= 256,
            class == residue_class(data@, offset as nat, step as nat),
            class.len() == n,
            n <= MAX_TEXT_LEN,
            pairs == coincidences(class, value as nat),
            forall|v: u8| #[trigger] table@[v as int] == frequency(class, v),
        decreases 256 - value,
    {
        let count: u128 = table[value] as u128;
        proof {
            let v = value as u8;
            assert(table@[v as int] == frequency(class, v));
            lemma_frequency_bound(class, v);
            lemma_coincidences_bound(class, (value + 1) as nat);
            let c = count as int;
            let m = n as int;
            assert(0 <= c * (c - 1) && m * (m - 1) <= 0xFFFF_FFFF_FFFF * 0xFFFF_FFFF_FFFF)
                by (nonlinear_arith)
                requires
                    0 <= c <= m,
                    m <= 0xFFFF_FFFF_FFFF,
            ;
            assert(((value + 1) as nat - 1) as u8 == v);
            assert(coincidences(class, (value + 1) as nat) == coincidences(class, value as nat) + (
            c * (c - 1)) as nat);
            assert(c == 0 ==> c * (c - 1) == 0) by (nonlinear_arith);
        }
        if count > 0 {
            pairs = pairs + count * (count - 1);
        }
        value += 1;
    }
    let size: u128 = n as u128;
    proof {
        lemma_coincidences_bound(class, 256);
        let m = n as int;
        assert(0 < m * (m - 1) <= 0xFFFF_FFFF_FFFF * 0xFFFF_FFFF_FFFF) by (nonlinear_arith)
            requires
                1 < m <= 0xFFFF_FFFF_FFFF,
        ;
    }
    let ic = pairs * (PPM as u128) / (size * (size - 1));
    ic as u64
}

/// Score of the trial length `key_length`: the mean index of coincidence of
/// its residue classes, in parts per million.
pub fn calc_ic_for_key_length(data: &[u8], key_length: usize) -> (mean: u64)
    requires
        key_length > 0,
        data@.len() <= MAX_TEXT_LEN,
    ensures
        mean == mean_ic(data@, key_length as nat),
        mean <= PPM,
{
    let mut sum: u128 = 0;
    let mut offset: usize = 0;
    while offset < key_length
        invariant
            offset <= key_length,
            key_length > 0,
            data@.len() <= MAX_TEXT_LEN,
            sum == ic_sum(data@, key_length as nat, offset as nat),
            sum <= offset * PPM,
        decreases key_length - offset,
    {
        let ic = calc_ic(data, offset, key_length);
        proof {
            lemma_ic_sum_bound(data@, key_length as nat, (offset + 1) as nat);
            assert((offset + 1) * PPM <= 0x1_0000_0000_0000_0000 * 1_000_000) by (nonlinear_arith)
                requires
                    offset + 1 <= 0x1_0000_0000_0000_0000,
                    PPM == 1_000_000,
            ;
        }
        sum = sum + ic as u128;
        offset += 1;
    }
    proof {
        lemma_mean_ic_bound(data@, key_length as nat);
    }
    (sum / (key_length as u128)) as u64
}

/// The scores of the trial lengths from 1 to the smaller of `max_length` and
/// the length of the text; entry `i` belongs to length `i + 1`.
pub fn key_length_scores(data: &[u8], max_length: usize) -> (scores: Vec<u64>)
    requires
        data@.len() <= MAX_TEXT_LEN,
    ensures
        scores@ == ic_scores(data@, least(max_length as nat, data@.len())),
{
    let count = if max_length <= data.len() {
        max_length
    } else {
        data.len()
    };
    let mut scores: Vec<u64> = Vec::new();
    let mut i: usize = 0;
    while i < count
        invariant
            i <= count,
            count == least(max_length as nat, data@.len()),
            data@.len() <= MAX_TEXT_LEN,
            scores@ == ic_scores(data@, i as nat),
        decreases count - i,
    {
        let score = calc_ic_for_key_length(data, i + 1);
        scores.push(score);
        assert(scores@ =~= ic_scores(data@, (i + 1) as nat));
        i += 1;
    }
    scores
}

/// Absolute difference of two scores.
pub fn score_distance(a: u64, b: u64) -> (d: u64)
    ensures
        d == distance(a, b),
{
    if a <= b {
        b - a
    } else {
        a - b
    }
}

/// Chooses among the scores of the trial lengths `1 ..= scores.len()` the
/// length whose score is closest to `target_ic`, passing over a closer length
/// that is a multiple of the length preferred so far and scores the same up to
/// `EPSILON`. With no scores at all the answer is 1.
pub fn select_key_length(scores: &[u64], target_ic: u64) -> (key_length: usize)
    ensures
        key_length == best_index(scores@, target_ic, scores@.len()) + 1,
        1 <= key_length,
        scores@.len() >= 1 ==> key_length <= scores@.len(),
{
    let mut best: usize = 0;
    let mut i: usize = 0;
    proof {
        lemma_best_index_bound(scores@, target_ic, scores@.len());
    }
    while i < scores.len()
        invariant
            i <= scores@.len(),
            best == best_index(scores@, target_ic, i as nat),
            i > 0 ==> best < i,
            i == 0 ==> best == 0,
        decreases scores@.len() - i,
    {
        let diff = score_distance(scores[i], target_ic);
        let best_diff = score_distance(scores[best], target_ic);
        if diff < best_diff {
            let harmonic = score_distance(scores[i], scores[best]) <= EPSILON && (i + 1) % (best
                + 1) == 0;
            if !harmonic {
                best = i;
            }
        }
        i += 1;
    }
    best + 1
}

/// How one trial length fared in the selection.
pub struct Trial {
    /// The trial length.
    pub key_length: usize,
    /// Its score, in parts per million.
    pub score: u64,
    /// The shorter length of which it was taken to be a repetition, where it
    /// was passed over for that reason.
    pub multiple_of: Option<usize>,
}

impl Trial {
    /// Whether this is the record of the trial length `index + 1` among `scores`.
    pub open spec fn records(self, scores: Seq<u64>, target: u64, index: int) -> bool {
        &&& self.key_length == index + 1
        &&& self.score == scores[index]
        &&& match self.multiple_of {
            Some(shorter) => passed_over(scores, target, index) == Some(shorter as nat),
            None => passed_over(scores, target, index) is None,
        }
    }
}

/// Goes through the scores as `select_key_length` does and records for every
/// trial length its score and whether it was passed over as a multiple.
pub fn key_length_trials(scores: &[u64], target_ic: u64) -> (trials: Vec<Trial>)
    ensures
        trials@.len() == scores@.len(),
        forall|i: int|
            0 <= i < scores@.len() ==> (#[trigger] trials@[i]).records(scores@, target_ic, i),
{
    let mut trials: Vec<Trial> = Vec::with_capacity(scores.len());
    let mut best: usize = 0;
    let mut i: usize = 0;
    while i < scores.len()
        invariant
            i <= scores@.len(),
            best == best_index(scores@, target_ic, i as nat),
            i > 0 ==> best < i,
            i == 0 ==> best == 0,
            trials@.len() == i,
            forall|j: int| 0 <= j < i ==> (#[trigger] trials@[j]).records(scores@, target_ic, j),
        decreases scores@.len() - i,
    {
        let diff = score_distance(scores[i], target_ic);
        let best_diff = score_distance(scores[best], target_ic);
        let mut multiple_of: Option<usize> = None;
        if diff < best_diff {
            let harmonic = score_distance(scores[i], scores[best]) <= EPSILON && (i + 1) % (best
                + 1) == 0;
            if harmonic {
                multiple_of = Some(best + 1);
            } else {
                best = i;
            }
        }
        trials.push(Trial { key_length: i + 1, score: scores[i], multiple_of });
        i += 1;
    }
    trials
}

/// Estimates the key length of `data`: the trial lengths run from 1 to the
/// smaller of `max_length` and the length of the text, and the one preferred
/// is returned. `target_ic` is the index of coincidence expected of the
/// plaintext, in parts per million.
pub fn analyse_key_length(data: &[u8], max_length: usize, target_ic: u64) -> (key_length: usize)
    requires
        data@.len() <= MAX_TEXT_LEN,
    ensures
        key_length == estimated_key_length(data@, max_length as nat, target_ic),
        1 <= key_length,
        least(max_length as nat, data@.len()) >= 1 ==> key_length <= least(
            max_length as nat,
            data@.len(),
        ),
{
    let scores = key_length_scores(data, max_length);
    select_key_length(scores.as_slice(), target_ic)
}

} // verus!
