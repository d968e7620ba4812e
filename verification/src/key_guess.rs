//! The key guess engine: three ways to recover candidate keys of a known length.

use vstd::prelude::*;
use crate::error::{Advisory, AnalysisError, Constraint};
use crate::key_buffer::ArrVec;
use crate::residue::{frequency, frequency_table, residue_class};
use crate::{decrypt, xor_stream};

verus! {

/// What every strategy is told: the length of the key to recover.
pub struct Context {
    /// Length of the key, in bytes.
    pub key_length: usize,
}

impl Context {
    /// The context of a search for a key of `key_length` bytes.
    pub fn new(key_length: usize) -> (context: Context)
        ensures
            context.key_length == key_length,
    {
        Context { key_length }
    }
}

/// The byte sequences that a list of key buffers holds.
pub open spec fn key_seqs(keys: Seq<ArrVec>) -> Seq<Seq<u8>> {
    Seq::new(keys.len(), |i: int| keys[i]@)
}

/// Fewest bytes of ciphertext per key byte for which frequency analysis is trusted.
pub const MIN_SAMPLES: usize = 30;

/// `found`, and after it `key` if it was hit and is new.
pub open spec fn keep_distinct(found: Seq<Seq<u8>>, hit: bool, key: Seq<u8>) -> Seq<Seq<u8>> {
    if hit && !found.contains(key) {
        found.push(key)
    } else {
        found
    }
}

/// The distinct keys among the trials that hit, each where it first occurs. A
/// trial is a position's verdict together with the key that the position gives.
pub open spec fn distinct_hits(trials: Seq<(bool, Seq<u8>)>) -> Seq<Seq<u8>>
    decreases trials.len(),
{
    if trials.len() == 0 {
        Seq::empty()
    } else {
        keep_distinct(distinct_hits(trials.drop_last()), trials.last().0, trials.last().1)
    }
}

/// A strategy that recovers candidate keys from ciphertext.
///
/// A strategy examines a number of positions, one after the other. Each
/// position either gives a key or does not; the candidates are the distinct
/// keys in the order in which they are found. `guess_key` examines all
/// positions at once; a caller that wants to show progress or to stop early
/// goes through the positions with `examine` itself.
pub trait GuessMethod {
    /// What validation answers for a ciphertext and a key length.
    spec fn validity(&self, data: Seq<u8>, key_length: nat) -> Result<Advisory, AnalysisError>;

    /// For each position that the strategy examines, whether it gives a key,
    /// and which.
    spec fn trials(&self, data: Seq<u8>, key_length: nat) -> Seq<(bool, Seq<u8>)>;

    /// Whether a search that ends without a candidate has failed.
    spec fn must_find(&self) -> bool;

    /// Checks the inputs before anything is searched.
    fn is_valid(&self, data: &[u8], context: &Context) -> (verdict: Result<Advisory, AnalysisError>)
        ensures
            verdict == self.validity(data@, context.key_length as nat),
    ;

    /// Number of positions that the strategy examines.
    fn positions(&self, data: &[u8], context: &Context) -> (count: usize)
        requires
            self.validity(data@, context.key_length as nat) is Ok,
        ensures
            count == self.trials(data@, context.key_length as nat).len(),
    ;

    /// Examines one position and gives its key, if it has one.
    fn examine(&self, data: &[u8], context: &Context, at: usize) -> (key: Option<ArrVec>)
        requires
            self.validity(data@, context.key_length as nat) is Ok,
            at < self.trials(data@, context.key_length as nat).len(),
        ensures
            key is Some == self.trials(data@, context.key_length as nat)[at as int].0,
            key matches Some(found) ==> found@ == self.trials(
                data@,
                context.key_length as nat,
            )[at as int].1,
    ;

    /// Whether a search that ends without a candidate has failed.
    fn requires_candidate(&self) -> (required: bool)
        ensures
            required == self.must_find(),
    ;

    /// Recovers the candidate keys: examines every position and lists the
    /// distinct keys in the order in which they are found.
    fn guess_key(&self, data: &[u8], context: &Context) -> (keys: Vec<ArrVec>)
        requires
            self.validity(data@, context.key_length as nat) is Ok,
        ensures
            key_seqs(keys@) == distinct_hits(self.trials(data@, context.key_length as nat)),
    {
        let count = self.positions(data, context);
        let ghost trials = self.trials(data@, context.key_length as nat);
        let mut keys: Vec<ArrVec> = Vec::new();
        assert(key_seqs(keys@) =~= Seq::<Seq<u8>>::empty());
        assert(trials.take(0) =~= Seq::<(bool, Seq<u8>)>::empty());
        let mut at: usize = 0;
        while at < count
            invariant
                at <= count,
                count == trials.len(),
                trials == self.trials(data@, context.key_length as nat),
                self.validity(data@, context.key_length as nat) is Ok,
                key_seqs(keys@) == distinct_hits(trials.take(at as int)),
            decreases count - at,
        {
            assert(trials.take(at + 1).drop_last() =~= trials.take(at as int));
            match self.examine(data, context, at) {
                Some(key) => {
                    push_distinct(&mut keys, key);
                },
                None => {},
            }
            at += 1;
        }
        assert(trials.take(count as int) =~= trials);
        keys
    }
}

/// The candidate keys of a method for a ciphertext and a key length: the
/// distinct keys of its positions, in the order in which they are found.
pub open spec fn candidates<M: GuessMethod + ?Sized>(
    method: &M,
    data: Seq<u8>,
    key_length: nat,
) -> Seq<Seq<u8>> {
    distinct_hits(method.trials(data, key_length))
}

/// What is asked of every ciphertext and key length: neither is empty.
pub open spec fn common_validity(data: Seq<u8>, key_length: nat) -> Option<AnalysisError> {
    if data.len() == 0 {
        Some(AnalysisError::InvalidParameters(Constraint::EmptyData))
    } else if key_length == 0 {
        Some(AnalysisError::InvalidParameters(Constraint::ZeroKeyLength))
    } else {
        None
    }
}

/// Whether `value` is the most frequent byte of `class`; among several of
/// the same frequency it is the smallest.
pub open spec fn is_most_common(class: Seq<u8>, value: u8) -> bool {
    forall|other: u8|
        #![trigger frequency(class, other)]
        frequency(class, other) <= frequency(class, value) && (other < value ==> frequency(
            class,
            other,
        ) < frequency(class, value))
}

/// The most frequent byte of `class`.
pub open spec fn most_common_byte(class: Seq<u8>) -> u8 {
    choose|value: u8| is_most_common(class, value)
}

/// The key that frequency analysis gives: byte `i` is the most frequent byte
/// of the residue class `i`, XOR-ed with the byte assumed most frequent in the
/// plaintext.
pub open spec fn most_common_key(data: Seq<u8>, key_length: nat, common: u8) -> Seq<u8> {
    Seq::new(
        key_length,
        |i: int| most_common_byte(residue_class(data, i as nat, key_length)) ^ common,
    )
}

/// A class has only one most frequent byte.
pub proof fn lemma_most_common_unique(class: Seq<u8>, a: u8, b: u8)
    requires
        is_most_common(class, a),
        is_most_common(class, b),
    ensures
        a == b,
{
    if a < b {
        assert(frequency(class, a) < frequency(class, b));
        assert(frequency(class, b) <= frequency(class, a));
    } else if b < a {
        assert(frequency(class, b) < frequency(class, a));
        assert(frequency(class, a) <= frequency(class, b));
    }
}

/// The most frequent byte among the values below `upto`, the smallest of
/// them where several are equally frequent.
spec fn leader(class: Seq<u8>, upto: nat) -> u8
    decreases upto,
{
    if upto <= 1 {
        0
    } else {
        let before = leader(class, (upto - 1) as nat);
        if frequency(class, (upto - 1) as u8) > frequency(class, before) {
            (upto - 1) as u8
        } else {
            before
        }
    }
}

proof fn lemma_leader_leads(class: Seq<u8>, upto: nat)
    requires
        1 <= upto <= 256,
    ensures
        leader(class, upto) < upto,
        forall|other: u8|
            #![trigger frequency(class, other)]
            other < upto ==> frequency(class, other) <= frequency(class, leader(class, upto)),
        forall|other: u8|
            #![trigger frequency(class, other)]
            other < leader(class, upto) ==> frequency(class, other) < frequency(
                class,
                leader(class, upto),
            ),
    decreases upto,
{
    if upto > 1 {
        lemma_leader_leads(class, (upto - 1) as nat);
    }
}

/// Every class has a most frequent byte, and `most_common_byte` is it.
pub proof fn lemma_most_common_exists(class: Seq<u8>)
    ensures
        is_most_common(class, most_common_byte(class)),
{
    lemma_leader_leads(class, 256);
    let found = leader(class, 256);
    assert(is_most_common(class, found));
}

/// The entry of a frequency table with the highest count, the first of them
/// where several are equal.
pub fn most_frequent(table: &[usize; 256]) -> (value: u8)
    ensures
        forall|other: u8| table@[other as int] <= table@[value as int],
        forall|other: u8| other < value ==> table@[other as int] < table@[value as int],
{
    let mut best: usize = 0;
    let mut i: usize = 1;
    while i < 256
        invariant
            1 <= i <= 256,
            best < i,
            forall|j: int| 0 <= j < i ==> table@[j] <= table@[best as int],
            forall|j: int| 0 <= j < best ==> table@[j] < table@[best as int],
        decreases 256 - i,
    {
        if table[i] > table[best] {
            best = i;
        }
        i += 1;
    }
    best as u8
}

/// Frequency analysis: each key byte is taken from the most frequent byte of
/// its residue class.
pub struct MostCommonMethod {
    /// The byte assumed to be the most frequent one of the plaintext.
    pub common: u8,
}

impl GuessMethod for MostCommonMethod {
    open spec fn validity(&self, data: Seq<u8>, key_length: nat) -> Result<
        Advisory,
        AnalysisError,
    > {
        match common_validity(data, key_length) {
            Some(error) => Err(error),
            None => if data.len() / key_length < MIN_SAMPLES {
                Ok(Advisory::SmallSample)
            } else {
                Ok(Advisory::Clear)
            },
        }
    }

    open spec fn trials(&self, data: Seq<u8>, key_length: nat) -> Seq<(bool, Seq<u8>)> {
        seq![(true, most_common_key(data, key_length, self.common))]
    }

    open spec fn must_find(&self) -> bool {
        false
    }

    fn is_valid(&self, data: &[u8], context: &Context) -> (verdict: Result<Advisory, AnalysisError>) {
        if data.len() == 0 {
            return Err(AnalysisError::InvalidParameters(Constraint::EmptyData));
        }
        if context.key_length == 0 {
            return Err(AnalysisError::InvalidParameters(Constraint::ZeroKeyLength));
        }
        if data.len() / context.key_length < MIN_SAMPLES {
            Ok(Advisory::SmallSample)
        } else {
            Ok(Advisory::Clear)
        }
    }

    fn positions(&self, data: &[u8], context: &Context) -> (count: usize) {
        1
    }

    fn examine(&self, data: &[u8], context: &Context, at: usize) -> (key: Option<ArrVec>) {
        let key_length = context.key_length;
        let ghost expected = most_common_key(data@, key_length as nat, self.common);
        let mut key = ArrVec::new();
        let mut i: usize = 0;
        while i < key_length
            invariant
                i <= key_length,
                key_length > 0,
                expected == most_common_key(data@, key_length as nat, self.common),
                key@ == expected.take(i as int),
            decreases key_length - i,
        {
            let table = frequency_table(data, i, key_length);
            let most_freq = most_frequent(&table);
            proof {
                let class = residue_class(data@, i as nat, key_length as nat);
                assert forall|other: u8|
                    #![trigger frequency(class, other)]
                    frequency(class, other) <= frequency(class, most_freq) && (other < most_freq
                        ==> frequency(class, other) < frequency(class, most_freq)) by {
                    assert(table@[other as int] == frequency(class, other));
                    assert(table@[most_freq as int] == frequency(class, most_freq));
                }
                assert(is_most_common(class, most_freq));
                lemma_most_common_unique(class, most_freq, most_common_byte(class));
                assert(expected.take(i as int).push(most_freq ^ self.common) =~= expected.take(
                    i + 1,
                ));
            }
            key.push(most_freq ^ self.common);
            i += 1;
        }
        assert(expected.take(key_length as int) =~= expected);
        Some(key)
    }

    fn requires_candidate(&self) -> (required: bool) {
        false
    }
}

/// `text` with each byte XOR-ed with the byte `key_length` places after it.
/// In ciphertext this cancels a repeating key of that length.
pub open spec fn xor_differences(text: Seq<u8>, key_length: nat) -> Seq<u8> {
    Seq::new((text.len() - key_length) as nat, |i: int| text[i] ^ text[i + key_length])
}

/// Whether the differences of the crib occur in the differences of the
/// ciphertext at position `at`.
pub open spec fn fingerprint_at(data: Seq<u8>, crib: Seq<u8>, key_length: nat, at: int) -> bool {
    let wanted = xor_differences(crib, key_length);
    let stream = xor_differences(data, key_length);
    0 <= at && at + wanted.len() <= stream.len() && stream.subrange(at, at + wanted.len())
        == wanted
}

/// `text` rotated to the right: its last `by` bytes move to the front.
pub open spec fn rotate_right(text: Seq<u8>, by: int) -> Seq<u8> {
    text.skip(text.len() - by) + text.take(text.len() - by)
}

/// The ciphertext from position `at` on, XOR-ed with the start of the crib:
/// the key as it lies at that position.
pub open spec fn crib_xor(data: Seq<u8>, crib: Seq<u8>, key_length: nat, at: int) -> Seq<u8> {
    Seq::new(key_length, |j: int| crib[j] ^ data[at + j])
}

/// The key that follows from the crib lying at position `at` of the
/// plaintext, turned so that it starts with the key byte of position 0.
pub open spec fn crib_key(data: Seq<u8>, crib: Seq<u8>, key_length: nat, at: int) -> Seq<u8> {
    rotate_right(crib_xor(data, crib, key_length, at), at % (key_length as int))
}

/// The trials of key elimination at the positions below `upto`: whether the
/// crib's differences lie there, and the key that the position gives.
pub open spec fn elimination_trials(data: Seq<u8>, crib: Seq<u8>, key_length: nat, upto: nat) -> Seq<
    (bool, Seq<u8>),
> {
    Seq::new(
        upto,
        |at: int|
            (fingerprint_at(data, crib, key_length, at), crib_key(data, crib, key_length, at)),
    )
}

/// Whether the differences of the crib occur in the differences of the
/// ciphertext at position `at`.
pub fn fingerprint_matches(data: &[u8], crib: &[u8], key_length: usize, at: usize) -> (found: bool)
    requires
        key_length <= crib@.len(),
        at + crib@.len() <= data@.len(),
    ensures
        found == fingerprint_at(data@, crib@, key_length as nat, at as int),
{
    let ghost wanted = xor_differences(crib@, key_length as nat);
    let ghost stream = xor_differences(data@, key_length as nat);
    let ghost window = stream.subrange(at as int, at + wanted.len());
    let count = crib.len() - key_length;
    let limit = data.len();
    let mut i: usize = 0;
    while i < count
        invariant
            i <= count,
            limit == data@.len(),
            count == crib@.len() - key_length,
            at + crib@.len() <= data@.len(),
            wanted == xor_differences(crib@, key_length as nat),
            stream == xor_differences(data@, key_length as nat),
            window == stream.subrange(at as int, at + wanted.len()),
            forall|j: int| 0 <= j < i ==> window[j] == wanted[j],
        decreases count - i,
    {
        if data[at + i] ^ data[at + i + key_length] != crib[i] ^ crib[i + key_length] {
            assert(window[i as int] != wanted[i as int]);
            return false;
        }
        i += 1;
    }
    assert(window =~= wanted);
    true
}

/// The key that follows from the crib lying at position `at`.
pub fn candidate_key(data: &[u8], crib: &[u8], key_length: usize, at: usize) -> (key: ArrVec)
    requires
        0 < key_length <= crib@.len(),
        at + crib@.len() <= data@.len(),
    ensures
        key@ == crib_key(data@, crib@, key_length as nat, at as int),
        key@.len() == key_length,
{
    let turn = at % key_length;
    let ghost plain = crib_xor(data@, crib@, key_length as nat, at as int);
    let ghost expected = crib_key(data@, crib@, key_length as nat, at as int);
    let limit = data.len();
    let mut key = ArrVec::new();
    let mut i: usize = 0;
    while i < key_length
        invariant
            i <= key_length,
            limit == data@.len(),
            0 < key_length <= crib@.len(),
            at + crib@.len() <= data@.len(),
            turn == at % key_length,
            turn < key_length,
            plain == crib_xor(data@, crib@, key_length as nat, at as int),
            expected == rotate_right(plain, turn as int),
            key@ == expected.take(i as int),
        decreases key_length - i,
    {
        let source = if i < turn {
            key_length - turn + i
        } else {
            i - turn
        };
        let byte = crib[source] ^ data[at + source];
        proof {
            assert(expected[i as int] == plain[source as int]);
            assert(expected.take(i as int).push(byte) =~= expected.take(i + 1));
        }
        key.push(byte);
        i += 1;
    }
    assert(expected.take(key_length as int) =~= expected);
    key
}

/// Whether one of `keys` holds the same bytes as `key`.
pub fn contains_key(keys: &Vec<ArrVec>, key: &ArrVec) -> (found: bool)
    ensures
        found == key_seqs(keys@).contains(key@),
{
    let mut i: usize = 0;
    while i < keys.len()
        invariant
            i <= keys@.len(),
            forall|j: int| 0 <= j < i ==> key_seqs(keys@)[j] != key@,
        decreases keys@.len() - i,
    {
        if keys[i].holds(key.as_slice()) {
            assert(key_seqs(keys@)[i as int] == key@);
            return true;
        }
        i += 1;
    }
    false
}

/// Appends `key` to `keys` unless a key of the same bytes is there already.
pub fn push_distinct(keys: &mut Vec<ArrVec>, key: ArrVec)
    ensures
        key_seqs(final(keys)@) == keep_distinct(key_seqs(old(keys)@), true, key@),
{
    if !contains_key(keys, &key) {
        keys.push(key);
        assert(key_seqs(keys@) =~= key_seqs(old(keys)@).push(key@));
    }
}

/// Key elimination: the key cancels out of ciphertext bytes that lie one key
/// length apart, so the crib's own differences mark where the crib lies.
pub struct KeyEliminationMethod<'a> {
    /// A fragment of text assumed to occur in the plaintext.
    pub crib: &'a [u8],
}

impl<'a> GuessMethod for KeyEliminationMethod<'a> {
    open spec fn validity(&self, data: Seq<u8>, key_length: nat) -> Result<
        Advisory,
        AnalysisError,
    > {
        match common_validity(data, key_length) {
            Some(error) => Err(error),
            None => if key_length >= self.crib@.len() {
                Err(AnalysisError::InvalidParameters(Constraint::CribNotLongerThanKey))
            } else if self.crib@.len() > data.len() {
                Err(AnalysisError::InvalidParameters(Constraint::CribLongerThanData))
            } else {
                Ok(Advisory::Clear)
            },
        }
    }

    open spec fn trials(&self, data: Seq<u8>, key_length: nat) -> Seq<(bool, Seq<u8>)> {
        elimination_trials(data, self.crib@, key_length, (data.len() - self.crib@.len() + 1) as nat)
    }

    open spec fn must_find(&self) -> bool {
        false
    }

    fn is_valid(&self, data: &[u8], context: &Context) -> (verdict: Result<Advisory, AnalysisError>) {
        if data.len() == 0 {
            return Err(AnalysisError::InvalidParameters(Constraint::EmptyData));
        }
        if context.key_length == 0 {
            return Err(AnalysisError::InvalidParameters(Constraint::ZeroKeyLength));
        }
        if context.key_length >= self.crib.len() {
            return Err(AnalysisError::InvalidParameters(Constraint::CribNotLongerThanKey));
        }
        if self.crib.len() > data.len() {
            return Err(AnalysisError::InvalidParameters(Constraint::CribLongerThanData));
        }
        Ok(Advisory::Clear)
    }

    fn positions(&self, data: &[u8], context: &Context) -> (count: usize) {
        data.len() - self.crib.len() + 1
    }

    fn examine(&self, data: &[u8], context: &Context, at: usize) -> (key: Option<ArrVec>) {
        if fingerprint_matches(data, self.crib, context.key_length, at) {
            Some(candidate_key(data, self.crib, context.key_length, at))
        } else {
            None
        }
    }

    fn requires_candidate(&self) -> (required: bool) {
        false
    }
}

/// Number of bytes of the search text that have to match in a row for the text
/// to count as found: one less than its length. The last byte is not compared.
pub open spec fn match_goal(target_len: nat) -> int {
    target_len - 1
}

/// The match counter after the first `upto` bytes of `stream`: a byte equal to
/// the next byte of `target` advances it by one, any other byte sets it back
/// to zero.
pub open spec fn run_length(stream: Seq<u8>, target: Seq<u8>, upto: nat) -> nat
    decreases upto,
{
    if upto == 0 {
        0
    } else {
        let before = run_length(stream, target, (upto - 1) as nat);
        if before < target.len() && stream[upto - 1] == target[before as int] {
            before + 1
        } else {
            0
        }
    }
}

/// Whether the match counter reaches its goal somewhere in `stream`.
pub open spec fn has_run(stream: Seq<u8>, target: Seq<u8>) -> bool {
    exists|upto: nat|
        upto <= stream.len() && #[trigger] run_length(stream, target, upto) >= match_goal(
            target.len(),
        )
}

/// Whether the crib at position `at` gives a key under which the plaintext
/// shows the search text.
pub open spec fn plausible_at(
    data: Seq<u8>,
    crib: Seq<u8>,
    target: Seq<u8>,
    key_length: nat,
    at: int,
) -> bool {
    has_run(xor_stream(data, crib_key(data, crib, key_length, at)), target)
}

/// The trials of the crib search at the positions below `upto`.
pub open spec fn search_trials(
    data: Seq<u8>,
    crib: Seq<u8>,
    target: Seq<u8>,
    key_length: nat,
    upto: nat,
) -> Seq<(bool, Seq<u8>)> {
    Seq::new(
        upto,
        |at: int|
            (
                plausible_at(data, crib, target, key_length, at),
                crib_key(data, crib, key_length, at),
            ),
    )
}

/// Whether `matched` bytes in a row are enough for a search text of
/// `target_len` bytes.
pub fn goal_reached(matched: usize, target_len: usize) -> (reached: bool)
    requires
        target_len >= 1,
    ensures
        reached == (matched >= match_goal(target_len as nat)),
{
    matched >= target_len - 1
}

/// Scans `stream` once for `target` with a match counter and says whether the
/// counter reached its goal.
pub fn contains_run(stream: &[u8], target: &[u8]) -> (found: bool)
    requires
        target@.len() >= 1,
    ensures
        found == has_run(stream@, target@),
{
    let mut matched: usize = 0;
    if goal_reached(matched, target.len()) {
        assert(run_length(stream@, target@, 0) >= match_goal(target@.len()));
        return true;
    }
    let mut i: usize = 0;
    while i < stream.len()
        invariant
            i <= stream@.len(),
            target@.len() >= 1,
            matched == run_length(stream@, target@, i as nat),
            forall|upto: nat|
                upto <= i ==> #[trigger] run_length(stream@, target@, upto) < match_goal(
                    target@.len(),
                ),
        decreases stream@.len() - i,
    {
        if stream[i] == target[matched] {
            matched += 1;
        } else {
            matched = 0;
        }
        assert(matched == run_length(stream@, target@, (i + 1) as nat));
        if goal_reached(matched, target.len()) {
            return true;
        }
        i += 1;
    }
    false
}

/// Crib search: every position of the crib is tried, and a key is kept where
/// the plaintext it gives shows the search text.
pub struct CribSearchMethod<'a> {
    /// A fragment of text assumed to occur in the plaintext.
    pub crib: &'a [u8],
    /// Text that the plaintext of the right key is expected to show.
    pub search_target: &'a [u8],
}

impl<'a> GuessMethod for CribSearchMethod<'a> {
    open spec fn validity(&self, data: Seq<u8>, key_length: nat) -> Result<
        Advisory,
        AnalysisError,
    > {
        match common_validity(data, key_length) {
            Some(error) => Err(error),
            None => if self.search_target@.len() == 0 {
                Err(AnalysisError::InvalidParameters(Constraint::EmptySearchTarget))
            } else if key_length > self.crib@.len() {
                Err(AnalysisError::InvalidParameters(Constraint::CribShorterThanKey))
            } else if self.crib@.len() > data.len() {
                Err(AnalysisError::InvalidParameters(Constraint::CribLongerThanData))
            } else {
                Ok(Advisory::Clear)
            },
        }
    }

    open spec fn trials(&self, data: Seq<u8>, key_length: nat) -> Seq<(bool, Seq<u8>)> {
        search_trials(
            data,
            self.crib@,
            self.search_target@,
            key_length,
            (data.len() - self.crib@.len()) as nat,
        )
    }

    open spec fn must_find(&self) -> bool {
        true
    }

    fn is_valid(&self, data: &[u8], context: &Context) -> (verdict: Result<Advisory, AnalysisError>) {
        if data.len() == 0 {
            return Err(AnalysisError::InvalidParameters(Constraint::EmptyData));
        }
        if context.key_length == 0 {
            return Err(AnalysisError::InvalidParameters(Constraint::ZeroKeyLength));
        }
        if self.search_target.len() == 0 {
            return Err(AnalysisError::InvalidParameters(Constraint::EmptySearchTarget));
        }
        if context.key_length > self.crib.len() {
            return Err(AnalysisError::InvalidParameters(Constraint::CribShorterThanKey));
        }
        if self.crib.len() > data.len() {
            return Err(AnalysisError::InvalidParameters(Constraint::CribLongerThanData));
        }
        Ok(Advisory::Clear)
    }

    fn positions(&self, data: &[u8], context: &Context) -> (count: usize) {
        data.len() - self.crib.len()
    }

    fn examine(&self, data: &[u8], context: &Context, at: usize) -> (key: Option<ArrVec>) {
        let key = candidate_key(data, self.crib, context.key_length, at);
        let plain = decrypt(data, key.as_slice());
        if contains_run(plain.as_slice(), self.search_target) {
            Some(key)
        } else {
            None
        }
    }

    fn requires_candidate(&self) -> (required: bool) {
        true
    }
}

/// What `guess_key` gives for a method, a ciphertext and a key length: the
/// method's verdict where that is an error, no candidate at all where the
/// method has to find one and found none, and else its candidates.
pub open spec fn guess_outcome<M: GuessMethod + ?Sized>(method: &M, data: Seq<u8>, key_length: nat) -> Result<
    Seq<Seq<u8>>,
    AnalysisError,
> {
    match method.validity(data, key_length) {
        Err(error) => Err(error),
        Ok(_) => if method.must_find() && candidates(method, data, key_length).len() == 0 {
            Err(AnalysisError::NoCandidateFound)
        } else {
            Ok(candidates(method, data, key_length))
        },
    }
}

/// Validates the inputs and, where they are valid, recovers the candidate keys
/// with `method`.
pub fn guess_key<M: GuessMethod + ?Sized>(data: &[u8], method: &M, context: &Context) -> (outcome: Result<
    Vec<ArrVec>,
    AnalysisError,
>)
    ensures
        match outcome {
            Ok(keys) => guess_outcome(method, data@, context.key_length as nat) == Ok::<
                Seq<Seq<u8>>,
                AnalysisError,
            >(key_seqs(keys@)),
            Err(error) => guess_outcome(method, data@, context.key_length as nat) == Err::<
                Seq<Seq<u8>>,
                AnalysisError,
            >(error),
        },
{
    match method.is_valid(data, context) {
        Err(error) => Err(error),
        Ok(_) => {
            let keys = method.guess_key(data, context);
            assert(key_seqs(keys@).len() == keys@.len());
            if method.requires_candidate() && keys.len() == 0 {
                Err(AnalysisError::NoCandidateFound)
            } else {
                Ok(keys)
            }
        },
    }
}

} // verus!
