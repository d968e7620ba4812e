//! What holds of the candidate keys, whatever the ciphertext.

use vstd::prelude::*;
use vstd::arithmetic::div_mod::{
    lemma_fundamental_div_mod,
    lemma_fundamental_div_mod_converse,
    lemma_mod_add_multiples_vanish,
    lemma_mod_bound,
};
use crate::error::AnalysisError;
use crate::key_guess::{
    candidates,
    crib_key,
    crib_xor,
    distinct_hits,
    elimination_trials,
    fingerprint_at,
    guess_outcome,
    has_run,
    most_common_key,
    plausible_at,
    search_trials,
    xor_differences,
    CribSearchMethod,
    GuessMethod,
    KeyEliminationMethod,
    MostCommonMethod,
};
use crate::kl_anal::{least, lemma_estimate_in_range};
use crate::session::{findings, prospect, Config, Findings, Method, Prospect};
use crate::{lemma_decrypt_involution, xor_stream};

verus! {

/// A key that a hitting trial gives is among the distinct hits.
pub proof fn lemma_hit_is_kept(trials: Seq<(bool, Seq<u8>)>, i: int)
    requires
        0 <= i < trials.len(),
        trials[i].0,
    ensures
        distinct_hits(trials).contains(trials[i].1),
    decreases trials.len(),
{
    let before = distinct_hits(trials.drop_last());
    let kept = distinct_hits(trials);
    if i == trials.len() - 1 {
        if !before.contains(trials[i].1) {
            assert(kept[kept.len() - 1] == trials[i].1);
        }
    } else {
        lemma_hit_is_kept(trials.drop_last(), i);
        let at = choose|j: int| 0 <= j < before.len() && before[j] == trials[i].1;
        assert(kept[at] == trials[i].1);
    }
}

/// Every one of the distinct hits is the key of a trial that hit.
pub proof fn lemma_kept_is_hit(trials: Seq<(bool, Seq<u8>)>, key: Seq<u8>)
    requires
        distinct_hits(trials).contains(key),
    ensures
        exists|i: int| 0 <= i < trials.len() && (#[trigger] trials[i]).0 && trials[i].1 == key,
    decreases trials.len(),
{
    if trials.len() > 0 {
        let before = distinct_hits(trials.drop_last());
        let last = trials.len() - 1;
        if before.contains(key) {
            lemma_kept_is_hit(trials.drop_last(), key);
            let i = choose|i: int|
                0 <= i < trials.drop_last().len() && (#[trigger] trials.drop_last()[i]).0
                    && trials.drop_last()[i].1 == key;
            assert(trials[i] == trials.drop_last()[i]);
        } else {
            let kept = distinct_hits(trials);
            let at = choose|j: int| 0 <= j < kept.len() && kept[j] == key;
            assert(kept == before.push(trials[last].1));
            assert(at == before.len());
            assert(trials[last].0 && trials[last].1 == key);
        }
    }
}

/// No key occurs twice among the distinct hits.
pub proof fn lemma_hits_are_distinct(trials: Seq<(bool, Seq<u8>)>)
    ensures
        distinct_hits(trials).no_duplicates(),
    decreases trials.len(),
{
    if trials.len() > 0 {
        lemma_hits_are_distinct(trials.drop_last());
    }
}

/// Where no trial hits, there is no key.
pub proof fn lemma_no_hit_no_key(trials: Seq<(bool, Seq<u8>)>)
    requires
        forall|i: int| 0 <= i < trials.len() ==> !(#[trigger] trials[i]).0,
    ensures
        distinct_hits(trials).len() == 0,
{
    let kept = distinct_hits(trials);
    if kept.len() > 0 {
        assert(kept.contains(kept[0]));
        lemma_kept_is_hit(trials, kept[0]);
    }
}

/// Where a trial hits, there is a key.
pub proof fn lemma_hit_gives_key(trials: Seq<(bool, Seq<u8>)>, i: int)
    requires
        0 <= i < trials.len(),
        trials[i].0,
    ensures
        distinct_hits(trials).len() > 0,
{
    lemma_hit_is_kept(trials, i);
}

/// The position from which a byte of the turned key comes lies `at` places
/// before it, counted around the key.
proof fn lemma_turned_index(at: int, key_length: int, i: int)
    requires
        0 <= at,
        0 <= i < key_length,
    ensures
        ({
            let turn = at % key_length;
            let source = if i < turn {
                key_length - turn + i
            } else {
                i - turn
            };
            0 <= source < key_length && (at + source) % key_length == i
        }),
{
    let turn = at % key_length;
    let q = at / key_length;
    lemma_fundamental_div_mod(at, key_length);
    lemma_mod_bound(at, key_length);
    assert(key_length * q == q * key_length) by (nonlinear_arith);
    if i < turn {
        let source = key_length - turn + i;
        assert((q + 1) * key_length == q * key_length + key_length) by (nonlinear_arith);
        lemma_fundamental_div_mod_converse(at + source, key_length, q + 1, i);
    } else {
        let source = i - turn;
        lemma_fundamental_div_mod_converse(at + source, key_length, q, i);
    }
}

/// Every key that a crib gives has the length of the key.
pub proof fn lemma_crib_key_len(data: Seq<u8>, crib: Seq<u8>, key_length: nat, at: int)
    requires
        key_length > 0,
        0 <= at,
    ensures
        crib_key(data, crib, key_length, at).len() == key_length,
{
    lemma_mod_bound(at, key_length as int);
}

/// Where the crib lies in the plaintext at position `at`, that position gives
/// the key itself.
pub proof fn lemma_crib_gives_key(plain: Seq<u8>, key: Seq<u8>, crib: Seq<u8>, at: int)
    requires
        0 < key.len() <= crib.len(),
        0 <= at,
        at + crib.len() <= plain.len(),
        plain.subrange(at, at + crib.len()) == crib,
    ensures
        crib_key(xor_stream(plain, key), crib, key.len(), at) == key,
{
    let data = xor_stream(plain, key);
    let n = key.len() as int;
    let lying = crib_xor(data, crib, key.len(), at);
    let turned = crib_key(data, crib, key.len(), at);
    let turn = at % n;
    lemma_mod_bound(at, n);
    assert forall|j: int| 0 <= j < n implies lying[j] == key[(at + j) % n] by {
        lemma_mod_bound(at + j, n);
        assert(plain[at + j] == plain.subrange(at, at + crib.len())[j]);
        let c = crib[j];
        let k = key[(at + j) % n];
        assert(c ^ (c ^ k) == k) by (bit_vector);
    }
    assert forall|i: int| 0 <= i < n implies turned[i] == key[i] by {
        lemma_turned_index(at, n, i);
    }
    assert(turned =~= key);
}

/// Where the crib lies in the plaintext at position `at`, the differences of
/// the ciphertext show the differences of the crib there: the key has
/// cancelled out.
pub proof fn lemma_crib_leaves_fingerprint(plain: Seq<u8>, key: Seq<u8>, crib: Seq<u8>, at: int)
    requires
        0 < key.len() <= crib.len(),
        0 <= at,
        at + crib.len() <= plain.len(),
        plain.subrange(at, at + crib.len()) == crib,
    ensures
        fingerprint_at(xor_stream(plain, key), crib, key.len(), at),
{
    let data = xor_stream(plain, key);
    let n = key.len() as int;
    let wanted = xor_differences(crib, key.len());
    let stream = xor_differences(data, key.len());
    let window = stream.subrange(at, at + wanted.len());
    assert forall|i: int| 0 <= i < wanted.len() implies window[i] == wanted[i] by {
        lemma_mod_add_multiples_vanish(at + i, n);
        lemma_mod_bound(at + i, n);
        assert((at + i + n) % n == (at + i) % n) by {
            assert(at + i + n == n + (at + i));
        }
        assert(plain[at + i] == plain.subrange(at, at + crib.len())[i]);
        assert(plain[at + i + n] == plain.subrange(at, at + crib.len())[i + n]);
        let a = plain[at + i];
        let b = plain[at + i + n];
        let k = key[(at + i) % n];
        assert((a ^ k) ^ (b ^ k) == a ^ b) by (bit_vector);
    }
    assert(window =~= wanted);
}

/// Key elimination finds the true key: where the plaintext holds the crib at
/// some position and the crib is longer than the key, the key is among the
/// candidates for the ciphertext.
pub proof fn lemma_key_elimination_finds_key(
    method: KeyEliminationMethod,
    plain: Seq<u8>,
    key: Seq<u8>,
    at: int,
)
    requires
        0 < key.len() < method.crib@.len(),
        0 <= at,
        at + method.crib@.len() <= plain.len(),
        plain.subrange(at, at + method.crib@.len()) == method.crib@,
    ensures
        method.validity(xor_stream(plain, key), key.len()) is Ok,
        candidates(&method, xor_stream(plain, key), key.len()).contains(key),
        guess_outcome(&method, xor_stream(plain, key), key.len()) matches Ok(keys)
            && keys.contains(key),
{
    let data = xor_stream(plain, key);
    let crib = method.crib@;
    let upto = (data.len() - crib.len() + 1) as nat;
    let trials = elimination_trials(data, crib, key.len(), upto);
    lemma_crib_leaves_fingerprint(plain, key, crib, at);
    lemma_crib_gives_key(plain, key, crib, at);
    lemma_hit_is_kept(trials, at);
}

/// Every candidate of key elimination has the length of the key, and none
/// occurs twice.
pub proof fn lemma_key_elimination_candidates(
    method: KeyEliminationMethod,
    data: Seq<u8>,
    key_length: nat,
)
    requires
        method.validity(data, key_length) is Ok,
    ensures
        candidates(&method, data, key_length).no_duplicates(),
        forall|i: int|
            0 <= i < candidates(&method, data, key_length).len() ==> (
            #[trigger] candidates(&method, data, key_length)[i]).len() == key_length,
{
    let crib = method.crib@;
    let upto = (data.len() - crib.len() + 1) as nat;
    let trials = elimination_trials(data, crib, key_length, upto);
    let kept = distinct_hits(trials);
    lemma_hits_are_distinct(trials);
    assert forall|i: int| 0 <= i < kept.len() implies (#[trigger] kept[i]).len() == key_length by {
        assert(kept.contains(kept[i]));
        lemma_kept_is_hit(trials, kept[i]);
        let j = choose|j: int|
            0 <= j < trials.len() && (#[trigger] trials[j]).0 && trials[j].1 == kept[i];
        lemma_crib_key_len(data, crib, key_length, j);
    }
}

/// Key elimination refuses a crib that is exactly as long as the key, whatever
/// the ciphertext: the inputs are invalid and nothing is searched.
pub proof fn lemma_key_elimination_rejects_short_crib(
    method: KeyEliminationMethod,
    data: Seq<u8>,
    key_length: nat,
)
    requires
        method.crib@.len() == key_length,
    ensures
        method.validity(data, key_length) matches Err(AnalysisError::InvalidParameters(_)),
        guess_outcome(&method, data, key_length) matches Err(AnalysisError::InvalidParameters(_)),
{
}

/// Every candidate of the crib search has the length of the key, and none
/// occurs twice.
pub proof fn lemma_crib_search_candidates(method: CribSearchMethod, data: Seq<u8>, key_length: nat)
    requires
        method.validity(data, key_length) is Ok,
    ensures
        candidates(&method, data, key_length).no_duplicates(),
        forall|i: int|
            0 <= i < candidates(&method, data, key_length).len() ==> (
            #[trigger] candidates(&method, data, key_length)[i]).len() == key_length,
{
    let crib = method.crib@;
    let upto = (data.len() - crib.len()) as nat;
    let trials = search_trials(data, crib, method.search_target@, key_length, upto);
    let kept = distinct_hits(trials);
    lemma_hits_are_distinct(trials);
    assert forall|i: int| 0 <= i < kept.len() implies (#[trigger] kept[i]).len() == key_length by {
        assert(kept.contains(kept[i]));
        lemma_kept_is_hit(trials, kept[i]);
        let j = choose|j: int|
            0 <= j < trials.len() && (#[trigger] trials[j]).0 && trials[j].1 == kept[i];
        lemma_crib_key_len(data, crib, key_length, j);
    }
}

/// The crib search finds the true key: where the plaintext holds the crib at
/// a position that the search examines, and the plaintext shows the search
/// text, the key is among the candidates for the ciphertext.
pub proof fn lemma_crib_search_finds_key(
    method: CribSearchMethod,
    plain: Seq<u8>,
    key: Seq<u8>,
    at: int,
)
    requires
        0 < key.len() <= method.crib@.len(),
        method.search_target@.len() > 0,
        0 <= at < plain.len() - method.crib@.len(),
        plain.subrange(at, at + method.crib@.len()) == method.crib@,
        has_run(plain, method.search_target@),
    ensures
        method.validity(xor_stream(plain, key), key.len()) is Ok,
        candidates(&method, xor_stream(plain, key), key.len()).contains(key),
        guess_outcome(&method, xor_stream(plain, key), key.len()) matches Ok(keys)
            && keys.contains(key),
{
    let data = xor_stream(plain, key);
    let crib = method.crib@;
    let upto = (data.len() - crib.len()) as nat;
    let trials = search_trials(data, crib, method.search_target@, key.len(), upto);
    lemma_crib_gives_key(plain, key, crib, at);
    lemma_decrypt_involution(plain, key);
    assert(plausible_at(data, crib, method.search_target@, key.len(), at));
    lemma_hit_is_kept(trials, at);
    lemma_hit_gives_key(trials, at);
}

/// A crib search that finds the search text at no position fails for want of
/// a candidate; it does not succeed with an empty list. One that finds it
/// somewhere succeeds with at least one key.
pub proof fn lemma_crib_search_needs_a_match(
    method: CribSearchMethod,
    data: Seq<u8>,
    key_length: nat,
)
    requires
        method.validity(data, key_length) is Ok,
    ensures
        (forall|at: int|
            0 <= at < data.len() - method.crib@.len() ==> !plausible_at(
                data,
                method.crib@,
                method.search_target@,
                key_length,
                at,
            )) <==> guess_outcome(&method, data, key_length) == Err::<
            Seq<Seq<u8>>,
            AnalysisError,
        >(AnalysisError::NoCandidateFound),
        guess_outcome(&method, data, key_length) matches Ok(keys) ==> keys.len() > 0,
{
    let crib = method.crib@;
    let target = method.search_target@;
    let upto = (data.len() - crib.len()) as nat;
    let trials = search_trials(data, crib, target, key_length, upto);
    if forall|at: int| 0 <= at < upto ==> !plausible_at(data, crib, target, key_length, at) {
        lemma_no_hit_no_key(trials);
    } else {
        let at = choose|at: int|
            0 <= at < upto && plausible_at(data, crib, target, key_length, at);
        lemma_hit_gives_key(trials, at);
    }
}

/// Frequency analysis always gives exactly one candidate, of the length of the key.
pub proof fn lemma_most_common_candidates(method: MostCommonMethod, data: Seq<u8>, key_length: nat)
    ensures
        candidates(&method, data, key_length).len() == 1,
        candidates(&method, data, key_length)[0].len() == key_length,
        candidates(&method, data, key_length)[0] == most_common_key(data, key_length, method.common),
{
    let trials = method.trials(data, key_length);
    assert(trials.drop_last() =~= Seq::<(bool, Seq<u8>)>::empty());
    assert(distinct_hits(trials.drop_last()).len() == 0);
    assert(distinct_hits(trials) =~= seq![most_common_key(data, key_length, method.common)]);
}

/// Whatever the method, its candidates all have the length of the key, and
/// none occurs twice.
pub proof fn lemma_candidates_are_keys(method: Method, data: Seq<u8>, key_length: nat)
    requires
        method.validity(data, key_length) is Ok,
    ensures
        candidates(&method, data, key_length).no_duplicates(),
        forall|i: int|
            0 <= i < candidates(&method, data, key_length).len() ==> (
            #[trigger] candidates(&method, data, key_length)[i]).len() == key_length,
{
    match method {
        Method::MostCommon(inner) => {
            lemma_most_common_candidates(inner, data, key_length);
            assert(candidates(&method, data, key_length) == candidates(&inner, data, key_length));
        },
        Method::KeyElimination(inner) => {
            lemma_key_elimination_candidates(inner, data, key_length);
            assert(candidates(&method, data, key_length) == candidates(&inner, data, key_length));
        },
        Method::CribSearch(inner) => {
            lemma_crib_search_candidates(inner, data, key_length);
            assert(candidates(&method, data, key_length) == candidates(&inner, data, key_length));
        },
    }
}

/// An analysis never works with a key length of zero, and a key length that
/// it has estimated itself is no longer than the ciphertext and no longer than
/// the longest length it was to try.
pub proof fn lemma_planned_key_length(data: Seq<u8>, config: Config)
    requires
        prospect(data, config) is Ok,
    ensures
        ({
            let key_length = match prospect(data, config) {
                Ok(Prospect::KeyLength(key_length)) => key_length,
                Ok(Prospect::Search { key_length, .. }) => key_length,
                Err(_) => 0,
            };
            &&& key_length >= 1
            &&& config.specific_key_length is None && config.max_key_length >= 1 ==> key_length
                <= least(config.max_key_length as nat, data.len())
        }),
{
    lemma_estimate_in_range(data, config.max_key_length as nat, config.target_ic);
}

/// An analysis that gives keys gives at least one; each has the length of the
/// key with which the analysis worked, and none occurs twice.
pub proof fn lemma_found_keys_are_keys(data: Seq<u8>, config: Config)
    requires
        findings(data, config) is Ok,
    ensures
        findings(data, config) matches Ok(Findings::Keys { key_length, keys, .. }) ==> {
            &&& keys.len() >= 1
            &&& keys.no_duplicates()
            &&& forall|i: int| 0 <= i < keys.len() ==> (#[trigger] keys[i]).len() == key_length
        },
{
    match prospect(data, config) {
        Ok(Prospect::Search { key_length, advisory }) => {
            lemma_candidates_are_keys(config.method, data, key_length);
        },
        _ => {},
    }
}

} // verus!
