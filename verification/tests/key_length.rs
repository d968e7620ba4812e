use xanal::decrypt;
use xanal::kl_anal::{
    analyse_key_length, calc_ic, calc_ic_for_key_length, class_size, key_length_scores,
    key_length_trials, score_distance, select_key_length, ENGLISH_IC, EPSILON, MAX_TEXT_LEN, PPM,
};
use xanal::residue::frequency_table;

const SAMPLE: &[u8] = b"It was the best of times, it was the worst of times, it was the age of \
wisdom, it was the age of foolishness, it was the epoch of belief, it was the epoch of \
incredulity, it was the season of Light, it was the season of Darkness, it was the spring of \
hope, it was the winter of despair, we had everything before us, we had nothing before us, we \
were all going direct to Heaven, we were all going direct the other way - in short, the period \
was so far like the present period, that some of its noisiest authorities insisted on its being \
received, for good or for evil, in the superlative degree of comparison only.";

#[test]
fn frequency_table_counts_a_residue_class() {
    let table = frequency_table(b"abcabcabd", 2, 3);
    assert_eq!(table[b'c' as usize], 2);
    assert_eq!(table[b'd' as usize], 1);
    assert_eq!(table[b'a' as usize], 0);
    assert_eq!(table.iter().sum::<usize>(), 3);
}

#[test]
fn frequency_table_of_an_offset_past_the_end_is_empty() {
    let table = frequency_table(b"abc", 3, 1);
    assert_eq!(table.iter().sum::<usize>(), 0);
    let table = frequency_table(b"abc", 7, 2);
    assert_eq!(table.iter().sum::<usize>(), 0);
}

#[test]
fn class_size_counts_the_positions_of_a_class() {
    assert_eq!(class_size(b"0123456789", 0, 3), 4);
    assert_eq!(class_size(b"0123456789", 1, 3), 3);
    assert_eq!(class_size(b"0123456789", 2, 3), 3);
    assert_eq!(class_size(b"0123456789", 9, 3), 1);
    assert_eq!(class_size(b"0123456789", 10, 3), 0);
    assert_eq!(class_size(b"", 0, 1), 0);
}

#[test]
fn calc_ic_is_coincidences_over_pairs() {
    // a: 2, b: 2 gives 2 * 1 + 2 * 1 = 4 coincidences among 4 * 3 = 12 pairs.
    assert_eq!(calc_ic(b"aabb", 0, 1), 333_333);
    // a: 3, b: 1 gives 6 coincidences among 12 pairs.
    assert_eq!(calc_ic(b"aaba", 0, 1), 500_000);
    assert_eq!(calc_ic(b"abcd", 0, 1), 0);
    assert_eq!(calc_ic(b"zzzz", 0, 1), PPM);
}

#[test]
fn calc_ic_looks_at_one_class_only() {
    // offset 1, step 2 of "xaxaxb" is "aab": 2 coincidences among 6 pairs.
    assert_eq!(calc_ic(b"xaxaxb", 1, 2), 333_333);
    assert_eq!(calc_ic(b"xaxaxb", 0, 2), PPM);
}

#[test]
fn calc_ic_of_a_class_of_less_than_two_bytes_is_zero() {
    assert_eq!(calc_ic(b"", 0, 1), 0);
    assert_eq!(calc_ic(b"a", 0, 1), 0);
    assert_eq!(calc_ic(b"aaaa", 3, 4), 0);
    assert_eq!(calc_ic(b"aaaa", 9, 4), 0);
}

#[test]
fn calc_ic_for_key_length_is_the_mean_of_the_classes() {
    assert_eq!(calc_ic_for_key_length(b"abababab", 2), PPM);
    // classes "aab" and "xxx": (333_333 + 1_000_000) / 2
    assert_eq!(calc_ic_for_key_length(b"axaxbx", 2), 666_666);
    // classes "aa", "b", "c": (1_000_000 + 0 + 0) / 3
    assert_eq!(calc_ic_for_key_length(b"abca", 3), 333_333);
}

#[test]
fn key_length_scores_has_one_score_for_each_trial_length() {
    let scores = key_length_scores(b"abababab", 3);
    assert_eq!(scores.len(), 3);
    assert_eq!(scores[0], calc_ic_for_key_length(b"abababab", 1));
    assert_eq!(scores[1], PPM);
    assert_eq!(scores[2], calc_ic_for_key_length(b"abababab", 3));
    assert_eq!(key_length_scores(b"abc", 10).len(), 3);
    assert_eq!(key_length_scores(b"abc", 0).len(), 0);
    assert_eq!(key_length_scores(b"", 10).len(), 0);
}

#[test]
fn score_distance_is_the_absolute_difference() {
    assert_eq!(score_distance(67_000, 66_000), 1_000);
    assert_eq!(score_distance(66_000, 67_000), 1_000);
    assert_eq!(score_distance(5, 5), 0);
    assert_eq!(score_distance(0, u64::MAX), u64::MAX);
}

#[test]
fn select_key_length_takes_the_closest_score() {
    assert_eq!(select_key_length(&[50_000, 66_000, 40_000], ENGLISH_IC), 2);
    assert_eq!(select_key_length(&[67_000, 66_000, 40_000], ENGLISH_IC), 1);
    assert_eq!(select_key_length(&[10_000, 20_000, 90_000, 30_000, 70_000], ENGLISH_IC), 5);
}

#[test]
fn select_key_length_keeps_the_shorter_length_on_a_draw() {
    assert_eq!(select_key_length(&[40_000, 66_000, 68_000], ENGLISH_IC), 2);
    assert_eq!(select_key_length(&[66_000, 66_000, 66_000], ENGLISH_IC), 1);
}

#[test]
fn select_key_length_passes_over_a_multiple_with_the_same_score() {
    // Length 4 is closer than length 2, but it is a multiple of 2 and scores
    // the same up to the tolerance.
    assert_eq!(select_key_length(&[50_000, 66_000, 40_000, 66_500], ENGLISH_IC), 2);
    assert_eq!(select_key_length(&[50_000, 66_000, 40_000, 66_000 + EPSILON], ENGLISH_IC), 2);
}

#[test]
fn select_key_length_takes_a_multiple_that_scores_clearly_better() {
    assert_eq!(select_key_length(&[50_000, 64_000, 40_000, 66_500], ENGLISH_IC), 4);
    assert_eq!(select_key_length(&[50_000, 65_000, 40_000, 66_001], ENGLISH_IC), 4);
}

#[test]
fn select_key_length_takes_a_closer_length_that_is_no_multiple() {
    assert_eq!(select_key_length(&[50_000, 66_000, 66_500], ENGLISH_IC), 3);
}

#[test]
fn select_key_length_measures_the_tolerance_between_scores() {
    // 66_200 and 67_500 lie on either side of the target: their distances to
    // it differ by 300, the scores by 1_300, so the multiple is no repetition.
    assert_eq!(select_key_length(&[66_200, 67_500], ENGLISH_IC), 2);
    assert_eq!(select_key_length(&[66_600, 67_300], ENGLISH_IC), 1);
}

#[test]
fn select_key_length_without_scores_is_one() {
    assert_eq!(select_key_length(&[], ENGLISH_IC), 1);
}

#[test]
fn analyse_key_length_stays_within_its_bounds() {
    for max_length in 1..12usize {
        for len in 1..20usize {
            let data = &SAMPLE[..len];
            let key_length = analyse_key_length(data, max_length, ENGLISH_IC);
            assert!(key_length >= 1);
            assert!(key_length <= max_length.min(len));
        }
    }
}

#[test]
fn analyse_key_length_of_nothing_is_one() {
    assert_eq!(analyse_key_length(b"", 32, ENGLISH_IC), 1);
    assert_eq!(analyse_key_length(SAMPLE, 0, ENGLISH_IC), 1);
}

#[test]
fn analyse_key_length_selects_among_its_scores() {
    let data = decrypt(SAMPLE, b"\x10\x80\x33\xf1\x5c");
    let scores = key_length_scores(&data, 9);
    assert_eq!(analyse_key_length(&data, 9, ENGLISH_IC), select_key_length(&scores, ENGLISH_IC));
}

#[test]
fn analyse_key_length_recovers_the_length_of_the_key() {
    assert!(SAMPLE.len() >= 30 * 5);
    let data = decrypt(SAMPLE, b"\x10\x80\x33\xf1\x5c");
    assert_eq!(analyse_key_length(&data, 9, ENGLISH_IC), 5);
    let data = decrypt(SAMPLE, b"\xa7\x02\x4d");
    assert_eq!(analyse_key_length(&data, 5, ENGLISH_IC), 3);
    let data = decrypt(SAMPLE, b"kEy!\x00\x99\x12");
    assert_eq!(analyse_key_length(&data, 13, ENGLISH_IC), 7);
}

#[test]
fn the_units_are_parts_per_million() {
    assert_eq!(PPM, 1_000_000);
    assert_eq!(EPSILON, 1_000);
    assert_eq!(ENGLISH_IC, 67_000);
    assert_eq!(MAX_TEXT_LEN, (1 << 48) - 1);
}

#[test]
fn key_length_trials_records_every_trial_length() {
    let scores = [50_000, 66_000, 40_000, 66_500, 66_900, 66_950];
    let trials = key_length_trials(&scores, ENGLISH_IC);
    assert_eq!(trials.len(), scores.len());
    for (i, trial) in trials.iter().enumerate() {
        assert_eq!(trial.key_length, i + 1);
        assert_eq!(trial.score, scores[i]);
    }
    let passed_over: Vec<Option<usize>> = trials.iter().map(|trial| trial.multiple_of).collect();
    // Length 4 repeats length 2; length 5 is preferred next; length 6 is
    // closer still but no multiple of 5.
    assert_eq!(passed_over, vec![None, None, None, Some(2), None, None]);
    assert_eq!(select_key_length(&scores, ENGLISH_IC), 6);
    assert!(key_length_trials(&[], ENGLISH_IC).is_empty());
}

#[test]
fn the_ciphertext_scores_as_the_plaintext_at_multiples_of_the_key_length() {
    let key = b"\x10\x80\x33\xf1\x5c";
    let data = decrypt(SAMPLE, key);
    for trial_length in [5usize, 10, 15, 20, 600] {
        assert_eq!(
            calc_ic_for_key_length(&data, trial_length),
            calc_ic_for_key_length(SAMPLE, trial_length)
        );
    }
    assert_ne!(calc_ic_for_key_length(&data, 4), calc_ic_for_key_length(SAMPLE, 4));
    assert_eq!(calc_ic(&data, 3, 5), calc_ic(SAMPLE, 3, 5));
}
