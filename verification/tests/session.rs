use xanal::decrypt;
use xanal::error::{Advisory, AnalysisError, Constraint};
use xanal::key_guess::{CribSearchMethod, KeyEliminationMethod, MostCommonMethod};
use xanal::kl_anal::ENGLISH_IC;
use xanal::session::{conclude, prepare, Method, Outcome, Plan};
use xanal::key_buffer::ArrVec;
use xanal::{run, Config, Context};

const SAMPLE: &[u8] = b"It was the best of times, it was the worst of times, it was the age of \
wisdom, it was the age of foolishness, it was the epoch of belief, it was the epoch of \
incredulity, it was the season of Light, it was the season of Darkness, it was the spring of \
hope, it was the winter of despair, we had everything before us, we had nothing before us, we \
were all going direct to Heaven, we were all going direct the other way - in short, the period \
was so far like the present period, that some of its noisiest authorities insisted on its being \
received, for good or for evil, in the superlative degree of comparison only.";

const KEY: &[u8] = b"\x10\x80\x33\xf1\x5c";

fn config(method: Method) -> Config {
    Config {
        max_key_length: 9,
        specific_key_length: None,
        target_ic: ENGLISH_IC,
        key_length_only: false,
        method,
    }
}

fn keys_of(outcome: Outcome) -> (usize, Advisory, Vec<Vec<u8>>) {
    match outcome {
        Outcome::Keys { key_length, advisory, keys } => {
            (key_length, advisory, keys.iter().map(|key| key.as_slice().to_vec()).collect())
        }
        Outcome::KeyLength(_) => panic!("the analysis stopped at the key length"),
    }
}

#[test]
fn context_holds_the_key_length() {
    assert_eq!(Context::new(7).key_length, 7);
}

#[test]
fn run_estimates_the_key_length_and_recovers_the_key() {
    let data = decrypt(SAMPLE, KEY);
    let outcome = run(&data, &config(Method::MostCommon(MostCommonMethod { common: 0x20 })));
    assert_eq!(keys_of(outcome.unwrap()), (5, Advisory::Clear, vec![KEY.to_vec()]));

    let method = Method::KeyElimination(KeyEliminationMethod { crib: b"the age of wisdom" });
    assert_eq!(
        keys_of(run(&data, &config(method)).unwrap()),
        (5, Advisory::Clear, vec![KEY.to_vec()])
    );

    let method =
        Method::CribSearch(CribSearchMethod { crib: b"wisdom", search_target: b"foolishness" });
    assert_eq!(
        keys_of(run(&data, &config(method)).unwrap()),
        (5, Advisory::Clear, vec![KEY.to_vec()])
    );
}

#[test]
fn run_uses_a_given_key_length_as_it_is() {
    let data = decrypt(SAMPLE, KEY);
    let mut settings = config(Method::KeyElimination(KeyEliminationMethod {
        crib: b"the age of wisdom",
    }));
    settings.specific_key_length = Some(10);
    settings.max_key_length = 1;
    let (key_length, _, keys) = keys_of(run(&data, &settings).unwrap());
    assert_eq!(key_length, 10);
    assert_eq!(keys, vec![[KEY, KEY].concat()]);
}

#[test]
fn run_can_stop_at_the_key_length() {
    let data = decrypt(SAMPLE, KEY);
    let mut settings = config(Method::KeyElimination(KeyEliminationMethod { crib: b"" }));
    settings.key_length_only = true;
    assert!(matches!(run(&data, &settings), Ok(Outcome::KeyLength(5))));
    settings.specific_key_length = Some(12);
    assert!(matches!(run(&data, &settings), Ok(Outcome::KeyLength(12))));
}

#[test]
fn run_passes_the_warning_on() {
    let data = decrypt(&SAMPLE[..100], KEY);
    let mut settings = config(Method::MostCommon(MostCommonMethod { common: 0x20 }));
    settings.specific_key_length = Some(5);
    let (key_length, advisory, keys) = keys_of(run(&data, &settings).unwrap());
    assert_eq!(key_length, 5);
    assert_eq!(advisory, Advisory::SmallSample);
    assert_eq!(keys.len(), 1);
}

#[test]
fn run_rejects_empty_data() {
    let settings = config(Method::MostCommon(MostCommonMethod { common: 0x20 }));
    assert_eq!(
        run(b"", &settings).err(),
        Some(AnalysisError::InvalidParameters(Constraint::EmptyData))
    );
}

#[test]
fn run_rejects_a_zero_key_length() {
    let mut settings = config(Method::MostCommon(MostCommonMethod { common: 0x20 }));
    settings.specific_key_length = Some(0);
    assert_eq!(
        run(b"abc", &settings).err(),
        Some(AnalysisError::InvalidParameters(Constraint::ZeroKeyLength))
    );
    settings.key_length_only = true;
    assert_eq!(
        run(b"abc", &settings).err(),
        Some(AnalysisError::InvalidParameters(Constraint::ZeroKeyLength))
    );
}

#[test]
fn run_passes_the_verdict_of_the_method_on() {
    let data = decrypt(SAMPLE, KEY);
    let settings = config(Method::KeyElimination(KeyEliminationMethod { crib: b"epoch" }));
    assert_eq!(
        run(&data, &settings).err(),
        Some(AnalysisError::InvalidParameters(Constraint::CribNotLongerThanKey))
    );
}

#[test]
fn run_without_a_key_is_an_error() {
    let data = decrypt(SAMPLE, KEY);
    let settings = config(Method::KeyElimination(KeyEliminationMethod { crib: b"zebra crossing" }));
    assert_eq!(run(&data, &settings).err(), Some(AnalysisError::NoCandidateFound));
    let settings = config(Method::CribSearch(CribSearchMethod {
        crib: b"epoch",
        search_target: b"zebra crossing",
    }));
    assert_eq!(run(&data, &settings).err(), Some(AnalysisError::NoCandidateFound));
}

#[test]
fn errors_describe_themselves() {
    assert_eq!(AnalysisError::NoCandidateFound.description(), "No suitable keys found");
    let text = |constraint: Constraint| AnalysisError::InvalidParameters(constraint).description();
    assert_eq!(text(Constraint::EmptyData), "No data was provided");
    assert_eq!(text(Constraint::ZeroKeyLength), "The key length is 0");
    assert_eq!(
        text(Constraint::CribNotLongerThanKey),
        "The crib should be at least one character longer than the key length"
    );
    assert_eq!(
        text(Constraint::CribShorterThanKey),
        "The crib should be at least as long as the key"
    );
    assert_eq!(
        text(Constraint::CribLongerThanData),
        "The crib cannot be longer than the data provided"
    );
    assert_eq!(text(Constraint::EmptySearchTarget), "The text to search for is empty");
    assert_eq!(text(Constraint::DataTooLong), "The data is too long for key length analysis");
    assert_eq!(Constraint::EmptyData.description(), "No data was provided");
}

#[test]
fn prepare_settles_the_key_length_and_validates() {
    let data = decrypt(SAMPLE, KEY);
    let mut settings = config(Method::KeyElimination(KeyEliminationMethod { crib: b"epochs" }));
    assert!(matches!(
        prepare(&data, &settings),
        Ok(Plan::Search { key_length: 5, advisory: Advisory::Clear })
    ));
    settings.specific_key_length = Some(6);
    assert_eq!(
        prepare(&data, &settings).err(),
        Some(AnalysisError::InvalidParameters(Constraint::CribNotLongerThanKey))
    );
    settings.key_length_only = true;
    assert!(matches!(prepare(&data, &settings), Ok(Plan::KeyLength(6))));
    assert_eq!(
        prepare(b"", &settings).err(),
        Some(AnalysisError::InvalidParameters(Constraint::EmptyData))
    );
}

#[test]
fn conclude_needs_a_key() {
    assert_eq!(conclude(3, Advisory::Clear, Vec::new()).err(), Some(AnalysisError::NoCandidateFound));
    let outcome = conclude(3, Advisory::SmallSample, vec![ArrVec::from_slice(b"key")]);
    assert_eq!(keys_of(outcome.unwrap()), (3, Advisory::SmallSample, vec![b"key".to_vec()]));
}
