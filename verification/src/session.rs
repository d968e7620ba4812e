//! One analysis from ciphertext to keys: the key length is taken as given or
//! estimated, the chosen strategy validates its inputs and searches, and a
//! search without a key is an error.

use vstd::prelude::*;
use crate::error::{Advisory, AnalysisError, Constraint};
use crate::key_buffer::ArrVec;
use crate::key_guess::{
    candidates,
    key_seqs,
    Context,
    CribSearchMethod,
    GuessMethod,
    KeyEliminationMethod,
    MostCommonMethod,
};
use crate::kl_anal::{analyse_key_length, estimated_key_length, MAX_TEXT_LEN};

verus! {

/// The strategy of an analysis, with what it needs.
pub enum Method<'a> {
    MostCommon(MostCommonMethod),
    KeyElimination(KeyEliminationMethod<'a>),
    CribSearch(CribSearchMethod<'a>),
}

impl<'a> GuessMethod for Method<'a> {
    open spec fn validity(&self, data: Seq<u8>, key_length: nat) -> Result<
        Advisory,
        AnalysisError,
    > {
        match self {
            Method::MostCommon(method) => method.validity(data, key_length),
            Method::KeyElimination(method) => method.validity(data, key_length),
            Method::CribSearch(method) => method.validity(data, key_length),
        }
    }

    open spec fn trials(&self, data: Seq<u8>, key_length: nat) -> Seq<(bool, Seq<u8>)> {
        match self {
            Method::MostCommon(method) => method.trials(data, key_length),
            Method::KeyElimination(method) => method.trials(data, key_length),
            Method::CribSearch(method) => method.trials(data, key_length),
        }
    }

    open spec fn must_find(&self) -> bool {
        match self {
            Method::MostCommon(method) => method.must_find(),
            Method::KeyElimination(method) => method.must_find(),
            Method::CribSearch(method) => method.must_find(),
        }
    }

    fn is_valid(&self, data: &[u8], context: &Context) -> (verdict: Result<Advisory, AnalysisError>) {
        match self {
            Method::MostCommon(method) => method.is_valid(data, context),
            Method::KeyElimination(method) => method.is_valid(data, context),
            Method::CribSearch(method) => method.is_valid(data, context),
        }
    }

    fn positions(&self, data: &[u8], context: &Context) -> (count: usize) {
        match self {
            Method::MostCommon(method) => method.positions(data, context),
            Method::KeyElimination(method) => method.positions(data, context),
            Method::CribSearch(method) => method.positions(data, context),
        }
    }

    fn examine(&self, data: &[u8], context: &Context, at: usize) -> (key: Option<ArrVec>) {
        match self {
            Method::MostCommon(method) => method.examine(data, context, at),
            Method::KeyElimination(method) => method.examine(data, context, at),
            Method::CribSearch(method) => method.examine(data, context, at),
        }
    }

    fn requires_candidate(&self) -> (required: bool) {
        match self {
            Method::MostCommon(method) => method.requires_candidate(),
            Method::KeyElimination(method) => method.requires_candidate(),
            Method::CribSearch(method) => method.requires_candidate(),
        }
    }
}

/// The settings of one analysis.
pub struct Config<'a> {
    /// The longest key length that the key-length analysis tries.
    pub max_key_length: usize,
    /// A key length to use as it is, without analysis.
    pub specific_key_length: Option<usize>,
    /// The index of coincidence expected of the plaintext, in parts per million.
    pub target_ic: u64,
    /// Whether the analysis ends once the key length is known.
    pub key_length_only: bool,
    /// The strategy that recovers the keys.
    pub method: Method<'a>,
}

/// What is settled before the search begins.
pub enum Plan {
    /// Only the key length was asked for, and this is it.
    KeyLength(usize),
    /// The inputs are valid for a search with this key length.
    Search { key_length: usize, advisory: Advisory },
}

/// What is settled before the search begins, as plain values.
pub ghost enum Prospect {
    KeyLength(nat),
    Search { key_length: nat, advisory: Advisory },
}

impl View for Plan {
    type V = Prospect;

    open spec fn view(&self) -> Prospect {
        match self {
            Plan::KeyLength(key_length) => Prospect::KeyLength(*key_length as nat),
            Plan::Search { key_length, advisory } => Prospect::Search {
                key_length: *key_length as nat,
                advisory: *advisory,
            },
        }
    }
}

/// What an analysis found.
pub enum Outcome {
    /// The key length, where nothing more was asked for.
    KeyLength(usize),
    /// The key length and at least one candidate key, in the order in which
    /// the keys were found.
    Keys { key_length: usize, advisory: Advisory, keys: Vec<ArrVec> },
}

/// What an analysis found, as plain values.
pub ghost enum Findings {
    KeyLength(nat),
    Keys { key_length: nat, advisory: Advisory, keys: Seq<Seq<u8>> },
}

impl View for Outcome {
    type V = Findings;

    open spec fn view(&self) -> Findings {
        match self {
            Outcome::KeyLength(key_length) => Findings::KeyLength(*key_length as nat),
            Outcome::Keys { key_length, advisory, keys } => Findings::Keys {
                key_length: *key_length as nat,
                advisory: *advisory,
                keys: key_seqs(keys@),
            },
        }
    }
}

/// The key length with which the analysis works: the one given, or else the estimate.
pub open spec fn working_key_length(data: Seq<u8>, config: Config) -> nat {
    match config.specific_key_length {
        Some(key_length) => key_length as nat,
        None => estimated_key_length(data, config.max_key_length as nat, config.target_ic),
    }
}

/// What `prepare` answers for a ciphertext and its settings: empty data, data
/// too long to analyse and a key length of zero are refused in this order;
/// then the method's own validation decides, unless only the key length was
/// asked for.
pub open spec fn prospect(data: Seq<u8>, config: Config) -> Result<Prospect, AnalysisError> {
    let key_length = working_key_length(data, config);
    if data.len() == 0 {
        Err(AnalysisError::InvalidParameters(Constraint::EmptyData))
    } else if config.specific_key_length is None && data.len() > MAX_TEXT_LEN {
        Err(AnalysisError::InvalidParameters(Constraint::DataTooLong))
    } else if key_length == 0 {
        Err(AnalysisError::InvalidParameters(Constraint::ZeroKeyLength))
    } else if config.key_length_only {
        Ok(Prospect::KeyLength(key_length))
    } else {
        match config.method.validity(data, key_length) {
            Err(error) => Err(error),
            Ok(advisory) => Ok(Prospect::Search { key_length, advisory }),
        }
    }
}

/// What `conclude` answers for the keys of a search: a search without a key
/// has failed.
pub open spec fn conclusion(key_length: nat, advisory: Advisory, keys: Seq<Seq<u8>>) -> Result<
    Findings,
    AnalysisError,
> {
    if keys.len() == 0 {
        Err(AnalysisError::NoCandidateFound)
    } else {
        Ok(Findings::Keys { key_length, advisory, keys })
    }
}

/// What `run` answers for a ciphertext and its settings.
pub open spec fn findings(data: Seq<u8>, config: Config) -> Result<Findings, AnalysisError> {
    match prospect(data, config) {
        Err(error) => Err(error),
        Ok(Prospect::KeyLength(key_length)) => Ok(Findings::KeyLength(key_length)),
        Ok(Prospect::Search { key_length, advisory }) => conclusion(
            key_length,
            advisory,
            candidates(&config.method, data, key_length),
        ),
    }
}

/// Settles the key length, by analysis unless one is given, and validates
/// the inputs of the search.
pub fn prepare(data: &[u8], config: &Config) -> (plan: Result<Plan, AnalysisError>)
    ensures
        match plan {
            Ok(settled) => prospect(data@, *config) == Ok::<Prospect, AnalysisError>(settled@),
            Err(error) => prospect(data@, *config) == Err::<Prospect, AnalysisError>(error),
        },
{
    if data.len() == 0 {
        return Err(AnalysisError::InvalidParameters(Constraint::EmptyData));
    }
    let key_length = match config.specific_key_length {
        Some(key_length) => key_length,
        None => {
            if data.len() as u64 > MAX_TEXT_LEN {
                return Err(AnalysisError::InvalidParameters(Constraint::DataTooLong));
            }
            analyse_key_length(data, config.max_key_length, config.target_ic)
        },
    };
    if key_length == 0 {
        return Err(AnalysisError::InvalidParameters(Constraint::ZeroKeyLength));
    }
    if config.key_length_only {
        return Ok(Plan::KeyLength(key_length));
    }
    match config.method.is_valid(data, &Context::new(key_length)) {
        Err(error) => Err(error),
        Ok(advisory) => Ok(Plan::Search { key_length, advisory }),
    }
}

/// Closes a search: its keys are the outcome, and a search without a key has failed.
pub fn conclude(key_length: usize, advisory: Advisory, keys: Vec<ArrVec>) -> (outcome: Result<
    Outcome,
    AnalysisError,
>)
    ensures
        match outcome {
            Ok(found) => conclusion(key_length as nat, advisory, key_seqs(keys@)) == Ok::<
                Findings,
                AnalysisError,
            >(found@),
            Err(error) => conclusion(key_length as nat, advisory, key_seqs(keys@)) == Err::<
                Findings,
                AnalysisError,
            >(error),
        },
{
    assert(key_seqs(keys@).len() == keys@.len());
    if keys.len() == 0 {
        Err(AnalysisError::NoCandidateFound)
    } else {
        Ok(Outcome::Keys { key_length, advisory, keys })
    }
}

/// Runs one analysis on `data`: prepares it, searches every position and
/// closes the search.
pub fn run(data: &[u8], config: &Config) -> (outcome: Result<Outcome, AnalysisError>)
    ensures
        match outcome {
            Ok(found) => findings(data@, *config) == Ok::<Findings, AnalysisError>(found@),
            Err(error) => findings(data@, *config) == Err::<Findings, AnalysisError>(error),
        },
{
    match prepare(data, config) {
        Err(error) => Err(error),
        Ok(Plan::KeyLength(key_length)) => Ok(Outcome::KeyLength(key_length)),
        Ok(Plan::Search { key_length, advisory }) => {
            let keys = config.method.guess_key(data, &Context::new(key_length));
            conclude(key_length, advisory, keys)
        },
    }
}

} // verus!
