//! Reader for the Mascot Generic Format (MGF): a line-oriented text format
//! for mass spectra. The library parses a document's bytes into normalized
//! spectrum records — an ordered peak list plus scalar metadata — under two
//! interchangeable strategies: a generic one where every block is one
//! spectrum, and a feature-centric one where consecutive blocks with one
//! feature identifier form a feature with ordered fragmentation levels.
//!
//! Numeric values are carried as their validated source tokens;
//! materializing them as machine floats, like opening the file itself, is
//! the host's job, outside this library.

use vstd::prelude::*;

pub mod block;
pub mod feature;
pub mod generic;
pub mod record;
pub mod text;

pub use record::MgfError;
pub use record::Peak;
pub use record::RecordModel;
pub use record::SpectrumRecord;
pub use record::Strategy;

use crate::feature::count_features_exec;
use crate::feature::extract_features;
use crate::feature::extract_features_exec;
use crate::generic::count_generic_exec;
use crate::generic::extract_generic;
use crate::generic::extract_generic_exec;
use crate::record::records_views;

verus! {

/// What extraction yields for a document's bytes under a strategy.
pub open spec fn extract_model(s: Seq<u8>, strategy: Strategy) -> Result<
    Seq<RecordModel>,
    MgfError,
> {
    match strategy {
        Strategy::Generic => extract_generic(s),
        Strategy::FeatureCentric => extract_features(s),
    }
}

/// What counting yields: the length of what extraction yields, under the
/// same errors.
pub open spec fn count_model(s: Seq<u8>, strategy: Strategy) -> Result<int, MgfError> {
    match extract_model(s, strategy) {
        Ok(rs) => Ok(rs.len() as int),
        Err(e) => Err(e),
    }
}

/// Extract every spectrum record of an MGF document, in source order.
///
/// `Err(IOError)` exactly when the bytes are not a well-formed document
/// under the strategy; `Err(ValueError)` exactly when they are, but a
/// feature has no fragmentation level. No partial result is returned.
pub fn extract_spectra(content: &[u8], strategy: Strategy) -> (r: Result<
    Vec<SpectrumRecord>,
    MgfError,
>)
    ensures
        match r {
            Ok(v) => extract_model(content@, strategy) == Ok::<Seq<RecordModel>, MgfError>(
                records_views(v@),
            ),
            Err(e) => extract_model(content@, strategy) == Err::<Seq<RecordModel>, MgfError>(e),
        },
{
    match strategy {
        Strategy::Generic => extract_generic_exec(content),
        Strategy::FeatureCentric => extract_features_exec(content),
    }
}

/// Count the spectra of an MGF document without building records, under the
/// same validation and the same errors as `extract_spectra`.
pub fn count_spectra(content: &[u8], strategy: Strategy) -> (r: Result<usize, MgfError>)
    ensures
        match r {
            Ok(c) => count_model(content@, strategy) == Ok::<int, MgfError>(c as int),
            Err(e) => count_model(content@, strategy) == Err::<int, MgfError>(e),
        },
{
    match strategy {
        Strategy::Generic => count_generic_exec(content),
        Strategy::FeatureCentric => count_features_exec(content),
    }
}

/// Counting agrees with extraction on every input: they succeed together,
/// the count is the number of records extraction yields, and they fail with
/// one and the same error.
pub proof fn lemma_count_matches_extract(s: Seq<u8>, strategy: Strategy)
    ensures
        count_model(s, strategy) is Ok <==> extract_model(s, strategy) is Ok,
        extract_model(s, strategy) matches Ok(rs) ==> count_model(s, strategy) == Ok::<
            int,
            MgfError,
        >(rs.len() as int),
        extract_model(s, strategy) matches Err(e) ==> count_model(s, strategy) == Err::<
            int,
            MgfError,
        >(e),
{
}

/// Reading one document twice is idempotent and side-effect free: the
/// outcome is a function of the bytes and the strategy alone, so any two
/// results that `extract_spectra`'s contract admits for one input are
/// identical sequences of records.
pub proof fn lemma_extract_deterministic(
    s: Seq<u8>,
    strategy: Strategy,
    r1: Seq<RecordModel>,
    r2: Seq<RecordModel>,
)
    requires
        extract_model(s, strategy) == Ok::<Seq<RecordModel>, MgfError>(r1),
        extract_model(s, strategy) == Ok::<Seq<RecordModel>, MgfError>(r2),
    ensures
        r1 == r2,
{
}

} // verus!
