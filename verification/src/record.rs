//! The normalized output unit: an ordered peak list plus scalar metadata.
//! Numeric values are carried as their validated source tokens (bytes);
//! turning a token into a machine float is the host's job.

use vstd::prelude::*;

verus! {

/// The two failure kinds of the pipeline.
///
/// `IOError`: the content cannot be established as a well-formed spectrum
/// stream at all (structural malformation, a mandatory field missing or
/// non-numeric). `ValueError`: one entry could not be normalized (a feature
/// without a fragmentation level); by policy it aborts the whole call.
#[derive(Clone, Copy, Debug, PartialEq, Eq, Structural)]
pub enum MgfError {
    IOError,
    ValueError,
}

/// Which of the two source representations the caller wants read.
#[derive(Clone, Copy, Debug, PartialEq, Eq, Structural)]
pub enum Strategy {
    Generic,
    FeatureCentric,
}

/// One peak: a mass-to-charge token and an intensity token, both validated
/// numeric tokens taken verbatim from the source.
#[derive(Clone, Debug, PartialEq, Eq)]
pub struct Peak {
    pub mz: Vec<u8>,
    pub intensity: Vec<u8>,
}

impl View for Peak {
    type V = (Seq<u8>, Seq<u8>);

    open spec fn view(&self) -> (Seq<u8>, Seq<u8>) {
        (self.mz@, self.intensity@)
    }
}

/// The mathematical model of a record: identifier, peak pairs in source
/// order, and an optional precursor token.
pub struct RecordModel {
    pub id: nat,
    pub peaks: Seq<(Seq<u8>, Seq<u8>)>,
    pub precursor: Option<Seq<u8>>,
}

/// One normalized spectrum record.
///
/// `id` is the block's read-order index under the generic strategy and the
/// source-assigned feature identifier under the feature-centric one.
/// `precursor_mz` is absent exactly when the source entry carries no
/// precursor value; absence is never coerced to a zero.
#[derive(Clone, Debug, PartialEq, Eq)]
pub struct SpectrumRecord {
    pub id: u64,
    pub peaks: Vec<Peak>,
    pub precursor_mz: Option<Vec<u8>>,
}

/// The views of a peak vector.
pub open spec fn peaks_views(v: Seq<Peak>) -> Seq<(Seq<u8>, Seq<u8>)> {
    Seq::new(v.len(), |i: int| v[i]@)
}

impl View for SpectrumRecord {
    type V = RecordModel;

    open spec fn view(&self) -> RecordModel {
        RecordModel {
            id: self.id as nat,
            peaks: peaks_views(self.peaks@),
            precursor: match self.precursor_mz {
                Some(v) => Some(v@),
                None => None,
            },
        }
    }
}

/// The views of a record vector.
pub open spec fn records_views(v: Seq<SpectrumRecord>) -> Seq<RecordModel> {
    Seq::new(v.len(), |i: int| v[i]@)
}

/// The mass-to-charge sequence of a record model, in peak order.
pub open spec fn mz_seq_of(r: RecordModel) -> Seq<Seq<u8>> {
    r.peaks.map_values(|p: (Seq<u8>, Seq<u8>)| p.0)
}

/// The intensity sequence of a record model, in peak order.
pub open spec fn intensity_seq_of(r: RecordModel) -> Seq<Seq<u8>> {
    r.peaks.map_values(|p: (Seq<u8>, Seq<u8>)| p.1)
}

/// The peak list, its mass sequence and its intensity sequence of one record
/// are three parallel views of the same pairs: all have one length.
pub proof fn lemma_peaks_parallel(r: RecordModel)
    ensures
        mz_seq_of(r).len() == r.peaks.len(),
        intensity_seq_of(r).len() == r.peaks.len(),
        forall|i: int|
            0 <= i < r.peaks.len() ==> #[trigger] r.peaks[i] == (
            mz_seq_of(r)[i],
            intensity_seq_of(r)[i],
            ),
{
}

pub fn copy_bytes(v: &Vec<u8>) -> (r: Vec<u8>)
    ensures
        r@ == v@,
{
    vstd::slice::slice_to_vec(v.as_slice())
}

impl SpectrumRecord {
    /// The mass-to-charge tokens, one per peak, in peak order.
    pub fn mz_values(&self) -> (r: Vec<Vec<u8>>)
        ensures
            crate::text::bytes_views(r@) == mz_seq_of(self@),
    {
        let mut out: Vec<Vec<u8>> = Vec::new();
        let n = self.peaks.len();
        let mut i: usize = 0;
        while i < n
            invariant
                n == self.peaks@.len(),
                i <= n,
                out@.len() == i,
                forall|j: int| 0 <= j < i ==> #[trigger] out@[j]@ == self.peaks@[j].mz@,
            decreases n - i,
        {
            out.push(copy_bytes(&self.peaks[i].mz));
            i = i + 1;
        }
        assert(crate::text::bytes_views(out@) =~= mz_seq_of(self@));
        out
    }

    /// The intensity tokens, one per peak, in peak order.
    pub fn intensity_values(&self) -> (r: Vec<Vec<u8>>)
        ensures
            crate::text::bytes_views(r@) == intensity_seq_of(self@),
    {
        let mut out: Vec<Vec<u8>> = Vec::new();
        let n = self.peaks.len();
        let mut i: usize = 0;
        while i < n
            invariant
                n == self.peaks@.len(),
                i <= n,
                out@.len() == i,
                forall|j: int| 0 <= j < i ==> #[trigger] out@[j]@ == self.peaks@[j].intensity@,
            decreases n - i,
        {
            out.push(copy_bytes(&self.peaks[i].intensity));
            i = i + 1;
        }
        assert(crate::text::bytes_views(out@) =~= intensity_seq_of(self@));
        out
    }
}

} // verus!
