//! The generic strategy: every block is one spectrum. The record identifier
//! is the block's read-order index; the precursor is the first token of the
//! block's first `PEPMASS` header, when that header exists and carries at
//! least one value token.

use vstd::prelude::*;

use crate::block::blocks_views;
use crate::block::mgf_blocks;
use crate::block::parse_blocks;
use crate::block::BlockBuf;
use crate::block::RawBlock;
use crate::record::copy_bytes;
use crate::record::peaks_views;
use crate::record::records_views;
use crate::record::MgfError;
use crate::record::Peak;
use crate::record::RecordModel;
use crate::record::SpectrumRecord;
use crate::text::check_num_token;
use crate::text::is_num_token;
use crate::text::tokens_exec;
use crate::text::tokens_of;

verus! {

/// The key PEPMASS, as bytes.
pub open spec fn pepmass_word() -> Seq<u8> {
    seq![80u8, 69u8, 80u8, 77u8, 65u8, 83u8, 83u8]
}

/// Index of the first header with the given key, or `hs.len()` if absent.
pub open spec fn find_header(hs: Seq<(Seq<u8>, Seq<u8>)>, key: Seq<u8>) -> int
    decreases hs.len(),
{
    if hs.len() == 0 {
        0
    } else if hs[0].0 == key {
        0
    } else {
        1 + find_header(hs.drop_first(), key)
    }
}

/// The precursor of a generic block: the first token of its first PEPMASS
/// header. No PEPMASS header, or one with an empty value, means an absent
/// precursor; a non-numeric first token is a malformed document.
pub open spec fn generic_precursor(b: RawBlock) -> Result<Option<Seq<u8>>, MgfError> {
    let hi = find_header(b.headers, pepmass_word());
    if hi >= b.headers.len() {
        Ok(None)
    } else {
        let ts = tokens_of(b.headers[hi].1);
        if ts.len() == 0 {
            Ok(None)
        } else if is_num_token(ts[0]) {
            Ok(Some(ts[0]))
        } else {
            Err(MgfError::IOError)
        }
    }
}

/// The records of the blocks from position `i` onward, each with its block
/// index as identifier.
pub open spec fn generic_records_from(bs: Seq<RawBlock>, i: int) -> Result<
    Seq<RecordModel>,
    MgfError,
>
    decreases bs.len() - i,
{
    if i < 0 || i >= bs.len() {
        Ok(Seq::empty())
    } else {
        match generic_precursor(bs[i]) {
            Err(e) => Err(e),
            Ok(p) => match generic_records_from(bs, i + 1) {
                Err(e) => Err(e),
                Ok(rest) => Ok(
                    seq![RecordModel { id: i as nat, peaks: bs[i].peaks, precursor: p }] + rest,
                ),
            },
        }
    }
}

/// What extraction under the generic strategy yields for a document's bytes.
pub open spec fn extract_generic(s: Seq<u8>) -> Result<Seq<RecordModel>, MgfError> {
    match mgf_blocks(s) {
        None => Err(MgfError::IOError),
        Some(bs) => generic_records_from(bs, 0),
    }
}

/// Under the generic strategy, extraction yields one record per block, in
/// block order; each record's identifier is its block index, its peaks are
/// its block's peaks, and its precursor is its block's.
pub proof fn lemma_generic_records_pointwise(bs: Seq<RawBlock>, i: int, rs: Seq<RecordModel>)
    requires
        0 <= i <= bs.len(),
        generic_records_from(bs, i) == Ok::<Seq<RecordModel>, MgfError>(rs),
    ensures
        rs.len() == bs.len() - i,
        forall|j: int| i <= j < bs.len() ==> #[trigger] generic_precursor(bs[j]) is Ok,
        forall|j: int|
            i <= j < bs.len() ==> rs[j - i] == (RecordModel {
                id: j as nat,
                peaks: bs[j].peaks,
                precursor: #[trigger] generic_precursor(bs[j]).unwrap(),
            }),
    decreases bs.len() - i,
{
    if i < bs.len() {
        let rest = generic_records_from(bs, i + 1).unwrap();
        lemma_generic_records_pointwise(bs, i + 1, rest);
    }
}

/// A generic-strategy record whose block has no PEPMASS header, or one with
/// an empty value, has an absent precursor: absence is kept, never defaulted.
pub proof fn lemma_generic_no_precursor_absent(s: Seq<u8>, rs: Seq<RecordModel>, j: int)
    requires
        extract_generic(s) == Ok::<Seq<RecordModel>, MgfError>(rs),
        0 <= j < rs.len(),
        ({
            let b = mgf_blocks(s).unwrap()[j];
            find_header(b.headers, pepmass_word()) >= b.headers.len() || tokens_of(
                b.headers[find_header(b.headers, pepmass_word())].1,
            ).len() == 0
        }),
    ensures
        rs[j].precursor is None,
{
    let bs = mgf_blocks(s).unwrap();
    lemma_generic_records_pointwise(bs, 0, rs);
    assert(rs[j] == RecordModel {
        id: j as nat,
        peaks: bs[j].peaks,
        precursor: generic_precursor(bs[j]).unwrap(),
    });
}

/// Generic-strategy identifiers are the block indices: monotonically
/// increasing by read order, starting at zero.
pub proof fn lemma_generic_ids_sequential(s: Seq<u8>, rs: Seq<RecordModel>, j: int)
    requires
        extract_generic(s) == Ok::<Seq<RecordModel>, MgfError>(rs),
        0 <= j < rs.len(),
    ensures
        rs[j].id == j,
    decreases rs.len(),
{
    let bs = mgf_blocks(s).unwrap();
    lemma_generic_records_pointwise(bs, 0, rs);
    assert(rs[j] == RecordModel {
        id: j as nat,
        peaks: bs[j].peaks,
        precursor: generic_precursor(bs[j]).unwrap(),
    });
}

/// Index of the first header with the given key.
pub(crate) fn find_header_exec(hs: &[crate::block::HeaderField], key: &[u8]) -> (r: usize)
    ensures
        r as int == find_header(crate::block::headers_views(hs@), key@),
        r <= hs@.len(),
    decreases hs@.len(),
{
    if hs.len() == 0 {
        0
    } else if crate::block::bytes_eq(hs[0].key.as_slice(), key) {
        assert(crate::block::headers_views(hs@)[0].0 == hs@[0].key@);
        0
    } else {
        assert(crate::block::headers_views(hs@)[0].0 == hs@[0].key@);
        let rest = vstd::slice::slice_subrange(hs, 1, hs.len());
        assert(crate::block::headers_views(rest@) =~= crate::block::headers_views(
            hs@,
        ).drop_first());
        1 + find_header_exec(rest, key)
    }
}

/// Read one block's precursor.
fn precursor_exec(b: &BlockBuf) -> (r: Result<Option<Vec<u8>>, MgfError>)
    ensures
        match r {
            Ok(Some(v)) => generic_precursor(b@) == Ok::<Option<Seq<u8>>, MgfError>(Some(v@)),
            Ok(None) => generic_precursor(b@) == Ok::<Option<Seq<u8>>, MgfError>(
                None::<Seq<u8>>,
            ),
            Err(e) => generic_precursor(b@) == Err::<Option<Seq<u8>>, MgfError>(e),
        },
{
    let n = b.headers.len();
    let w = pepmass_exec();
    let hi = find_header_exec(b.headers.as_slice(), w.as_slice());
    if hi >= n {
        return Ok(None);
    }
    let mut ts = tokens_exec(b.headers[hi].value.as_slice());
    if ts.len() == 0 {
        return Ok(None);
    }
    if !check_num_token(ts[0].as_slice()) {
        return Err(MgfError::IOError);
    }
    let tok = ts.remove(0);
    Ok(Some(tok))
}

pub(crate) fn pepmass_exec() -> (r: Vec<u8>)
    ensures
        r@ == pepmass_word(),
{
    let mut v: Vec<u8> = Vec::new();
    v.push(80);
    v.push(69);
    v.push(80);
    v.push(77);
    v.push(65);
    v.push(83);
    v.push(83);
    assert(v@ =~= pepmass_word());
    v
}

/// Copy a peak list.
pub(crate) fn copy_peaks(v: &Vec<Peak>) -> (r: Vec<Peak>)
    ensures
        peaks_views(r@) == peaks_views(v@),
{
    let mut out: Vec<Peak> = Vec::new();
    let n = v.len();
    let mut i: usize = 0;
    while i < n
        invariant
            n == v@.len(),
            i <= n,
            out@.len() == i,
            forall|j: int| 0 <= j < i ==> #[trigger] out@[j]@ == v@[j]@,
        decreases n - i,
    {
        out.push(Peak { mz: copy_bytes(&v[i].mz), intensity: copy_bytes(&v[i].intensity) });
        i = i + 1;
    }
    assert(peaks_views(out@) =~= peaks_views(v@));
    out
}

/// Extract all records under the generic strategy.
pub fn extract_generic_exec(content: &[u8]) -> (r: Result<Vec<SpectrumRecord>, MgfError>)
    ensures
        match r {
            Ok(v) => extract_generic(content@) == Ok::<Seq<RecordModel>, MgfError>(
                records_views(v@),
            ),
            Err(e) => extract_generic(content@) == Err::<Seq<RecordModel>, MgfError>(e),
        },
{
    let blocks = match parse_blocks(content) {
        None => {
            return Err(MgfError::IOError);
        },
        Some(bs) => bs,
    };
    let ghost bsv = blocks_views(blocks@);
    let mut out: Vec<SpectrumRecord> = Vec::new();
    let n = blocks.len();
    let mut i: usize = 0;
    assert(records_views(out@) + Seq::<RecordModel>::empty() =~= records_views(out@));
    while i < n
        invariant
            n == blocks@.len(),
            i <= n,
            bsv == blocks_views(blocks@),
            mgf_blocks(content@) == Some(bsv),
            out@.len() == i,
            generic_records_from(bsv, 0) == match generic_records_from(bsv, i as int) {
                Err(e) => Err::<Seq<RecordModel>, MgfError>(e),
                Ok(rest) => Ok(records_views(out@) + rest),
            },
        decreases n - i,
    {
        let p = match precursor_exec(&blocks[i]) {
            Err(e) => {
                return Err(e);
            },
            Ok(p) => p,
        };
        let rec = SpectrumRecord {
            id: i as u64,
            peaks: copy_peaks(&blocks[i].peaks),
            precursor_mz: p,
        };
        proof {
            assert(rec@ == RecordModel {
                id: i as nat,
                peaks: bsv[i as int].peaks,
                precursor: generic_precursor(bsv[i as int]).unwrap(),
            });
        }
        let ghost old_out = records_views(out@);
        out.push(rec);
        proof {
            assert(records_views(out@) =~= old_out.push(rec@));
            if generic_records_from(bsv, i + 1) is Ok {
                let rest = generic_records_from(bsv, i + 1).unwrap();
                assert(old_out + (seq![rec@] + rest) =~= records_views(out@) + rest);
            }
        }
        i = i + 1;
    }
    assert(generic_records_from(bsv, n as int) == Ok::<Seq<RecordModel>, MgfError>(
        Seq::empty(),
    ));
    assert(records_views(out@) + Seq::<RecordModel>::empty() =~= records_views(out@));
    Ok(out)
}

/// What counting under the generic strategy yields: the length of what
/// extraction yields, under the same errors.
pub open spec fn count_generic(s: Seq<u8>) -> Result<int, MgfError> {
    match extract_generic(s) {
        Ok(rs) => Ok(rs.len() as int),
        Err(e) => Err(e),
    }
}

/// Count the spectra under the generic strategy, without building records:
/// one per block, after validating each block's precursor field.
pub fn count_generic_exec(content: &[u8]) -> (r: Result<usize, MgfError>)
    ensures
        match r {
            Ok(c) => count_generic(content@) == Ok::<int, MgfError>(c as int),
            Err(e) => count_generic(content@) == Err::<int, MgfError>(e),
        },
{
    let blocks = match parse_blocks(content) {
        None => {
            return Err(MgfError::IOError);
        },
        Some(bs) => bs,
    };
    let ghost bsv = blocks_views(blocks@);
    let ghost mut recs = Seq::<RecordModel>::empty();
    let n = blocks.len();
    let mut i: usize = 0;
    assert(recs + Seq::<RecordModel>::empty() =~= recs);
    while i < n
        invariant
            n == blocks@.len(),
            i <= n,
            bsv == blocks_views(blocks@),
            mgf_blocks(content@) == Some(bsv),
            recs.len() == i,
            generic_records_from(bsv, 0) == match generic_records_from(bsv, i as int) {
                Err(e) => Err::<Seq<RecordModel>, MgfError>(e),
                Ok(rest) => Ok(recs + rest),
            },
        decreases n - i,
    {
        let ghost old_recs = recs;
        match precursor_exec(&blocks[i]) {
            Err(e) => {
                return Err(e);
            },
            Ok(_) => {},
        }
        proof {
            let rec = RecordModel {
                id: i as nat,
                peaks: bsv[i as int].peaks,
                precursor: generic_precursor(bsv[i as int]).unwrap(),
            };
            recs = recs.push(rec);
            if generic_records_from(bsv, i + 1) is Ok {
                let rest = generic_records_from(bsv, i + 1).unwrap();
                assert(old_recs + (seq![rec] + rest) =~= recs + rest);
            }
        }
        i = i + 1;
    }
    assert(generic_records_from(bsv, n as int) == Ok::<Seq<RecordModel>, MgfError>(
        Seq::empty(),
    ));
    assert(recs + Seq::<RecordModel>::empty() =~= recs);
    Ok(blocks.len())
}

} // verus!
