//! The feature-centric strategy: every block carries a feature identifier,
//! a parent-ion mass and a spectrum level, all mandatory. Consecutive blocks
//! with one feature identifier form a feature; its fragmentation levels are
//! its blocks with level two or higher, in order. Each feature yields one
//! record from its first fragmentation level alone; a feature without one is
//! a per-entry failure that aborts the whole call.

use vstd::prelude::*;

use crate::block::blocks_views;
use crate::block::mgf_blocks;
use crate::block::parse_blocks;
use crate::block::BlockBuf;
use crate::block::RawBlock;
use crate::generic::find_header;
use crate::generic::find_header_exec;
use crate::generic::pepmass_word;
use crate::record::copy_bytes;
use crate::record::peaks_views;
use crate::record::records_views;
use crate::record::MgfError;
use crate::record::Peak;
use crate::record::RecordModel;
use crate::record::SpectrumRecord;
use crate::text::check_num_token;
use crate::text::is_num_token;
use crate::text::is_uint_token;
use crate::text::parse_uint;
use crate::text::tokens_exec;
use crate::text::tokens_of;
use crate::text::uint_val;

verus! {

/// The key FEATURE_ID, as bytes.
pub open spec fn feature_id_word() -> Seq<u8> {
    seq![70u8, 69u8, 65u8, 84u8, 85u8, 82u8, 69u8, 95u8, 73u8, 68u8]
}

/// The key MSLEVEL, as bytes.
pub open spec fn mslevel_word() -> Seq<u8> {
    seq![77u8, 83u8, 76u8, 69u8, 86u8, 69u8, 76u8]
}

/// The model of one feature-centric block: identifier, parent-ion mass
/// token, spectrum level, and the block's peaks.
pub struct FBlockModel {
    pub fid: nat,
    pub pep: Seq<u8>,
    pub mslevel: nat,
    pub peaks: Seq<(Seq<u8>, Seq<u8>)>,
}

/// The mandatory unsigned-integer field under `key`: its first value token.
/// Missing, empty, non-numeric or out of range is a malformed document.
pub open spec fn header_uint(b: RawBlock, key: Seq<u8>) -> Result<nat, MgfError> {
    let hi = find_header(b.headers, key);
    if hi >= b.headers.len() {
        Err(MgfError::IOError)
    } else {
        let ts = tokens_of(b.headers[hi].1);
        if ts.len() > 0 && is_uint_token(ts[0]) {
            Ok(uint_val(ts[0]))
        } else {
            Err(MgfError::IOError)
        }
    }
}

/// The mandatory parent-ion mass of a feature-centric block: the first
/// token of its PEPMASS header, which must be numeric.
pub open spec fn feature_pep(b: RawBlock) -> Result<Seq<u8>, MgfError> {
    let hi = find_header(b.headers, pepmass_word());
    if hi >= b.headers.len() {
        Err(MgfError::IOError)
    } else {
        let ts = tokens_of(b.headers[hi].1);
        if ts.len() > 0 && is_num_token(ts[0]) {
            Ok(ts[0])
        } else {
            Err(MgfError::IOError)
        }
    }
}

/// One block read as a feature-centric block.
pub open spec fn fblock_of(b: RawBlock) -> Result<FBlockModel, MgfError> {
    match header_uint(b, feature_id_word()) {
        Err(e) => Err(e),
        Ok(fid) => match feature_pep(b) {
            Err(e) => Err(e),
            Ok(pep) => match header_uint(b, mslevel_word()) {
                Err(e) => Err(e),
                Ok(lvl) => Ok(FBlockModel { fid, pep, mslevel: lvl, peaks: b.peaks }),
            },
        },
    }
}

/// The feature-centric blocks from position `i` onward.
pub open spec fn fblocks_from(bs: Seq<RawBlock>, i: int) -> Result<Seq<FBlockModel>, MgfError>
    decreases bs.len() - i,
{
    if i < 0 || i >= bs.len() {
        Ok(Seq::empty())
    } else {
        match fblock_of(bs[i]) {
            Err(e) => Err(e),
            Ok(f) => match fblocks_from(bs, i + 1) {
                Err(e) => Err(e),
                Ok(rest) => Ok(seq![f] + rest),
            },
        }
    }
}

/// The model of one feature: identifier, parent-ion mass token of its first
/// block, and its fragmentation levels' peak lists, in order.
pub struct FeatureModel {
    pub fid: nat,
    pub pep: Seq<u8>,
    pub levels: Seq<Seq<(Seq<u8>, Seq<u8>)>>,
}

/// The fragmentation levels one block contributes: its peaks, when its
/// spectrum level is two or higher; nothing otherwise.
pub open spec fn levels_of(f: FBlockModel) -> Seq<Seq<(Seq<u8>, Seq<u8>)>> {
    if f.mslevel >= 2 {
        seq![f.peaks]
    } else {
        Seq::empty()
    }
}

/// Group consecutive blocks with one feature identifier into features.
pub open spec fn group_features(fs: Seq<FBlockModel>) -> Seq<FeatureModel>
    decreases fs.len(),
{
    if fs.len() == 0 {
        Seq::empty()
    } else {
        let gs = group_features(fs.drop_last());
        let f = fs.last();
        if gs.len() > 0 && gs.last().fid == f.fid {
            gs.update(
                gs.len() - 1,
                FeatureModel {
                    fid: gs.last().fid,
                    pep: gs.last().pep,
                    levels: gs.last().levels + levels_of(f),
                },
            )
        } else {
            gs.push(FeatureModel { fid: f.fid, pep: f.pep, levels: levels_of(f) })
        }
    }
}

/// The records of the features from position `i` onward: one per feature,
/// from its first fragmentation level alone, with its parent-ion mass always
/// present as precursor. A feature without a fragmentation level fails the
/// whole call with `ValueError`.
pub open spec fn feature_records_from(feats: Seq<FeatureModel>, i: int) -> Result<
    Seq<RecordModel>,
    MgfError,
>
    decreases feats.len() - i,
{
    if i < 0 || i >= feats.len() {
        Ok(Seq::empty())
    } else {
        let f = feats[i];
        if f.levels.len() == 0 {
            Err(MgfError::ValueError)
        } else {
            match feature_records_from(feats, i + 1) {
                Err(e) => Err(e),
                Ok(rest) => Ok(
                    seq![
                        RecordModel { id: f.fid, peaks: f.levels[0], precursor: Some(f.pep) },
                    ] + rest,
                ),
            }
        }
    }
}

/// What extraction under the feature-centric strategy yields.
pub open spec fn extract_features(s: Seq<u8>) -> Result<Seq<RecordModel>, MgfError> {
    match mgf_blocks(s) {
        None => Err(MgfError::IOError),
        Some(bs) => match fblocks_from(bs, 0) {
            Err(e) => Err(e),
            Ok(fs) => feature_records_from(group_features(fs), 0),
        },
    }
}

/// What counting under the feature-centric strategy yields: the length of
/// what extraction yields, under the same errors.
pub open spec fn count_features(s: Seq<u8>) -> Result<int, MgfError> {
    match extract_features(s) {
        Ok(rs) => Ok(rs.len() as int),
        Err(e) => Err(e),
    }
}

/// Under the feature-centric strategy, extraction yields one record per
/// feature, in feature order; each record's peaks are its feature's first
/// fragmentation level — later levels are never read — and its precursor is
/// always present: the feature's parent-ion mass.
pub proof fn lemma_feature_records_pointwise(feats: Seq<FeatureModel>, i: int, rs: Seq<RecordModel>)
    requires
        0 <= i <= feats.len(),
        feature_records_from(feats, i) == Ok::<Seq<RecordModel>, MgfError>(rs),
    ensures
        rs.len() == feats.len() - i,
        forall|j: int| i <= j < feats.len() ==> #[trigger] feats[j].levels.len() > 0,
        forall|j: int|
            i <= j < feats.len() ==> rs[j - i] == (RecordModel {
                id: feats[j].fid,
                peaks: #[trigger] feats[j].levels[0],
                precursor: Some(feats[j].pep),
            }),
    decreases feats.len() - i,
{
    if i < feats.len() {
        let rest = feature_records_from(feats, i + 1).unwrap();
        lemma_feature_records_pointwise(feats, i + 1, rest);
    }
}

/// Every record of a feature-centric extraction has a present precursor.
pub proof fn lemma_feature_precursor_present(s: Seq<u8>, rs: Seq<RecordModel>, j: int)
    requires
        extract_features(s) == Ok::<Seq<RecordModel>, MgfError>(rs),
        0 <= j < rs.len(),
    ensures
        rs[j].precursor is Some,
{
    let bs = mgf_blocks(s).unwrap();
    let fs = fblocks_from(bs, 0).unwrap();
    let feats = group_features(fs);
    lemma_feature_records_pointwise(feats, 0, rs);
    assert(rs[j] == RecordModel {
        id: feats[j].fid,
        peaks: feats[j].levels[0],
        precursor: Some(feats[j].pep),
    });
}

/// One mandatory unsigned-integer field of a block.
fn header_uint_exec(b: &BlockBuf, key: &[u8]) -> (r: Result<u64, MgfError>)
    ensures
        match r {
            Ok(v) => header_uint(b@, key@) == Ok::<nat, MgfError>(v as nat),
            Err(e) => header_uint(b@, key@) == Err::<nat, MgfError>(e),
        },
{
    let n = b.headers.len();
    let hi = find_header_exec(b.headers.as_slice(), key);
    if hi >= n {
        return Err(MgfError::IOError);
    }
    let ts = tokens_exec(b.headers[hi].value.as_slice());
    if ts.len() == 0 {
        return Err(MgfError::IOError);
    }
    match parse_uint(ts[0].as_slice()) {
        Some(v) => Ok(v),
        None => Err(MgfError::IOError),
    }
}

/// The mandatory parent-ion mass token of a block.
fn feature_pep_exec(b: &BlockBuf) -> (r: Result<Vec<u8>, MgfError>)
    ensures
        match r {
            Ok(v) => feature_pep(b@) == Ok::<Seq<u8>, MgfError>(v@),
            Err(e) => feature_pep(b@) == Err::<Seq<u8>, MgfError>(e),
        },
{
    let n = b.headers.len();
    let w = crate::generic::pepmass_exec();
    let hi = find_header_exec(b.headers.as_slice(), w.as_slice());
    if hi >= n {
        return Err(MgfError::IOError);
    }
    let mut ts = tokens_exec(b.headers[hi].value.as_slice());
    if ts.len() == 0 {
        return Err(MgfError::IOError);
    }
    if !check_num_token(ts[0].as_slice()) {
        return Err(MgfError::IOError);
    }
    let tok = ts.remove(0);
    Ok(tok)
}

/// One parsed feature-centric block.
pub(crate) struct FBlockBuf {
    pub(crate) fid: u64,
    pub(crate) pep: Vec<u8>,
    pub(crate) mslevel: u64,
    pub(crate) peaks: Vec<Peak>,
}

impl View for FBlockBuf {
    type V = FBlockModel;

    closed spec fn view(&self) -> FBlockModel {
        FBlockModel {
            fid: self.fid as nat,
            pep: self.pep@,
            mslevel: self.mslevel as nat,
            peaks: peaks_views(self.peaks@),
        }
    }
}

pub(crate) open spec fn fblocks_views(v: Seq<FBlockBuf>) -> Seq<FBlockModel> {
    Seq::new(v.len(), |i: int| v[i]@)
}

/// One feature being assembled: identifier, parent-ion mass token, and its
/// fragmentation levels' peak lists.
pub(crate) struct FeatureBuf {
    pub(crate) fid: u64,
    pub(crate) pep: Vec<u8>,
    pub(crate) levels: Vec<Vec<Peak>>,
}

pub(crate) open spec fn levels_views(v: Seq<Vec<Peak>>) -> Seq<Seq<(Seq<u8>, Seq<u8>)>> {
    Seq::new(v.len(), |i: int| peaks_views(v[i]@))
}

impl View for FeatureBuf {
    type V = FeatureModel;

    closed spec fn view(&self) -> FeatureModel {
        FeatureModel { fid: self.fid as nat, pep: self.pep@, levels: levels_views(self.levels@) }
    }
}

pub(crate) open spec fn features_views(v: Seq<FeatureBuf>) -> Seq<FeatureModel> {
    Seq::new(v.len(), |i: int| v[i]@)
}

/// Read every block as a feature-centric block, in order.
fn read_fblocks(blocks: &Vec<BlockBuf>) -> (r: Result<Vec<FBlockBuf>, MgfError>)
    ensures
        match r {
            Ok(fs) => fblocks_from(blocks_views(blocks@), 0) == Ok::<Seq<FBlockModel>, MgfError>(
                fblocks_views(fs@),
            ),
            Err(e) => fblocks_from(blocks_views(blocks@), 0) == Err::<Seq<FBlockModel>, MgfError>(
                e,
            ),
        },
{
    let ghost bsv = blocks_views(blocks@);
    let mut out: Vec<FBlockBuf> = Vec::new();
    let n = blocks.len();
    let mut i: usize = 0;
    assert(fblocks_views(out@) + Seq::<FBlockModel>::empty() =~= fblocks_views(out@));
    while i < n
        invariant
            n == blocks@.len(),
            i <= n,
            bsv == blocks_views(blocks@),
            fblocks_from(bsv, 0) == match fblocks_from(bsv, i as int) {
                Err(e) => Err::<Seq<FBlockModel>, MgfError>(e),
                Ok(rest) => Ok(fblocks_views(out@) + rest),
            },
        decreases n - i,
    {
        let idw = feature_id_exec();
        let fid = match header_uint_exec(&blocks[i], idw.as_slice()) {
            Err(e) => {
                return Err(e);
            },
            Ok(v) => v,
        };
        let pep = match feature_pep_exec(&blocks[i]) {
            Err(e) => {
                return Err(e);
            },
            Ok(v) => v,
        };
        let mlw = mslevel_exec();
        let lvl = match header_uint_exec(&blocks[i], mlw.as_slice()) {
            Err(e) => {
                return Err(e);
            },
            Ok(v) => v,
        };
        let fb = FBlockBuf { fid, pep, mslevel: lvl, peaks: crate::generic::copy_peaks(&blocks[i].peaks) };
        proof {
            assert(fb@ == fblock_of(bsv[i as int]).unwrap());
        }
        let ghost old_out = fblocks_views(out@);
        out.push(fb);
        proof {
            assert(fblocks_views(out@) =~= old_out.push(fb@));
            if fblocks_from(bsv, i + 1) is Ok {
                let rest = fblocks_from(bsv, i + 1).unwrap();
                assert(old_out + (seq![fb@] + rest) =~= fblocks_views(out@) + rest);
            }
        }
        i = i + 1;
    }
    assert(fblocks_from(bsv, n as int) == Ok::<Seq<FBlockModel>, MgfError>(Seq::empty()));
    assert(fblocks_views(out@) + Seq::<FBlockModel>::empty() =~= fblocks_views(out@));
    Ok(out)
}

fn feature_id_exec() -> (r: Vec<u8>)
    ensures
        r@ == feature_id_word(),
{
    let mut v: Vec<u8> = Vec::new();
    v.push(70);
    v.push(69);
    v.push(65);
    v.push(84);
    v.push(85);
    v.push(82);
    v.push(69);
    v.push(95);
    v.push(73);
    v.push(68);
    assert(v@ =~= feature_id_word());
    v
}

fn mslevel_exec() -> (r: Vec<u8>)
    ensures
        r@ == mslevel_word(),
{
    let mut v: Vec<u8> = Vec::new();
    v.push(77);
    v.push(83);
    v.push(76);
    v.push(69);
    v.push(86);
    v.push(69);
    v.push(76);
    assert(v@ =~= mslevel_word());
    v
}

/// Group the feature-centric blocks into features.
fn group_features_exec(fs: &Vec<FBlockBuf>) -> (r: Vec<FeatureBuf>)
    ensures
        features_views(r@) == group_features(fblocks_views(fs@)),
{
    let ghost fsv = fblocks_views(fs@);
    let mut groups: Vec<FeatureBuf> = Vec::new();
    let n = fs.len();
    let mut i: usize = 0;
    assert(features_views(groups@) =~= group_features(fsv.subrange(0, 0))) by {
        assert(fsv.subrange(0, 0) =~= Seq::<FBlockModel>::empty());
    }
    while i < n
        invariant
            n == fs@.len(),
            i <= n,
            fsv == fblocks_views(fs@),
            features_views(groups@) == group_features(fsv.subrange(0, i as int)),
        decreases n - i,
    {
        let ghost pre = fsv.subrange(0, i as int);
        let ghost cur = fsv.subrange(0, i + 1);
        proof {
            assert(cur.drop_last() =~= pre);
            assert(cur.last() == fsv[i as int]);
        }
        let merge = groups.len() > 0 && groups[groups.len() - 1].fid == fs[i].fid;
        if merge {
            let mut last = groups.pop().unwrap();
            let ghost old_last = last@;
            if fs[i].mslevel >= 2 {
                last.levels.push(crate::generic::copy_peaks(&fs[i].peaks));
                proof {
                    assert(levels_views(last.levels@) =~= old_last.levels + levels_of(
                        fsv[i as int],
                    ));
                }
            } else {
                proof {
                    assert(levels_views(last.levels@) =~= old_last.levels + levels_of(
                        fsv[i as int],
                    ));
                }
            }
            groups.push(last);
            proof {
                assert(features_views(groups@) =~= group_features(pre).update(
                    group_features(pre).len() - 1,
                    FeatureModel {
                        fid: group_features(pre).last().fid,
                        pep: group_features(pre).last().pep,
                        levels: group_features(pre).last().levels + levels_of(fsv[i as int]),
                    },
                ));
            }
        } else {
            let mut nf = FeatureBuf {
                fid: fs[i].fid,
                pep: copy_bytes(&fs[i].pep),
                levels: Vec::new(),
            };
            if fs[i].mslevel >= 2 {
                nf.levels.push(crate::generic::copy_peaks(&fs[i].peaks));
            }
            proof {
                assert(levels_views(nf.levels@) =~= levels_of(fsv[i as int]));
            }
            groups.push(nf);
            proof {
                assert(features_views(groups@) =~= group_features(pre).push(
                    FeatureModel {
                        fid: fsv[i as int].fid,
                        pep: fsv[i as int].pep,
                        levels: levels_of(fsv[i as int]),
                    },
                ));
            }
        }
        i = i + 1;
    }
    assert(fsv.subrange(0, n as int) =~= fsv);
    groups
}

/// Extract all records under the feature-centric strategy.
pub fn extract_features_exec(content: &[u8]) -> (r: Result<Vec<SpectrumRecord>, MgfError>)
    ensures
        match r {
            Ok(v) => extract_features(content@) == Ok::<Seq<RecordModel>, MgfError>(
                records_views(v@),
            ),
            Err(e) => extract_features(content@) == Err::<Seq<RecordModel>, MgfError>(e),
        },
{
    let blocks = match parse_blocks(content) {
        None => {
            return Err(MgfError::IOError);
        },
        Some(bs) => bs,
    };
    let fblocks = match read_fblocks(&blocks) {
        Err(e) => {
            return Err(e);
        },
        Ok(fs) => fs,
    };
    let feats = group_features_exec(&fblocks);
    let ghost ftv = features_views(feats@);
    let mut out: Vec<SpectrumRecord> = Vec::new();
    let n = feats.len();
    let mut i: usize = 0;
    assert(records_views(out@) + Seq::<RecordModel>::empty() =~= records_views(out@));
    while i < n
        invariant
            n == feats@.len(),
            i <= n,
            ftv == features_views(feats@),
            extract_features(content@) == feature_records_from(ftv, 0),
            out@.len() == i,
            feature_records_from(ftv, 0) == match feature_records_from(ftv, i as int) {
                Err(e) => Err::<Seq<RecordModel>, MgfError>(e),
                Ok(rest) => Ok(records_views(out@) + rest),
            },
        decreases n - i,
    {
        if feats[i].levels.len() == 0 {
            assert(feature_records_from(ftv, i as int) == Err::<Seq<RecordModel>, MgfError>(
                MgfError::ValueError,
            ));
            return Err(MgfError::ValueError);
        }
        let rec = SpectrumRecord {
            id: feats[i].fid,
            peaks: crate::generic::copy_peaks(&feats[i].levels[0]),
            precursor_mz: Some(copy_bytes(&feats[i].pep)),
        };
        proof {
            assert(levels_views(feats@[i as int].levels@)[0] == peaks_views(
                feats@[i as int].levels@[0]@,
            ));
            assert(rec@ == RecordModel {
                id: ftv[i as int].fid,
                peaks: ftv[i as int].levels[0],
                precursor: Some(ftv[i as int].pep),
            });
        }
        let ghost old_out = records_views(out@);
        out.push(rec);
        proof {
            assert(records_views(out@) =~= old_out.push(rec@));
            if feature_records_from(ftv, i + 1) is Ok {
                let rest = feature_records_from(ftv, i + 1).unwrap();
                assert(old_out + (seq![rec@] + rest) =~= records_views(out@) + rest);
            }
        }
        i = i + 1;
    }
    assert(feature_records_from(ftv, n as int) == Ok::<Seq<RecordModel>, MgfError>(Seq::empty()));
    assert(records_views(out@) + Seq::<RecordModel>::empty() =~= records_views(out@));
    Ok(out)
}

/// Count the spectra under the feature-centric strategy, without copying
/// peak data or building records: the blocks are validated, grouped by
/// feature identifier, and each feature checked for a fragmentation level.
pub fn count_features_exec(content: &[u8]) -> (r: Result<usize, MgfError>)
    ensures
        match r {
            Ok(c) => count_features(content@) == Ok::<int, MgfError>(c as int),
            Err(e) => count_features(content@) == Err::<int, MgfError>(e),
        },
{
    let blocks = match parse_blocks(content) {
        None => {
            return Err(MgfError::IOError);
        },
        Some(bs) => bs,
    };
    let ghost bsv = blocks_views(blocks@);
    // Validate every block and keep only its identifier and level.
    let mut meta: Vec<(u64, u64)> = Vec::new();
    let ghost mut fbs = Seq::<FBlockModel>::empty();
    let n = blocks.len();
    let mut i: usize = 0;
    assert(fbs + Seq::<FBlockModel>::empty() =~= fbs);
    while i < n
        invariant
            n == blocks@.len(),
            i <= n,
            bsv == blocks_views(blocks@),
            mgf_blocks(content@) == Some(bsv),
            meta@.len() == i,
            fbs.len() == i,
            forall|j: int| 0 <= j < i ==> #[trigger] meta@[j].0 as nat == fbs[j].fid,
            forall|j: int| 0 <= j < i ==> #[trigger] meta@[j].1 as nat == fbs[j].mslevel,
            fblocks_from(bsv, 0) == match fblocks_from(bsv, i as int) {
                Err(e) => Err::<Seq<FBlockModel>, MgfError>(e),
                Ok(rest) => Ok(fbs + rest),
            },
        decreases n - i,
    {
        let idw = feature_id_exec();
        let fid = match header_uint_exec(&blocks[i], idw.as_slice()) {
            Err(e) => {
                return Err(e);
            },
            Ok(v) => v,
        };
        match feature_pep_exec(&blocks[i]) {
            Err(e) => {
                return Err(e);
            },
            Ok(_) => {},
        }
        let mlw = mslevel_exec();
        let lvl = match header_uint_exec(&blocks[i], mlw.as_slice()) {
            Err(e) => {
                return Err(e);
            },
            Ok(v) => v,
        };
        meta.push((fid, lvl));
        proof {
            let old_fbs = fbs;
            let fb = fblock_of(bsv[i as int]).unwrap();
            fbs = fbs.push(fb);
            assert(fb.fid == fid as nat && fb.mslevel == lvl as nat);
            if fblocks_from(bsv, i + 1) is Ok {
                let rest = fblocks_from(bsv, i + 1).unwrap();
                assert(old_fbs + (seq![fb] + rest) =~= fbs + rest);
            }
        }
        i = i + 1;
    }
    assert(fblocks_from(bsv, n as int) == Ok::<Seq<FBlockModel>, MgfError>(Seq::empty()));
    assert(fbs + Seq::<FBlockModel>::empty() =~= fbs);
    // Group by identifier, keeping only each feature's level count.
    let ghost feats = group_features(fbs);
    let mut counts: Vec<(u64, usize)> = Vec::new();
    let m = meta.len();
    let mut k: usize = 0;
    assert(group_features(fbs.subrange(0, 0)) =~= Seq::<FeatureModel>::empty()) by {
        assert(fbs.subrange(0, 0) =~= Seq::<FBlockModel>::empty());
    }
    while k < m
        invariant
            m == meta@.len(),
            m == fbs.len(),
            k <= m,
            forall|j: int| 0 <= j < m ==> #[trigger] meta@[j].0 as nat == fbs[j].fid,
            forall|j: int| 0 <= j < m ==> #[trigger] meta@[j].1 as nat == fbs[j].mslevel,
            counts@.len() == group_features(fbs.subrange(0, k as int)).len(),
            forall|j: int|
                0 <= j < counts@.len() ==> #[trigger] counts@[j].0 as nat == group_features(
                    fbs.subrange(0, k as int),
                )[j].fid,
            forall|j: int|
                0 <= j < counts@.len() ==> #[trigger] counts@[j].1 as nat == group_features(
                    fbs.subrange(0, k as int),
                )[j].levels.len(),
        decreases m - k,
    {
        let ghost pre = fbs.subrange(0, k as int);
        let ghost cur = fbs.subrange(0, k + 1);
        proof {
            assert(cur.drop_last() =~= pre);
            assert(cur.last() == fbs[k as int]);
        }
        proof {
            assert(meta@[k as int].0 as nat == fbs[k as int].fid);
            assert(meta@[k as int].1 as nat == fbs[k as int].mslevel);
        }
        let merge = counts.len() > 0 && counts[counts.len() - 1].0 == meta[k].0;
        let add: usize = if meta[k].1 >= 2 {
            1
        } else {
            0
        };
        proof {
            assert(levels_of(fbs[k as int]).len() == add as int);
        }
        let ghost old_counts = counts@;
        if merge {
            proof {
                assert(old_counts[old_counts.len() - 1].0 as nat == group_features(
                    pre,
                )[old_counts.len() - 1].fid);
                assert(old_counts[old_counts.len() - 1].1 as nat == group_features(
                    pre,
                )[old_counts.len() - 1].levels.len());
            }
            let last = counts.pop().unwrap();
            assert(last.1 <= usize::MAX - 1) by {
                lemma_group_levels_bound(pre);
                assert(group_features(pre)[old_counts.len() - 1].levels.len() <= pre.len());
            }
            counts.push((last.0, last.1 + add));
            proof {
                let gpre = group_features(pre);
                let gcur = group_features(cur);
                assert(gcur == gpre.update(
                    gpre.len() - 1,
                    FeatureModel {
                        fid: gpre.last().fid,
                        pep: gpre.last().pep,
                        levels: gpre.last().levels + levels_of(fbs[k as int]),
                    },
                ));
                assert(counts@ =~= old_counts.update(
                    old_counts.len() - 1,
                    (last.0, (last.1 + add) as usize),
                ));
            }
        } else {
            counts.push((meta[k].0, add));
            proof {
                let gpre = group_features(pre);
                let gcur = group_features(cur);
                assert(gcur == gpre.push(
                    FeatureModel {
                        fid: fbs[k as int].fid,
                        pep: fbs[k as int].pep,
                        levels: levels_of(fbs[k as int]),
                    },
                ));
                assert(counts@ =~= old_counts.push((meta@[k as int].0, add as usize)));
            }
        }
        k = k + 1;
    }
    assert(fbs.subrange(0, m as int) =~= fbs);
    // One record per feature, provided each has a fragmentation level.
    let ghost mut recs = Seq::<RecordModel>::empty();
    let c = counts.len();
    let mut k2: usize = 0;
    assert(recs + Seq::<RecordModel>::empty() =~= recs);
    while k2 < c
        invariant
            c == counts@.len(),
            c == feats.len(),
            k2 <= c,
            feats == group_features(fbs),
            extract_features(content@) == feature_records_from(feats, 0),
            forall|j: int|
                0 <= j < c ==> #[trigger] counts@[j].1 as nat == feats[j].levels.len(),
            forall|j: int| 0 <= j < c ==> #[trigger] counts@[j].0 as nat == feats[j].fid,
            recs.len() == k2,
            feature_records_from(feats, 0) == match feature_records_from(feats, k2 as int) {
                Err(e) => Err::<Seq<RecordModel>, MgfError>(e),
                Ok(rest) => Ok(recs + rest),
            },
        decreases c - k2,
    {
        if counts[k2].1 == 0 {
            assert(feature_records_from(feats, k2 as int) == Err::<Seq<RecordModel>, MgfError>(
                MgfError::ValueError,
            ));
            return Err(MgfError::ValueError);
        }
        proof {
            let old_recs = recs;
            let f = feats[k2 as int];
            let rec = RecordModel { id: f.fid, peaks: f.levels[0], precursor: Some(f.pep) };
            recs = recs.push(rec);
            if feature_records_from(feats, k2 + 1) is Ok {
                let rest = feature_records_from(feats, k2 + 1).unwrap();
                assert(old_recs + (seq![rec] + rest) =~= recs + rest);
            }
        }
        k2 = k2 + 1;
    }
    assert(feature_records_from(feats, c as int) == Ok::<Seq<RecordModel>, MgfError>(Seq::empty()));
    assert(recs + Seq::<RecordModel>::empty() =~= recs);
    Ok(counts.len())
}

/// No feature holds more fragmentation levels than there are blocks.
proof fn lemma_group_levels_bound(fs: Seq<FBlockModel>)
    ensures
        forall|j: int|
            0 <= j < group_features(fs).len() ==> #[trigger] group_features(
                fs,
            )[j].levels.len() <= fs.len(),
    decreases fs.len(),
{
    if fs.len() > 0 {
        lemma_group_levels_bound(fs.drop_last());
        let gs = group_features(fs.drop_last());
        assert forall|j: int|
            0 <= j < group_features(fs).len() implies #[trigger] group_features(
            fs,
        )[j].levels.len() <= fs.len() by {
            assert(levels_of(fs.last()).len() <= 1);
            if gs.len() > 0 && gs.last().fid == fs.last().fid {
                if j < gs.len() - 1 {
                    assert(group_features(fs)[j] == gs[j]);
                    assert(gs[j].levels.len() <= fs.drop_last().len());
                } else {
                    assert(gs[gs.len() - 1].levels.len() <= fs.drop_last().len());
                }
            } else {
                if j < gs.len() {
                    assert(group_features(fs)[j] == gs[j]);
                    assert(gs[j].levels.len() <= fs.drop_last().len());
                }
            }
        }
    }
}

} // verus!
