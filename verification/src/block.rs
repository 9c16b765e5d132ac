//! The MGF block structure. A document is a sequence of lines; spectrum
//! blocks are bracketed by `BEGIN IONS` and `END IONS` lines. Inside a
//! block, a line with an equals sign is a `KEY=value` header, a blank line
//! is ignored, and any other line is a peak line whose first two
//! whitespace-separated tokens must be numeric. Outside blocks, blank lines
//! and global header lines are ignored; anything else is malformed.

use vstd::prelude::*;

use crate::record::Peak;
use crate::text::bytes_views;
use crate::text::check_num_token;
use crate::text::find_byte;
use crate::text::is_num_token;
use crate::text::spec_find_byte;
use crate::text::split_by;
use crate::text::split_by_exec;
use crate::text::tokens_exec;
use crate::text::tokens_of;

verus! {

/// The word BEGIN, as bytes.
pub open spec fn begin_word() -> Seq<u8> {
    seq![66u8, 69u8, 71u8, 73u8, 78u8]
}

/// The word IONS, as bytes.
pub open spec fn ions_word() -> Seq<u8> {
    seq![73u8, 79u8, 78u8, 83u8]
}

/// The word END, as bytes.
pub open spec fn end_word() -> Seq<u8> {
    seq![69u8, 78u8, 68u8]
}

pub enum LineKind {
    Blank,
    Begin,
    End,
    Header,
    Peak,
}

/// How one line reads: a `KEY=value` header if it holds an equals sign,
/// otherwise by its whitespace-separated tokens.
pub open spec fn line_kind(l: Seq<u8>) -> LineKind {
    if spec_find_byte(l, 61) < l.len() {
        LineKind::Header
    } else {
        let ts = tokens_of(l);
        if ts.len() == 0 {
            LineKind::Blank
        } else if ts == seq![begin_word(), ions_word()] {
            LineKind::Begin
        } else if ts == seq![end_word(), ions_word()] {
            LineKind::End
        } else {
            LineKind::Peak
        }
    }
}

/// The key and value of a header line: the parts before and after the
/// first equals sign.
pub open spec fn header_of(l: Seq<u8>) -> (Seq<u8>, Seq<u8>) {
    let e = spec_find_byte(l, 61);
    (l.subrange(0, e), l.subrange(e + 1, l.len() as int))
}

/// The peak a peak line carries: its first two tokens, which must both be
/// numeric; `None` marks a malformed peak line.
pub open spec fn peak_of(l: Seq<u8>) -> Option<(Seq<u8>, Seq<u8>)> {
    let ts = tokens_of(l);
    if ts.len() >= 2 && is_num_token(ts[0]) && is_num_token(ts[1]) {
        Some((ts[0], ts[1]))
    } else {
        None
    }
}

/// The model of one raw block: its header fields and its peak pairs, each
/// in source order.
pub struct RawBlock {
    pub headers: Seq<(Seq<u8>, Seq<u8>)>,
    pub peaks: Seq<(Seq<u8>, Seq<u8>)>,
}

pub open spec fn empty_block() -> RawBlock {
    RawBlock { headers: Seq::empty(), peaks: Seq::empty() }
}

/// Parse lines from position `i` onward, with `cur` the block currently
/// open, if any. `None` marks a structurally malformed document: a stray
/// line outside a block, a block begun inside a block, a malformed peak
/// line, or a block never terminated.
pub open spec fn parse_from(ls: Seq<Seq<u8>>, i: int, cur: Option<RawBlock>) -> Option<
    Seq<RawBlock>,
>
    decreases ls.len() - i,
{
    if i < 0 || i >= ls.len() {
        match cur {
            None => Some(Seq::empty()),
            Some(_) => None,
        }
    } else {
        match cur {
            None => match line_kind(ls[i]) {
                LineKind::Blank => parse_from(ls, i + 1, None),
                LineKind::Header => parse_from(ls, i + 1, None),
                LineKind::Begin => parse_from(ls, i + 1, Some(empty_block())),
                LineKind::End => None,
                LineKind::Peak => None,
            },
            Some(b) => match line_kind(ls[i]) {
                LineKind::Blank => parse_from(ls, i + 1, Some(b)),
                LineKind::Header => parse_from(
                    ls,
                    i + 1,
                    Some(RawBlock { headers: b.headers.push(header_of(ls[i])), peaks: b.peaks }),
                ),
                LineKind::Peak => match peak_of(ls[i]) {
                    None => None,
                    Some(p) => parse_from(
                        ls,
                        i + 1,
                        Some(RawBlock { headers: b.headers, peaks: b.peaks.push(p) }),
                    ),
                },
                LineKind::Begin => None,
                LineKind::End => match parse_from(ls, i + 1, None) {
                    None => None,
                    Some(rest) => Some(seq![b] + rest),
                },
            },
        }
    }
}

/// The blocks of a whole document's bytes, or `None` if it is malformed.
pub open spec fn mgf_blocks(s: Seq<u8>) -> Option<Seq<RawBlock>> {
    parse_from(split_by(s, false), 0, None)
}

/// One header field as parsed: key and value bytes.
pub struct HeaderField {
    pub key: Vec<u8>,
    pub value: Vec<u8>,
}

impl View for HeaderField {
    type V = (Seq<u8>, Seq<u8>);

    open spec fn view(&self) -> (Seq<u8>, Seq<u8>) {
        (self.key@, self.value@)
    }
}

pub open spec fn headers_views(v: Seq<HeaderField>) -> Seq<(Seq<u8>, Seq<u8>)> {
    Seq::new(v.len(), |i: int| v[i]@)
}

/// One parsed block.
pub struct BlockBuf {
    pub headers: Vec<HeaderField>,
    pub peaks: Vec<Peak>,
}

impl View for BlockBuf {
    type V = RawBlock;

    open spec fn view(&self) -> RawBlock {
        RawBlock {
            headers: headers_views(self.headers@),
            peaks: crate::record::peaks_views(self.peaks@),
        }
    }
}

pub open spec fn blocks_views(v: Seq<BlockBuf>) -> Seq<RawBlock> {
    Seq::new(v.len(), |i: int| v[i]@)
}

pub fn bytes_eq(a: &[u8], b: &[u8]) -> (r: bool)
    ensures
        r == (a@ == b@),
{
    if a.len() != b.len() {
        return false;
    }
    let n = a.len();
    let mut i: usize = 0;
    while i < n
        invariant
            n == a@.len(),
            n == b@.len(),
            i <= n,
            forall|j: int| 0 <= j < i ==> a@[j] == b@[j],
        decreases n - i,
    {
        if a[i] != b[i] {
            return false;
        }
        i = i + 1;
    }
    assert(a@ =~= b@);
    true
}

fn word_begin() -> (r: Vec<u8>)
    ensures
        r@ == begin_word(),
{
    let mut v: Vec<u8> = Vec::new();
    v.push(66);
    v.push(69);
    v.push(71);
    v.push(73);
    v.push(78);
    assert(v@ =~= begin_word());
    v
}

fn word_ions() -> (r: Vec<u8>)
    ensures
        r@ == ions_word(),
{
    let mut v: Vec<u8> = Vec::new();
    v.push(73);
    v.push(79);
    v.push(78);
    v.push(83);
    assert(v@ =~= ions_word());
    v
}

fn word_end() -> (r: Vec<u8>)
    ensures
        r@ == end_word(),
{
    let mut v: Vec<u8> = Vec::new();
    v.push(69);
    v.push(78);
    v.push(68);
    assert(v@ =~= end_word());
    v
}

pub fn classify_line(l: &[u8]) -> (k: LineKind)
    ensures
        k == line_kind(l@),
{
    let e = find_byte(l, 61);
    if e < l.len() {
        return LineKind::Header;
    }
    let ts = tokens_exec(l);
    if ts.len() == 0 {
        return LineKind::Blank;
    }
    let ghost tv = tokens_of(l@);
    assert(tv == bytes_views(ts@));
    if ts.len() == 2 {
        let wb = word_begin();
        let wi = word_ions();
        if bytes_eq(ts[0].as_slice(), wb.as_slice()) && bytes_eq(ts[1].as_slice(), wi.as_slice()) {
            assert(tv =~= seq![begin_word(), ions_word()]);
            return LineKind::Begin;
        }
        let we = word_end();
        if bytes_eq(ts[0].as_slice(), we.as_slice()) && bytes_eq(ts[1].as_slice(), wi.as_slice()) {
            assert(tv =~= seq![end_word(), ions_word()]);
            assert(tv != seq![begin_word(), ions_word()]) by {
                assert(tv[0] == end_word());
                assert(seq![begin_word(), ions_word()][0] == begin_word());
                assert(end_word()[0] != begin_word()[0]);
            }
            return LineKind::End;
        }
        assert(tv != seq![begin_word(), ions_word()]) by {
            assert(seq![begin_word(), ions_word()][0] == begin_word());
            assert(seq![begin_word(), ions_word()][1] == ions_word());
        }
        assert(tv != seq![end_word(), ions_word()]) by {
            assert(seq![end_word(), ions_word()][0] == end_word());
            assert(seq![end_word(), ions_word()][1] == ions_word());
        }
        return LineKind::Peak;
    }
    assert(tv != seq![begin_word(), ions_word()]);
    assert(tv != seq![end_word(), ions_word()]);
    LineKind::Peak
}

/// Read a header line into its key and value.
fn read_header(l: &[u8]) -> (h: HeaderField)
    requires
        spec_find_byte(l@, 61) < l@.len(),
    ensures
        h@ == header_of(l@),
{
    let n = l.len();
    let e = find_byte(l, 61);
    assert(e < n);
    let key = vstd::slice::slice_to_vec(vstd::slice::slice_subrange(l, 0, e));
    let value = vstd::slice::slice_to_vec(vstd::slice::slice_subrange(l, e + 1, n));
    HeaderField { key, value }
}

/// Read a peak line into its peak, or `None` if it is malformed.
fn read_peak(l: &[u8]) -> (p: Option<Peak>)
    ensures
        match p {
            Some(pk) => peak_of(l@) == Some(pk@),
            None => peak_of(l@) is None,
        },
{
    let mut ts = tokens_exec(l);
    if ts.len() < 2 {
        return None;
    }
    if !check_num_token(ts[0].as_slice()) || !check_num_token(ts[1].as_slice()) {
        return None;
    }
    let mz = ts.remove(0);
    let intensity = ts.remove(0);
    Some(Peak { mz, intensity })
}

/// The model of a possibly open block buffer.
pub open spec fn open_block_view(c: &Option<BlockBuf>) -> Option<RawBlock> {
    match c {
        Some(b) => Some(b@),
        None => None,
    }
}

/// Parse a document's lines into its blocks; `None` marks a structurally
/// malformed document.
pub fn parse_blocks(content: &[u8]) -> (r: Option<Vec<BlockBuf>>)
    ensures
        match r {
            Some(bs) => mgf_blocks(content@) == Some(blocks_views(bs@)),
            None => mgf_blocks(content@) is None,
        },
{
    let lines = split_by_exec(content, false);
    let ghost lsv = bytes_views(lines@);
    let mut done: Vec<BlockBuf> = Vec::new();
    let mut cur: Option<BlockBuf> = None;
    let n = lines.len();
    let mut i: usize = 0;
    assert(blocks_views(done@) + Seq::<RawBlock>::empty() =~= blocks_views(done@));
    while i < n
        invariant
            n == lines@.len(),
            i <= n,
            lsv == bytes_views(lines@),
            lsv == split_by(content@, false),
            parse_from(lsv, 0, None) == match parse_from(lsv, i as int, open_block_view(&cur)) {
                None => None::<Seq<RawBlock>>,
                Some(rest) => Some(blocks_views(done@) + rest),
            },
        decreases n - i,
    {
        let k = classify_line(lines[i].as_slice());
        assert(lsv[i as int] == lines@[i as int]@);
        let ghost cv = open_block_view(&cur);
        let state = cur;
        match state {
            None => {
                match k {
                    LineKind::Blank => {
                        cur = None;
                    },
                    LineKind::Header => {
                        cur = None;
                    },
                    LineKind::Begin => {
                        let nb = BlockBuf { headers: Vec::new(), peaks: Vec::new() };
                        proof {
                            assert(nb@ =~= empty_block()) by {
                                assert(headers_views(nb.headers@) =~= Seq::<
                                    (Seq<u8>, Seq<u8>),
                                >::empty());
                                assert(crate::record::peaks_views(nb.peaks@) =~= Seq::<
                                    (Seq<u8>, Seq<u8>),
                                >::empty());
                            }
                        }
                        cur = Some(nb);
                    },
                    LineKind::End => {
                        assert(parse_from(lsv, i as int, cv) is None);
                        return None;
                    },
                    LineKind::Peak => {
                        assert(parse_from(lsv, i as int, cv) is None);
                        return None;
                    },
                }
            },
            Some(b) => {
                match k {
                    LineKind::Blank => {
                        cur = Some(b);
                    },
                    LineKind::Header => {
                        let h = read_header(lines[i].as_slice());
                        let ghost bv = b@;
                        let mut nb = b;
                        nb.headers.push(h);
                        proof {
                            assert(headers_views(nb.headers@) =~= bv.headers.push(
                                header_of(lsv[i as int]),
                            ));
                        }
                        cur = Some(nb);
                    },
                    LineKind::Peak => {
                        match read_peak(lines[i].as_slice()) {
                            None => {
                                assert(parse_from(lsv, i as int, cv) is None);
                                return None;
                            },
                            Some(pk) => {
                                let ghost bv = b@;
                                let mut nb = b;
                                nb.peaks.push(pk);
                                proof {
                                    assert(crate::record::peaks_views(nb.peaks@) =~= bv.peaks.push(
                                        pk@,
                                    ));
                                }
                                cur = Some(nb);
                            },
                        }
                    },
                    LineKind::Begin => {
                        assert(parse_from(lsv, i as int, cv) is None);
                        return None;
                    },
                    LineKind::End => {
                        let ghost bv = b@;
                        done.push(b);
                        cur = None;
                        proof {
                            assert(blocks_views(done@.drop_last()).push(bv) =~= blocks_views(
                                done@,
                            ));
                            if parse_from(lsv, i + 1, None::<RawBlock>) is Some {
                                let rest = parse_from(lsv, i + 1, None::<RawBlock>).unwrap();
                                assert(blocks_views(done@.drop_last()) + (seq![bv] + rest)
                                    =~= blocks_views(done@) + rest);
                            }
                        }
                    },
                }
            },
        }
        i = i + 1;
    }
    match cur {
        Some(_) => None,
        None => {
            assert(parse_from(lsv, n as int, open_block_view(&cur)) == Some(
                Seq::<RawBlock>::empty(),
            ));
            assert(blocks_views(done@) + Seq::<RawBlock>::empty() =~= blocks_views(done@));
            Some(done)
        },
    }
}

} // verus!
