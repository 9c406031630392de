//! Chunk header validation and the two chunk kinds, `Subrecord` and
//! `Record`.
//!
//! A subrecord header is 8 bytes (tag + size); a record header is 16
//! bytes (tag + size + 8 flag bytes).  The declared size is a
//! little-endian 32-bit integer in bytes `[4, 8)` of the header and
//! counts the payload only, never the header itself.  A record's body
//! is a back-to-back sequence of subrecords whose framed lengths add
//! up to exactly the declared record size; a subrecord that would run
//! past that boundary is a malformed-input condition, never a silent
//! truncation.

use vstd::prelude::*;

use crate::error::{Error, ErrorKind, ErrorKindV, ErrorV, Frame, Level};
use crate::error::{spec_bare, spec_result, spec_with_frame};

verus! {

/// Header length of a subrecord: 4 tag bytes + 4 size bytes.
pub const SUB_HEAD: u32 = 8;

/// Header length of a record: 4 tag bytes + 4 size bytes + 8 flag bytes.
pub const REC_HEAD: u32 = 16;

/// The little-endian 32-bit value stored at offset `off` of `s`.
pub open spec fn spec_le_u32_at(s: Seq<u8>, off: int) -> u32 {
    vstd::bytes::spec_u32_from_le_bytes(s.subrange(off, off + 4))
}

/// Reads the little-endian 32-bit value in the first four bytes of `data`.
pub fn parse_u32(data: &[u8]) -> (r: u32)
    requires
        data@.len() >= 4,
    ensures
        r == spec_le_u32_at(data@, 0),
{
    proof {
        assert(data@.subrange(0, 4).subrange(0, 4) =~= data@.subrange(0, 4));
    }
    vstd::bytes::u32_from_le_bytes(&data[0..4])
}

/// Mathematical image of [`Subrecord`]: its offset from the start of
/// the owning record and its declared payload size.
pub struct SubrecordV {
    pub start: int,
    pub size: int,
}

/// Mathematical image of [`Record`]: its offset in the buffer, its
/// declared body size, and its subrecords in order.
pub struct RecordV {
    pub start: int,
    pub size: int,
    pub subs: Seq<SubrecordV>,
}

/// The innermost chunk kind: an 8-byte header followed by `size`
/// opaque payload bytes.  `start` is the offset of the header from the
/// start of the owning record.
#[derive(Debug)]
pub struct Subrecord {
    start: u32,
    size: u32,
}

/// The outer chunk kind: a 16-byte header followed by a body that is a
/// back-to-back sequence of subrecords.  `start` is the offset of the
/// header in the owning buffer; `size` is the declared body length.
#[derive(Debug)]
pub struct Record {
    start: u32,
    size: u32,
    subrecords: Vec<Subrecord>,
}

impl View for Subrecord {
    type V = SubrecordV;

    closed spec fn view(&self) -> SubrecordV {
        SubrecordV { start: self.start as int, size: self.size as int }
    }
}

/// The views of a sequence of subrecords, in order.
pub open spec fn spec_subs_view(s: Seq<Subrecord>) -> Seq<SubrecordV> {
    s.map_values(|sub: Subrecord| sub@)
}

impl View for Record {
    type V = RecordV;

    closed spec fn view(&self) -> RecordV {
        RecordV {
            start: self.start as int,
            size: self.size as int,
            subs: spec_subs_view(self.subrecords@),
        }
    }
}

/// The chunk header validator, shared by both chunk kinds: the window
/// `win[off .. end)` must hold the `head` fixed header bytes, and the
/// declared size in bytes `[4, 8)` of the header must not exceed the
/// bytes remaining after the header.  Returns the declared size.
pub open spec fn spec_validate(win: Seq<u8>, off: int, end: int, head: int) -> Result<
    int,
    ErrorV,
> {
    if end - off < head {
        Err(spec_bare(ErrorKindV::TooShort { header: head, length: end - off }))
    } else {
        let size = spec_le_u32_at(win, off + 4) as int;
        if size > end - off - head {
            Err(
                spec_bare(
                    ErrorKindV::SizeOverflow { declared: size, available: end - off - head },
                ),
            )
        } else {
            Ok(size)
        }
    }
}

/// Validating a subrecord header against the window `win`, which runs
/// from the subrecord's start to the end of the owning record's frame.
pub open spec fn spec_parse_sub(win: Seq<u8>, start: int) -> Result<SubrecordV, ErrorV> {
    match spec_validate(win, 0, win.len() as int, 8) {
        Ok(size) => Ok(SubrecordV { start: start, size: size }),
        Err(e) => Err(e),
    }
}

/// Parsing the subrecords that tile `win[off .. end)`, where `win` is
/// a record's window and `end` is the end of the record's frame.  The
/// sequence ends exactly at `end`; a failing subrecord is annotated
/// with its ordinal `idx` and offset.
pub open spec fn spec_parse_subs(win: Seq<u8>, off: int, end: int, idx: int) -> Result<
    Seq<SubrecordV>,
    ErrorV,
>
    decreases end - off,
{
    if off >= end {
        Ok(Seq::empty())
    } else {
        match spec_validate(win, off, end, 8) {
            Ok(size) => match spec_parse_subs(win, off + 8 + size, end, idx + 1) {
                Ok(rest) => Ok(seq![SubrecordV { start: off, size: size }] + rest),
                Err(e) => Err(e),
            },
            Err(e) => Err(spec_with_frame(e, Level::Subrecord, idx, off)),
        }
    }
}

/// Parsing one record from the window `win`, which runs from the
/// record's start to the end of the buffer: the window must hold the
/// 16 header bytes, the declared size must not exceed what remains
/// after them, and the body must tile exactly into subrecords.
pub open spec fn spec_parse_record(win: Seq<u8>, start: int) -> Result<RecordV, ErrorV> {
    match spec_validate(win, 0, win.len() as int, 16) {
        Ok(size) => match spec_parse_subs(win, 16, 16 + size, 0) {
            Ok(subs) => Ok(RecordV { start: start, size: size, subs: subs }),
            Err(e) => Err(e),
        },
        Err(e) => Err(e),
    }
}

/// Total framed length of a sequence of subrecords: 8 header bytes
/// plus the declared payload size for each.
pub open spec fn spec_subs_framed_len(subs: Seq<SubrecordV>) -> int
    decreases subs.len(),
{
    if subs.len() == 0 {
        0
    } else {
        8 + subs[0].size + spec_subs_framed_len(subs.drop_first())
    }
}

proof fn lemma_parse_subs_framed_len(win: Seq<u8>, off: int, end: int, idx: int, subs: Seq<
    SubrecordV,
>)
    requires
        off <= end,
        spec_parse_subs(win, off, end, idx) == Ok::<_, ErrorV>(subs),
    ensures
        spec_subs_framed_len(subs) == end - off,
    decreases end - off,
{
    if off >= end {
        assert(subs =~= Seq::<SubrecordV>::empty());
    } else {
        let size = spec_validate(win, off, end, 8)->Ok_0;
        let rest = spec_parse_subs(win, off + 8 + size, end, idx + 1)->Ok_0;
        lemma_parse_subs_framed_len(win, off + 8 + size, end, idx + 1, rest);
        assert(subs.drop_first() =~= rest);
    }
}

/// For every valid record, the subrecords' cumulative framed length
/// (8 + size for each) equals the record's declared size: parsing a
/// record body stops exactly at its declared boundary, never short or
/// over.
pub proof fn lemma_record_framed_len(win: Seq<u8>, start: int, r: RecordV)
    requires
        spec_parse_record(win, start) == Ok::<_, ErrorV>(r),
    ensures
        spec_subs_framed_len(r.subs) == r.size,
{
    lemma_parse_subs_framed_len(win, 16, 16 + r.size, 0, r.subs);
}

/// Subrecords that lie, in order, inside a record body of the given
/// declared size: each starts at or after the 16-byte header and ends
/// at or before the record frame's end.
pub open spec fn spec_subs_in_frame(subs: Seq<SubrecordV>, size: int) -> bool {
    forall|j: int|
        0 <= j < subs.len() ==> {
            &&& 16 <= (#[trigger] subs[j]).start
            &&& 0 <= subs[j].size
            &&& subs[j].start + 8 + subs[j].size <= 16 + size
        }
}

/// Every subrecord parsed from `win[off .. end)` starts at or after
/// `off` and ends at or before `end`.
pub proof fn lemma_parse_subs_in_frame(win: Seq<u8>, off: int, end: int, idx: int, subs: Seq<
    SubrecordV,
>)
    requires
        16 <= off <= end,
        spec_parse_subs(win, off, end, idx) == Ok::<_, ErrorV>(subs),
    ensures
        forall|j: int|
            0 <= j < subs.len() ==> {
                &&& off <= (#[trigger] subs[j]).start
                &&& 0 <= subs[j].size
                &&& subs[j].start + 8 + subs[j].size <= end
            },
    decreases end - off,
{
    if off >= end {
        assert(subs =~= Seq::<SubrecordV>::empty());
    } else {
        let size = spec_validate(win, off, end, 8)->Ok_0;
        let rest = spec_parse_subs(win, off + 8 + size, end, idx + 1)->Ok_0;
        lemma_parse_subs_in_frame(win, off + 8 + size, end, idx + 1, rest);
        assert(subs[0] == SubrecordV { start: off, size: size });
        assert(forall|j: int| 1 <= j < subs.len() ==> subs[j] == rest[j - 1]);
    }
}

/// A record parsed from a window is well formed: its size is
/// non-negative, its frame fits the window, and its subrecords lie in
/// order inside its body.
pub proof fn lemma_parse_record_wf(win: Seq<u8>, start: int, r: RecordV)
    requires
        spec_parse_record(win, start) == Ok::<_, ErrorV>(r),
    ensures
        r.start == start,
        0 <= r.size,
        16 + r.size <= win.len(),
        spec_subs_in_frame(r.subs, r.size),
{
    lemma_parse_subs_in_frame(win, 16, 16 + r.size, 0, r.subs);
}

/// Parsing subrecords reads only the window's first `end` bytes, so
/// any two windows that agree there parse alike.
pub proof fn lemma_parse_subs_window(w1: Seq<u8>, w2: Seq<u8>, off: int, end: int, idx: int)
    requires
        0 <= off,
        end <= w1.len(),
        end <= w2.len(),
        forall|k: int| 0 <= k < end ==> w1[k] == w2[k],
    ensures
        spec_parse_subs(w1, off, end, idx) == spec_parse_subs(w2, off, end, idx),
    decreases end - off,
{
    if off < end {
        if end - off >= 8 {
            assert(w1.subrange(off + 4, off + 8) =~= w2.subrange(off + 4, off + 8));
            assert(spec_le_u32_at(w1, off + 4) == spec_le_u32_at(w2, off + 4));
            match spec_validate(w1, off, end, 8) {
                Ok(size) => {
                    lemma_parse_subs_window(w1, w2, off + 8 + size, end, idx + 1);
                },
                Err(_) => {},
            }
        }
    }
}

/// Prefixes the subrecords of an `Ok` parse with `pre`, passing an
/// `Err` through.
pub open spec fn spec_ok_prepend(pre: Seq<SubrecordV>, r: Result<Seq<SubrecordV>, ErrorV>) -> Result<
    Seq<SubrecordV>,
    ErrorV,
> {
    match r {
        Ok(rest) => Ok(pre + rest),
        Err(e) => Err(e),
    }
}

/// Validates a fixed-size chunk header at the start of `data` and
/// returns the declared payload size.  `head` is the header length in
/// bytes: 8 for a subrecord, 16 for a record.
pub fn validate_header(data: &[u8], head: u32) -> (r: Result<u32, Error>)
    requires
        data@.len() <= u32::MAX,
        head == SUB_HEAD || head == REC_HEAD,
    ensures
        (match r {
            Ok(size) => Ok(size as int),
            Err(e) => Err(e@),
        }) == spec_validate(data@, 0, data@.len() as int, head as int),
{
    if data.len() < head as usize {
        return Err(
            Error {
                kind: ErrorKind::TooShort { header: head, length: data.len() as u32 },
                frames: Vec::new(),
            },
        );
    }
    proof {
        assert(data@.subrange(4, 8).subrange(0, 4) =~= data@.subrange(4, 8));
    }
    let size = parse_u32(&data[4..8]);
    let available = (data.len() - head as usize) as u32;
    if size > available {
        return Err(
            Error {
                kind: ErrorKind::SizeOverflow { declared: size, available: available },
                frames: Vec::new(),
            },
        );
    }
    Ok(size)
}

impl Subrecord {
    /// Validates a subrecord header.  `data` is the window from the
    /// subrecord's start to the end of the owning record's frame;
    /// `start` is the offset of that window from the record's start
    /// and is only recorded, never read from.
    pub fn new(data: &[u8], start: u32) -> (r: Result<Subrecord, Error>)
        requires
            data@.len() <= u32::MAX,
        ensures
            spec_result(r) == spec_parse_sub(data@, start as int),
            r matches Ok(s) ==> s@.start == start && s@.size == spec_le_u32_at(data@, 4),
    {
        match validate_header(data, SUB_HEAD) {
            Ok(size) => Ok(Subrecord { start: start, size: size }),
            Err(e) => Err(e),
        }
    }

    /// Builds a subrecord index entry from its parts.
    pub(crate) fn assemble(start: u32, size: u32) -> (r: Subrecord)
        ensures
            r@ == (SubrecordV { start: start as int, size: size as int }),
    {
        Subrecord { start: start, size: size }
    }

    /// The declared payload size in bytes.
    pub fn size(&self) -> (r: u32)
        ensures
            r == self@.size,
    {
        self.size
    }

    /// The offset of this subrecord's header from the start of the
    /// owning record.
    pub fn start(&self) -> (r: u32)
        ensures
            r == self@.start,
    {
        self.start
    }

    /// The byte range of this subrecord's frame (header + payload)
    /// within the owning record's window.
    pub fn range(&self) -> (r: core::ops::Range<usize>)
        requires
            self@.start + 8 + self@.size <= usize::MAX,
        ensures
            r.start == self@.start,
            r.end == self@.start + 8 + self@.size,
    {
        self.start as usize..(self.start as usize + SUB_HEAD as usize + self.size as usize)
    }
}

impl Record {
    /// Validates a record header and indexes the subrecords that tile
    /// its body.  `data` is the window from the record's start to the
    /// end of the buffer; `start` is the offset of that window in the
    /// buffer and is only recorded, never read from.
    pub fn new(data: &[u8], start: u32) -> (r: Result<Record, Error>)
        requires
            data@.len() <= u32::MAX,
        ensures
            spec_result(r) == spec_parse_record(data@, start as int),
            r matches Ok(rec) ==> rec@.start == start && rec@.size == spec_le_u32_at(data@, 4),
    {
        let size = match validate_header(data, REC_HEAD) {
            Ok(size) => size,
            Err(e) => {
                return Err(e);
            },
        };
        let end: u32 = REC_HEAD + size;
        let mut subrecords: Vec<Subrecord> = Vec::new();
        let mut offset: u32 = REC_HEAD;
        proof {
            let all = spec_parse_subs(data@, 16, end as int, 0);
            if all is Ok {
                assert(spec_subs_view(subrecords@) + all->Ok_0 =~= all->Ok_0);
            }
        }
        while offset < end
            invariant
                data@.len() <= u32::MAX,
                16 <= end <= data@.len(),
                end == 16 + size,
                size == spec_le_u32_at(data@, 4),
                size <= data@.len() - 16,
                16 <= offset <= end,
                spec_parse_subs(data@, 16, end as int, 0) == spec_ok_prepend(
                    spec_subs_view(subrecords@),
                    spec_parse_subs(data@, offset as int, end as int, subrecords@.len() as int),
                ),
            decreases end - offset,
        {
            let window = &data[(offset as usize)..(end as usize)];
            proof {
                if end - offset >= 8 {
                    assert(window@.subrange(4, 8) =~= data@.subrange(
                        offset as int + 4,
                        offset as int + 8,
                    ));
                }
                assert(spec_validate(window@, 0, window@.len() as int, 8) == spec_validate(
                    data@,
                    offset as int,
                    end as int,
                    8,
                ));
            }
            match Subrecord::new(window, offset) {
                Ok(sub) => {
                    proof {
                        let rest1 = spec_parse_subs(
                            data@,
                            offset + 8 + sub@.size,
                            end as int,
                            subrecords@.len() as int + 1,
                        );
                        if rest1 is Ok {
                            assert(spec_subs_view(subrecords@.push(sub)) =~= spec_subs_view(
                                subrecords@,
                            ) + seq![sub@]);
                            assert(spec_subs_view(subrecords@) + (seq![sub@] + rest1->Ok_0)
                                =~= spec_subs_view(subrecords@.push(sub)) + rest1->Ok_0);
                        }
                    }
                    offset = offset + SUB_HEAD + sub.size();
                    subrecords.push(sub);
                },
                Err(e) => {
                    let mut e = e;
                    e.frames.push(
                        Frame { level: Level::Subrecord, index: subrecords.len(), offset: offset },
                    );
                    return Err(e);
                },
            }
        }
        proof {
            assert(spec_subs_view(subrecords@) + Seq::<SubrecordV>::empty() =~= spec_subs_view(
                subrecords@,
            ));
        }
        Ok(Record { start: start, size: size, subrecords: subrecords })
    }

    /// Builds a record index entry from its parts.
    pub(crate) fn assemble(start: u32, size: u32, subrecords: Vec<Subrecord>) -> (r: Record)
        ensures
            r@ == (RecordV {
                start: start as int,
                size: size as int,
                subs: spec_subs_view(subrecords@),
            }),
    {
        Record { start: start, size: size, subrecords: subrecords }
    }

    /// The declared body size in bytes (the 16-byte header excluded).
    pub fn size(&self) -> (r: u32)
        ensures
            r == self@.size,
    {
        self.size
    }

    /// The offset of this record's header in the owning buffer.
    pub fn start(&self) -> (r: u32)
        ensures
            r == self@.start,
    {
        self.start
    }

    /// The number of subrecords in this record's body.
    pub fn subrecord_count(&self) -> (r: usize)
        ensures
            r == self@.subs.len(),
    {
        self.subrecords.len()
    }

    /// The `i`-th subrecord of this record.
    pub fn subrecord(&self, i: usize) -> (r: &Subrecord)
        requires
            i < self@.subs.len(),
        ensures
            r@ == self@.subs[i as int],
    {
        &self.subrecords[i]
    }

    /// The byte range of this record's frame (header + body) within
    /// the owning buffer.
    pub fn range(&self) -> (r: core::ops::Range<usize>)
        requires
            self@.start + 16 + self@.size <= usize::MAX,
        ensures
            r.start == self@.start,
            r.end == self@.start + 16 + self@.size,
    {
        self.start as usize..(self.start as usize + REC_HEAD as usize + self.size as usize)
    }
}

} // verus!
