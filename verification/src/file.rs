//! The container: the owned byte buffer and its top-level records.
//!
//! A container in binary form is a back-to-back sequence of records
//! whose framed lengths add up to exactly the buffer length.  The
//! first four bytes of a binary container are the magic signature
//! `TES3` (which doubles as the first record's tag).  An input whose
//! first non-whitespace byte is `<` is the textual form instead.

use vstd::prelude::*;

use crate::chunk::{Record, RecordV, REC_HEAD};
use crate::chunk::spec_parse_record;
use crate::error::{Error, ErrorKind, ErrorKindV, ErrorV, Frame, Level};
use crate::error::{spec_bare, spec_with_frame};

verus! {

/// The views of a sequence of records, in order.
pub open spec fn spec_recs_view(s: Seq<Record>) -> Seq<RecordV> {
    s.map_values(|r: Record| r@)
}

/// Prefixes the records of an `Ok` parse with `pre`, passing an `Err`
/// through.
pub open spec fn spec_rec_ok_prepend(pre: Seq<RecordV>, r: Result<Seq<RecordV>, ErrorV>) -> Result<
    Seq<RecordV>,
    ErrorV,
> {
    match r {
        Ok(rest) => Ok(pre + rest),
        Err(e) => Err(e),
    }
}

/// Parsing the records that tile the whole of `data`, a suffix of the
/// buffer starting at absolute offset `base`.  The sequence ends
/// exactly at the end of the buffer; a failing record is annotated
/// with its ordinal `idx` and absolute offset.
pub open spec fn spec_parse_records(data: Seq<u8>, base: int, idx: int) -> Result<
    Seq<RecordV>,
    ErrorV,
>
    decreases data.len(),
{
    if data.len() == 0 {
        Ok(Seq::empty())
    } else {
        match spec_parse_record(data, base) {
            Ok(r) => match spec_parse_records(
                data.skip(16 + r.size),
                base + 16 + r.size,
                idx + 1,
            ) {
                Ok(rest) => Ok(seq![r] + rest),
                Err(e) => Err(e),
            },
            Err(e) => Err(spec_with_frame(e, Level::Record, idx, base)),
        }
    }
}

/// Total framed length of a sequence of records: 16 header bytes plus
/// the declared body size for each.
pub open spec fn spec_records_framed_len(recs: Seq<RecordV>) -> int
    decreases recs.len(),
{
    if recs.len() == 0 {
        0
    } else {
        16 + recs[0].size + spec_records_framed_len(recs.drop_first())
    }
}

proof fn lemma_parse_records_framed_len(data: Seq<u8>, base: int, idx: int, recs: Seq<RecordV>)
    requires
        spec_parse_records(data, base, idx) == Ok::<_, ErrorV>(recs),
    ensures
        spec_records_framed_len(recs) == data.len(),
    decreases data.len(),
{
    if data.len() == 0 {
        assert(recs =~= Seq::<RecordV>::empty());
    } else {
        let r = spec_parse_record(data, base)->Ok_0;
        let rest = spec_parse_records(data.skip(16 + r.size), base + 16 + r.size, idx + 1)->Ok_0;
        lemma_parse_records_framed_len(data.skip(16 + r.size), base + 16 + r.size, idx + 1, rest);
        assert(recs.drop_first() =~= rest);
    }
}

/// For every valid binary buffer, the records' cumulative framed
/// length (16 + size for each) equals the buffer length: parsing
/// stops exactly at the end of the buffer, never short or over.
pub proof fn lemma_container_framed_len(data: Seq<u8>, recs: Seq<RecordV>)
    requires
        spec_parse_records(data, 0, 0) == Ok::<_, ErrorV>(recs),
    ensures
        spec_records_framed_len(recs) == data.len(),
{
    lemma_parse_records_framed_len(data, 0, 0, recs);
}

/// Every record of a parsed buffer suffix is well formed: it starts at
/// or after `base`, its frame fits the buffer, and its subrecords lie
/// inside its body.
pub proof fn lemma_parse_records_wf(data: Seq<u8>, base: int, idx: int, recs: Seq<RecordV>)
    requires
        0 <= base,
        spec_parse_records(data, base, idx) == Ok::<_, ErrorV>(recs),
    ensures
        forall|k: int|
            0 <= k < recs.len() ==> {
                &&& base <= (#[trigger] recs[k]).start
                &&& 0 <= recs[k].size
                &&& recs[k].start + 16 + recs[k].size <= base + data.len()
                &&& crate::chunk::spec_subs_in_frame(recs[k].subs, recs[k].size)
            },
    decreases data.len(),
{
    if data.len() == 0 {
        assert(recs =~= Seq::<RecordV>::empty());
    } else {
        let r = spec_parse_record(data, base)->Ok_0;
        let rest = spec_parse_records(data.skip(16 + r.size), base + 16 + r.size, idx + 1)->Ok_0;
        crate::chunk::lemma_parse_record_wf(data, base, r);
        lemma_parse_records_wf(data.skip(16 + r.size), base + 16 + r.size, idx + 1, rest);
        assert(recs[0] == r);
        assert(forall|k: int| 1 <= k < recs.len() ==> recs[k] == rest[k - 1]);
    }
}

/// A whitespace byte as the format detector skips it: space, tab,
/// carriage return or newline.
pub open spec fn spec_is_ws_byte(b: u8) -> bool {
    b == 0x20 || b == 0x09 || b == 0x0D || b == 0x0A
}

/// Whether the first byte of `data` at or after position `i` that is
/// not whitespace is `<`, the textual marker.
pub open spec fn spec_xml_initial(data: Seq<u8>, i: int) -> bool
    decreases data.len() - i,
{
    if i < 0 || i >= data.len() {
        false
    } else if spec_is_ws_byte(data[i]) {
        spec_xml_initial(data, i + 1)
    } else {
        data[i] == 0x3C
    }
}

/// Whether `data` begins with the binary magic signature `TES3`.
pub open spec fn spec_is_binary(data: Seq<u8>) -> bool {
    data.len() >= 4 && data[0] == 0x54 && data[1] == 0x45 && data[2] == 0x53 && data[3] == 0x33
}

/// Whether the first non-whitespace byte of `data` is `<`, so that the
/// input is the textual form.
pub fn is_xml_initial_bytes(data: &[u8]) -> (r: bool)
    ensures
        r == spec_xml_initial(data@, 0),
{
    let n = data.len();
    let mut i: usize = 0;
    while i < n
        invariant
            n == data@.len(),
            0 <= i <= n,
            spec_xml_initial(data@, 0) == spec_xml_initial(data@, i as int),
        decreases n - i,
    {
        let b = data[i];
        if !(b == 0x20 || b == 0x09 || b == 0x0D || b == 0x0A) {
            return b == 0x3C;
        }
        i = i + 1;
    }
    false
}

/// The two supported input forms.
#[derive(Clone, Copy, Debug, PartialEq, Eq, Structural)]
pub enum InputKind {
    /// The buffer starts with the binary magic signature.
    Binary,
    /// The first non-whitespace byte is the textual marker `<`.
    Textual,
}

/// Decides whether `data` is the binary or the textual form.  Neither:
/// fails with `UnrecognizedFormat`, carrying the offending leading
/// bytes (at most four) for diagnostics.
pub fn detect(data: &[u8]) -> (r: Result<InputKind, Error>)
    ensures
        (match r {
            Ok(InputKind::Binary) => spec_is_binary(data@),
            Ok(InputKind::Textual) => !spec_is_binary(data@) && spec_xml_initial(data@, 0),
            Err(e) => {
                &&& !spec_is_binary(data@)
                &&& !spec_xml_initial(data@, 0)
                &&& e@ == spec_bare(
                    ErrorKindV::UnrecognizedFormat {
                        bytes: (if data@.len() < 4 {
                            data@
                        } else {
                            data@.subrange(0, 4)
                        }),
                    },
                )
            },
        }),
{
    if data.len() >= 4 && data[0] == 0x54 && data[1] == 0x45 && data[2] == 0x53 && data[3]
        == 0x33 {
        return Ok(InputKind::Binary);
    }
    if is_xml_initial_bytes(data) {
        return Ok(InputKind::Textual);
    }
    let head = if data.len() < 4 {
        data.len()
    } else {
        4
    };
    let bytes: Vec<u8> = vstd::slice::slice_to_vec(&data[0..head]);
    proof {
        if data@.len() < 4 {
            assert(data@.subrange(0, data@.len() as int) =~= data@);
        }
    }
    Err(Error { kind: ErrorKind::UnrecognizedFormat { bytes: bytes }, frames: Vec::new() })
}

/// Mathematical image of [`File`]: the buffer and the record views.
pub struct FileV {
    pub data: Seq<u8>,
    pub records: Seq<RecordV>,
}

/// The container: it owns the byte buffer; records and subrecords hold
/// only offsets into it.
#[derive(Debug)]
pub struct File {
    data: Vec<u8>,
    records: Vec<Record>,
}

impl View for File {
    type V = FileV;

    closed spec fn view(&self) -> FileV {
        FileV { data: self.data@, records: spec_recs_view(self.records@) }
    }
}

/// Well-formedness of a container: its records are exactly the parse
/// of its buffer, so every offset the records hold is in bounds and
/// the framing is consistent.
pub open spec fn spec_file_wf(f: FileV) -> bool {
    spec_parse_records(f.data, 0, 0) == Ok::<_, ErrorV>(f.records)
}

impl File {
    /// Decodes a binary buffer: indexes the records that tile `data`
    /// exactly, from offset 0 to the end.
    pub fn from_binary(data: Vec<u8>) -> (r: Result<File, Error>)
        requires
            data@.len() <= u32::MAX,
        ensures
            (match r {
                Ok(f) => {
                    &&& f@.data == data@
                    &&& spec_parse_records(data@, 0, 0) == Ok::<_, ErrorV>(f@.records)
                },
                Err(e) => spec_parse_records(data@, 0, 0) == Err::<Seq<RecordV>, _>(e@),
            }),
    {
        let total = data.len();
        let mut records: Vec<Record> = Vec::new();
        let mut offset: u32 = 0;
        proof {
            assert(data@.skip(0) =~= data@);
            let all = spec_parse_records(data@, 0, 0);
            if all is Ok {
                assert(spec_recs_view(records@) + all->Ok_0 =~= all->Ok_0);
            }
        }
        while (offset as usize) < total
            invariant
                data@.len() <= u32::MAX,
                total == data@.len(),
                offset <= total,
                spec_parse_records(data@, 0, 0) == spec_rec_ok_prepend(
                    spec_recs_view(records@),
                    spec_parse_records(
                        data@.skip(offset as int),
                        offset as int,
                        records@.len() as int,
                    ),
                ),
            decreases total - offset,
        {
            let window = &data[(offset as usize)..total];
            proof {
                assert(window@ =~= data@.skip(offset as int));
            }
            match Record::new(window, offset) {
                Ok(rec) => {
                    proof {
                        let suffix = data@.skip(offset as int);
                        assert(suffix.skip(16 + rec@.size) =~= data@.skip(
                            offset + 16 + rec@.size,
                        ));
                        let rest1 = spec_parse_records(
                            data@.skip(offset + 16 + rec@.size),
                            offset + 16 + rec@.size,
                            records@.len() as int + 1,
                        );
                        if rest1 is Ok {
                            assert(spec_recs_view(records@.push(rec)) =~= spec_recs_view(
                                records@,
                            ) + seq![rec@]);
                            assert(spec_recs_view(records@) + (seq![rec@] + rest1->Ok_0)
                                =~= spec_recs_view(records@.push(rec)) + rest1->Ok_0);
                        }
                    }
                    offset = offset + REC_HEAD + rec.size();
                    records.push(rec);
                },
                Err(e) => {
                    let mut e = e;
                    e.frames.push(
                        Frame { level: Level::Record, index: records.len(), offset: offset },
                    );
                    return Err(e);
                },
            }
        }
        proof {
            assert(spec_recs_view(records@) + Seq::<RecordV>::empty() =~= spec_recs_view(
                records@,
            ));
        }
        Ok(File { data: data, records: records })
    }

    /// Builds a container from its parts.
    pub(crate) fn assemble(data: Vec<u8>, records: Vec<Record>) -> (f: File)
        ensures
            f@ == (FileV { data: data@, records: spec_recs_view(records@) }),
    {
        File { data: data, records: records }
    }

    /// The owned byte buffer.
    pub fn data(&self) -> (r: &Vec<u8>)
        ensures
            r@ == self@.data,
    {
        &self.data
    }

    /// The number of top-level records.
    pub fn record_count(&self) -> (r: usize)
        ensures
            r == self@.records.len(),
    {
        self.records.len()
    }

    /// The `i`-th top-level record.
    pub fn record(&self, i: usize) -> (r: &Record)
        requires
            i < self@.records.len(),
        ensures
            r@ == self@.records[i as int],
    {
        &self.records[i]
    }
}

} // verus!
