//! The textual rebuilder: walks a parsed markup tree, given as plain
//! element values, and emits an equivalent binary buffer.
//!
//! For each element it writes the tag bytes (through the inverse tag
//! codec), the declared little-endian size and, for records, 8 zero
//! flag bytes, then reserves the declared payload length as zero
//! bytes: payload content reconstruction from rendered hex text is
//! deliberately out of scope, so the rebuilt buffer reproduces the
//! chunk framing, not the payload bytes.  A record whose declared size
//! differs from its children's total framed length is rejected: no
//! record is ever silently truncated or extended.

use vstd::prelude::*;

use crate::chunk::{Record, RecordV, Subrecord, SubrecordV};
use crate::dec::{parse_u32_dec, spec_parse_u32_dec};
use crate::error::{Error, ErrorKind, ErrorKindV, ErrorV};
use crate::error::spec_bare;
use crate::chunk::{spec_parse_record, spec_parse_subs, spec_validate};
use crate::file::{spec_file_wf, spec_parse_records, File};
use crate::tag::lemma_tag_bytes_len;
use crate::tag::{spec_tag_bytes, xml_tag_to_bytes};

verus! {

/// A run of zero bytes.
pub open spec fn spec_zeros(n: int) -> Seq<u8> {
    Seq::new(n as nat, |i: int| 0u8)
}

/// A subrecord element of the textual form: its tag name and its
/// `size` attribute, if present.
pub struct SubElement {
    pub name: String,
    pub size_text: Option<String>,
}

/// A record element of the textual form: its tag name, its `size`
/// attribute if present, and its subrecord child elements in order.
pub struct RecElement {
    pub name: String,
    pub size_text: Option<String>,
    pub subs: Vec<SubElement>,
}

/// Mathematical image of [`SubElement`].
pub struct SubElementV {
    pub name: Seq<char>,
    pub size_text: Option<Seq<char>>,
}

/// Mathematical image of [`RecElement`].
pub struct RecElementV {
    pub name: Seq<char>,
    pub size_text: Option<Seq<char>>,
    pub subs: Seq<SubElementV>,
}

impl View for SubElement {
    type V = SubElementV;

    open spec fn view(&self) -> SubElementV {
        SubElementV {
            name: self.name@,
            size_text: match self.size_text {
                Some(ref t) => Some(t@),
                None => None,
            },
        }
    }
}

impl View for RecElement {
    type V = RecElementV;

    open spec fn view(&self) -> RecElementV {
        RecElementV {
            name: self.name@,
            size_text: match self.size_text {
                Some(ref t) => Some(t@),
                None => None,
            },
            subs: self.subs@.map_values(|s: SubElement| s@),
        }
    }
}

/// The views of a sequence of record elements, in order.
pub open spec fn spec_elems_view(v: Seq<RecElement>) -> Seq<RecElementV> {
    v.map_values(|e: RecElement| e@)
}

/// The bytes a chunk element rebuilds to may not run past the largest
/// offset the format can frame: what remains of the 32-bit offset
/// space after the current length and the chunk's header.
pub open spec fn spec_avail(len: int, head: int) -> int {
    if u32::MAX - head - len >= 0 {
        u32::MAX - head - len
    } else {
        0
    }
}

/// Rebuilding one subrecord element at absolute buffer length `len`,
/// inside a record that started at `rec_start`: the element must have
/// a parsable `size` attribute and a decodable tag; the emitted bytes
/// are the 8-byte header followed by `size` zero payload bytes, and
/// may not run past the 32-bit offset space.
pub open spec fn spec_sub_rebuild(e: SubElementV, len: int, rec_start: int) -> Result<
    (Seq<u8>, SubrecordV),
    ErrorV,
> {
    match e.size_text {
        None => Err(spec_bare(ErrorKindV::MissingSize)),
        Some(st) => match spec_parse_u32_dec(st) {
            None => Err(spec_bare(ErrorKindV::InvalidSize)),
            Some(size) => match spec_tag_bytes(e.name) {
                None => Err(spec_bare(ErrorKindV::UnknownTag)),
                Some(tagb) => {
                    if len + 8 + size > u32::MAX {
                        Err(
                            spec_bare(
                                ErrorKindV::SizeOverflow {
                                    declared: size as int,
                                    available: spec_avail(len, 8),
                                },
                            ),
                        )
                    } else {
                        Ok(
                            (
                                tagb + vstd::bytes::spec_u32_to_le_bytes(size) + spec_zeros(
                                    size as int,
                                ),
                                SubrecordV { start: len - rec_start, size: size as int },
                            ),
                        )
                    }
                },
            },
        },
    }
}

/// Prefixes the bytes and subrecords of an `Ok` rebuild, passing an
/// `Err` through.
pub open spec fn spec_sub_prepend(
    bytes: Seq<u8>,
    svs: Seq<SubrecordV>,
    r: Result<(Seq<u8>, Seq<SubrecordV>), ErrorV>,
) -> Result<(Seq<u8>, Seq<SubrecordV>), ErrorV> {
    match r {
        Ok((b, s)) => Ok((bytes + b, svs + s)),
        Err(e) => Err(e),
    }
}

/// Rebuilding a sequence of subrecord elements back to back, starting
/// at absolute buffer length `len` inside a record that started at
/// `rec_start`.
pub open spec fn spec_subs_rebuild(elems: Seq<SubElementV>, len: int, rec_start: int) -> Result<
    (Seq<u8>, Seq<SubrecordV>),
    ErrorV,
>
    decreases elems.len(),
{
    if elems.len() == 0 {
        Ok((Seq::empty(), Seq::empty()))
    } else {
        match spec_sub_rebuild(elems[0], len, rec_start) {
            Err(e) => Err(e),
            Ok((bytes, sv)) => spec_sub_prepend(
                bytes,
                seq![sv],
                spec_subs_rebuild(elems.drop_first(), len + bytes.len(), rec_start),
            ),
        }
    }
}

/// Rebuilding one record element at absolute buffer length `len`: the
/// element must have a parsable `size` attribute and a decodable tag;
/// the emitted bytes are the 16-byte header (with 8 zero flag bytes)
/// followed by the rebuilt subrecord children, whose total framed
/// length must equal the declared size exactly.
pub open spec fn spec_rec_rebuild(e: RecElementV, len: int) -> Result<(Seq<u8>, RecordV), ErrorV> {
    match e.size_text {
        None => Err(spec_bare(ErrorKindV::MissingSize)),
        Some(st) => match spec_parse_u32_dec(st) {
            None => Err(spec_bare(ErrorKindV::InvalidSize)),
            Some(size) => match spec_tag_bytes(e.name) {
                None => Err(spec_bare(ErrorKindV::UnknownTag)),
                Some(tagb) => {
                    if len + 16 + size > u32::MAX {
                        Err(
                            spec_bare(
                                ErrorKindV::SizeOverflow {
                                    declared: size as int,
                                    available: spec_avail(len, 16),
                                },
                            ),
                        )
                    } else {
                        match spec_subs_rebuild(e.subs, len + 16, len) {
                            Err(e) => Err(e),
                            Ok((body, svs)) => {
                                if body.len() != size {
                                    Err(
                                        spec_bare(
                                            ErrorKindV::SizeMismatch {
                                                declared: size as int,
                                                actual: body.len() as int,
                                            },
                                        ),
                                    )
                                } else {
                                    Ok(
                                        (
                                            tagb + vstd::bytes::spec_u32_to_le_bytes(size)
                                                + spec_zeros(8) + body,
                                            RecordV {
                                                start: len,
                                                size: size as int,
                                                subs: svs,
                                            },
                                        ),
                                    )
                                }
                            },
                        }
                    }
                },
            },
        },
    }
}

/// Prefixes the bytes and records of an `Ok` rebuild, passing an
/// `Err` through.
pub open spec fn spec_rec_prepend(
    bytes: Seq<u8>,
    rvs: Seq<RecordV>,
    r: Result<(Seq<u8>, Seq<RecordV>), ErrorV>,
) -> Result<(Seq<u8>, Seq<RecordV>), ErrorV> {
    match r {
        Ok((b, s)) => Ok((bytes + b, rvs + s)),
        Err(e) => Err(e),
    }
}

/// Rebuilding a sequence of record elements back to back, starting at
/// absolute buffer length `len`.
pub open spec fn spec_recs_rebuild(elems: Seq<RecElementV>, len: int) -> Result<
    (Seq<u8>, Seq<RecordV>),
    ErrorV,
>
    decreases elems.len(),
{
    if elems.len() == 0 {
        Ok((Seq::empty(), Seq::empty()))
    } else {
        match spec_rec_rebuild(elems[0], len) {
            Err(e) => Err(e),
            Ok((bytes, rv)) => spec_rec_prepend(
                bytes,
                seq![rv],
                spec_recs_rebuild(elems.drop_first(), len + bytes.len()),
            ),
        }
    }
}

/// Rebuilding a whole document: its record elements back to back into
/// a fresh buffer.
pub open spec fn spec_file_rebuild(elems: Seq<RecElementV>) -> Result<
    (Seq<u8>, Seq<RecordV>),
    ErrorV,
> {
    spec_recs_rebuild(elems, 0)
}

/// Appends `count` zero bytes to `data`.
fn push_zeros(data: &mut Vec<u8>, count: usize)
    requires
        old(data)@.len() + count <= usize::MAX,
    ensures
        final(data)@ == old(data)@ + spec_zeros(count as int),
{
    let mut k: usize = 0;
    proof {
        assert(data@ =~= old(data)@ + spec_zeros(0));
    }
    while k < count
        invariant
            k <= count,
            old(data)@.len() + count <= usize::MAX,
            data@ == old(data)@ + spec_zeros(k as int),
        decreases count - k,
    {
        data.push(0);
        proof {
            assert((old(data)@ + spec_zeros(k as int)).push(0u8) =~= old(data)@ + spec_zeros(
                k + 1,
            ));
        }
        k = k + 1;
    }
}

impl Subrecord {
    /// Rebuilds one subrecord element: appends its 8-byte header and
    /// `size` zero payload bytes to `data` and indexes the appended
    /// frame.  `rec_start` is the buffer offset at which the owning
    /// record started.
    pub fn from_element(elem: &SubElement, data: &mut Vec<u8>, rec_start: u32) -> (r: Result<
        Subrecord,
        Error,
    >)
        requires
            rec_start <= old(data)@.len(),
            old(data)@.len() <= u32::MAX,
        ensures
            old(data)@.len() <= final(data)@.len() <= u32::MAX,
            final(data)@.take(old(data)@.len() as int) == old(data)@,
            (match r {
                Ok(s) => spec_sub_rebuild(elem@, old(data)@.len() as int, rec_start as int)
                    == Ok::<_, ErrorV>(
                    (final(data)@.skip(old(data)@.len() as int), s@),
                ),
                Err(e) => spec_sub_rebuild(elem@, old(data)@.len() as int, rec_start as int)
                    == Err::<(Seq<u8>, SubrecordV), _>(e@) && final(data)@ == old(data)@,
            }),
    {
        proof {
            assert(data@.take(data@.len() as int) =~= data@);
        }
        let size = match &elem.size_text {
            None => {
                return Err(Error { kind: ErrorKind::MissingSize, frames: Vec::new() });
            },
            Some(st) => match parse_u32_dec(st.as_str()) {
                None => {
                    return Err(Error { kind: ErrorKind::InvalidSize, frames: Vec::new() });
                },
                Some(v) => v,
            },
        };
        let tag = match xml_tag_to_bytes(elem.name.as_str()) {
            None => {
                return Err(Error { kind: ErrorKind::UnknownTag, frames: Vec::new() });
            },
            Some(t) => t,
        };
        let len = data.len();
        if (len as u64) + 8 + (size as u64) > (u32::MAX as u64) {
            let available: u32 = if (len as u64) + 8 <= (u32::MAX as u64) {
                (u32::MAX as u64 - 8 - (len as u64)) as u32
            } else {
                0
            };
            return Err(
                Error {
                    kind: ErrorKind::SizeOverflow { declared: size, available: available },
                    frames: Vec::new(),
                },
            );
        }
        let start = (len - (rec_start as usize)) as u32;
        data.push(tag[0]);
        data.push(tag[1]);
        data.push(tag[2]);
        data.push(tag[3]);
        let mut le = vstd::bytes::u32_to_le_bytes(size);
        data.append(&mut le);
        push_zeros(data, size as usize);
        proof {
            assert(data@.take(old(data)@.len() as int) =~= old(data)@);
            assert(data@.skip(old(data)@.len() as int) =~= tag@
                + vstd::bytes::spec_u32_to_le_bytes(size) + spec_zeros(size as int));
        }
        Ok(Subrecord::assemble(start, size))
    }
}

impl Record {
    /// Rebuilds one record element: appends its 16-byte header (with
    /// zero flag bytes) and its rebuilt subrecord children to `data`,
    /// whose total framed length must equal the declared size exactly,
    /// and indexes the appended frame.
    #[verifier::rlimit(50)]
    pub fn from_element(elem: &RecElement, data: &mut Vec<u8>) -> (r: Result<Record, Error>)
        requires
            old(data)@.len() <= u32::MAX,
        ensures
            old(data)@.len() <= final(data)@.len() <= u32::MAX,
            final(data)@.take(old(data)@.len() as int) == old(data)@,
            (match r {
                Ok(rec) => spec_rec_rebuild(elem@, old(data)@.len() as int) == Ok::<_, ErrorV>(
                    (final(data)@.skip(old(data)@.len() as int), rec@),
                ),
                Err(e) => spec_rec_rebuild(elem@, old(data)@.len() as int) == Err::<
                    (Seq<u8>, RecordV),
                    _,
                >(e@),
            }),
    {
        proof {
            assert(data@.take(data@.len() as int) =~= data@);
        }
        let size = match &elem.size_text {
            None => {
                return Err(Error { kind: ErrorKind::MissingSize, frames: Vec::new() });
            },
            Some(st) => match parse_u32_dec(st.as_str()) {
                None => {
                    return Err(Error { kind: ErrorKind::InvalidSize, frames: Vec::new() });
                },
                Some(v) => v,
            },
        };
        let tag = match xml_tag_to_bytes(elem.name.as_str()) {
            None => {
                return Err(Error { kind: ErrorKind::UnknownTag, frames: Vec::new() });
            },
            Some(t) => t,
        };
        let rec_start = data.len();
        if (rec_start as u64) + 16 + (size as u64) > (u32::MAX as u64) {
            let available: u32 = if (rec_start as u64) + 16 <= (u32::MAX as u64) {
                (u32::MAX as u64 - 16 - (rec_start as u64)) as u32
            } else {
                0
            };
            return Err(
                Error {
                    kind: ErrorKind::SizeOverflow { declared: size, available: available },
                    frames: Vec::new(),
                },
            );
        }
        data.push(tag[0]);
        data.push(tag[1]);
        data.push(tag[2]);
        data.push(tag[3]);
        let mut le = vstd::bytes::u32_to_le_bytes(size);
        data.append(&mut le);
        push_zeros(data, 8);
        let ghost base = old(data)@.len() as int;
        let ghost all = elem@.subs;
        let ghost header = tag@ + vstd::bytes::spec_u32_to_le_bytes(size) + spec_zeros(8);
        proof {
            assert(tag@ =~= seq![tag[0], tag[1], tag[2], tag[3]]);
            assert(data@.take(base) =~= old(data)@);
            assert(data@.subrange(base, base + 16) =~= header);
            assert(all.skip(0) =~= all);
            assert(data@.skip(base + 16) =~= Seq::<u8>::empty());
            let whole = spec_subs_rebuild(all, base + 16, base);
            if whole is Ok {
                assert(Seq::<u8>::empty() + whole->Ok_0.0 =~= whole->Ok_0.0);
                assert(Seq::<SubrecordV>::empty() + whole->Ok_0.1 =~= whole->Ok_0.1);
            }
        }
        let mut subrecords: Vec<Subrecord> = Vec::new();
        let n = elem.subs.len();
        let mut i: usize = 0;
        while i < n
            invariant
                n == all.len(),
                all == elem@.subs,
                0 <= i <= n,
                base == old(data)@.len(),
                rec_start == base,
                base + 16 <= data@.len() <= u32::MAX,
                data@.take(base) == old(data)@,
                data@.subrange(base, base + 16) == header,
                header == tag@ + vstd::bytes::spec_u32_to_le_bytes(size) + spec_zeros(8),
                (elem@.size_text matches Some(st) && spec_parse_u32_dec(st) == Some(size)),
                spec_tag_bytes(elem@.name) == Some(tag@),
                base + 16 + size <= u32::MAX,
                spec_subs_rebuild(all, base + 16, base) == spec_sub_prepend(
                    data@.skip(base + 16),
                    crate::chunk::spec_subs_view(subrecords@),
                    spec_subs_rebuild(all.skip(i as int), data@.len() as int, base),
                ),
            decreases n - i,
        {
            let ghost data_prev = data@;
            let ghost len_prev = data@.len() as int;
            match Subrecord::from_element(&elem.subs[i], data, rec_start as u32) {
                Ok(sub) => {
                    proof {
                        assert((elem.subs[i as int])@ == all[i as int]);
                        assert(all.skip(i as int)[0] == all[i as int]);
                        assert(all.skip(i as int).drop_first() =~= all.skip(i as int + 1));
                        let chunk = data@.skip(len_prev);
                        assert(data@.take(base) =~= data_prev.take(base));
                        assert(data@.subrange(base, base + 16) =~= data_prev.subrange(
                            base,
                            base + 16,
                        ));
                        assert(data@.skip(base + 16) =~= data_prev.skip(base + 16) + chunk);
                        assert(crate::chunk::spec_subs_view(subrecords@.push(sub))
                            =~= crate::chunk::spec_subs_view(subrecords@) + seq![sub@]);
                        let rest = spec_subs_rebuild(
                            all.skip(i as int + 1),
                            data@.len() as int,
                            base,
                        );
                        if rest is Ok {
                            assert((data_prev.skip(base + 16) + chunk) + rest->Ok_0.0
                                =~= data_prev.skip(base + 16) + (chunk + rest->Ok_0.0));
                            assert((crate::chunk::spec_subs_view(subrecords@) + seq![sub@])
                                + rest->Ok_0.1 =~= crate::chunk::spec_subs_view(subrecords@) + (
                            seq![sub@] + rest->Ok_0.1));
                        }
                    }
                    subrecords.push(sub);
                    i = i + 1;
                },
                Err(e) => {
                    proof {
                        assert(data@.take(base) =~= data_prev.take(base));
                    }
                    return Err(e);
                },
            }
        }
        proof {
            assert(all.skip(n as int) =~= Seq::<SubElementV>::empty());
            let tail = spec_subs_rebuild(all, base + 16, base);
            assert(data@.skip(base + 16) + Seq::<u8>::empty() =~= data@.skip(base + 16));
            assert(crate::chunk::spec_subs_view(subrecords@) + Seq::<SubrecordV>::empty()
                =~= crate::chunk::spec_subs_view(subrecords@));
        }
        let body_len = data.len() - rec_start - 16;
        if body_len != size as usize {
            return Err(
                Error {
                    kind: ErrorKind::SizeMismatch { declared: size, actual: body_len as u32 },
                    frames: Vec::new(),
                },
            );
        }
        proof {
            assert(data@.skip(base) =~= data@.subrange(base, base + 16) + data@.skip(base + 16));
        }
        Ok(Record::assemble(rec_start as u32, size, subrecords))
    }
}

impl File {
    /// Rebuilds a whole textual document: appends each record
    /// element's frame, in order, to a fresh buffer.
    pub fn from_elements(elements: &Vec<RecElement>) -> (r: Result<File, Error>)
        ensures
            (match r {
                Ok(f) => spec_file_rebuild(spec_elems_view(elements@)) == Ok::<_, ErrorV>(
                    (f@.data, f@.records),
                ) && spec_file_wf(f@),
                Err(e) => spec_file_rebuild(spec_elems_view(elements@)) == Err::<
                    (Seq<u8>, Seq<RecordV>),
                    _,
                >(e@),
            }),
    {
        let ghost all = spec_elems_view(elements@);
        let mut data: Vec<u8> = Vec::new();
        let mut records: Vec<Record> = Vec::new();
        let n = elements.len();
        let mut i: usize = 0;
        proof {
            assert(all.skip(0) =~= all);
            let whole = spec_recs_rebuild(all, 0);
            if whole is Ok {
                assert(Seq::<u8>::empty() + whole->Ok_0.0 =~= whole->Ok_0.0);
                assert(Seq::<RecordV>::empty() + whole->Ok_0.1 =~= whole->Ok_0.1);
            }
        }
        while i < n
            invariant
                n == all.len(),
                all == spec_elems_view(elements@),
                0 <= i <= n,
                data@.len() <= u32::MAX,
                spec_recs_rebuild(all, 0) == spec_rec_prepend(
                    data@,
                    crate::file::spec_recs_view(records@),
                    spec_recs_rebuild(all.skip(i as int), data@.len() as int),
                ),
            decreases n - i,
        {
            let ghost data_prev = data@;
            let ghost len_prev = data@.len() as int;
            match Record::from_element(&elements[i], &mut data) {
                Ok(rec) => {
                    proof {
                        assert((elements[i as int])@ == all[i as int]);
                        assert(all.skip(i as int)[0] == all[i as int]);
                        assert(all.skip(i as int).drop_first() =~= all.skip(i as int + 1));
                        let chunk = data@.skip(len_prev);
                        assert(data@.take(len_prev) =~= data_prev);
                        assert(data@ =~= data_prev + chunk);
                        assert(crate::file::spec_recs_view(records@.push(rec))
                            =~= crate::file::spec_recs_view(records@) + seq![rec@]);
                        let rest = spec_recs_rebuild(all.skip(i as int + 1), data@.len() as int);
                        if rest is Ok {
                            assert((data_prev + chunk) + rest->Ok_0.0 =~= data_prev + (chunk
                                + rest->Ok_0.0));
                            assert((crate::file::spec_recs_view(records@) + seq![rec@])
                                + rest->Ok_0.1 =~= crate::file::spec_recs_view(records@) + (
                            seq![rec@] + rest->Ok_0.1));
                        }
                    }
                    records.push(rec);
                    i = i + 1;
                },
                Err(e) => {
                    return Err(e);
                },
            }
        }
        proof {
            assert(all.skip(n as int) =~= Seq::<RecElementV>::empty());
            assert(data@ + Seq::<u8>::empty() =~= data@);
            assert(crate::file::spec_recs_view(records@) + Seq::<RecordV>::empty()
                =~= crate::file::spec_recs_view(records@));
        }
        proof {
            lemma_rebuild_parses(
                all,
                data@,
                crate::file::spec_recs_view(records@),
            );
        }
        Ok(File::assemble(data, records))
    }
}

/// The frame a subrecord element rebuilds to parses back to the same
/// subrecord, inside any window that carries those bytes at the same
/// record-relative offset.
proof fn lemma_sub_rebuild_parses(
    e: SubElementV,
    len: int,
    rec_start: int,
    chunk: Seq<u8>,
    sv: SubrecordV,
    win: Seq<u8>,
)
    requires
        spec_sub_rebuild(e, len, rec_start) == Ok::<_, ErrorV>((chunk, sv)),
        0 <= rec_start <= len,
        len - rec_start + chunk.len() <= win.len(),
        win.subrange(len - rec_start, len - rec_start + chunk.len()) == chunk,
    ensures
        chunk.len() == 8 + sv.size,
        sv.start == len - rec_start,
        0 <= sv.size,
        spec_validate(win, len - rec_start, len - rec_start + chunk.len(), 8) == Ok::<
            int,
            ErrorV,
        >(sv.size),
{
    let size = spec_parse_u32_dec(e.size_text->Some_0)->Some_0;
    let tagb = spec_tag_bytes(e.name)->Some_0;
    lemma_tag_bytes_len(e.name, tagb);
    vstd::bytes::lemma_auto_spec_u32_to_from_le_bytes();
    let off = len - rec_start;
    assert(chunk.subrange(4, 8) =~= vstd::bytes::spec_u32_to_le_bytes(size));
    assert(win.subrange(off + 4, off + 8) =~= chunk.subrange(4, 8));
    assert(crate::chunk::spec_le_u32_at(win, off + 4) == size);
}

/// The frames a sequence of subrecord elements rebuilds to parse back
/// to the same subrecords, tiling the record body exactly.
proof fn lemma_subs_rebuild_parses(
    elems: Seq<SubElementV>,
    len: int,
    rec_start: int,
    body: Seq<u8>,
    svs: Seq<SubrecordV>,
    win: Seq<u8>,
    idx: int,
)
    requires
        spec_subs_rebuild(elems, len, rec_start) == Ok::<_, ErrorV>((body, svs)),
        0 <= rec_start <= len,
        len - rec_start + body.len() <= win.len(),
        win.subrange(len - rec_start, len - rec_start + body.len()) == body,
    ensures
        spec_parse_subs(win, len - rec_start, len - rec_start + body.len(), idx) == Ok::<
            _,
            ErrorV,
        >(svs),
    decreases elems.len(),
{
    let off = len - rec_start;
    if elems.len() == 0 {
        assert(body =~= Seq::<u8>::empty());
        assert(svs =~= Seq::<SubrecordV>::empty());
    } else {
        let first = spec_sub_rebuild(elems[0], len, rec_start);
        let chunk = first->Ok_0.0;
        let sv = first->Ok_0.1;
        let rest = spec_subs_rebuild(elems.drop_first(), len + chunk.len(), rec_start);
        let rest_body = rest->Ok_0.0;
        let rest_svs = rest->Ok_0.1;
        assert(body =~= chunk + rest_body);
        assert(svs =~= seq![sv] + rest_svs);
        assert(win.subrange(off, off + chunk.len() as int) =~= chunk);
        lemma_sub_rebuild_parses(elems[0], len, rec_start, chunk, sv, win);
        assert forall|k: int| 0 <= k < rest_body.len() implies win[off + chunk.len() + k]
            == rest_body[k] by {
            assert(body[chunk.len() + k] == rest_body[k]);
            assert(win.subrange(off, off + body.len() as int)[chunk.len() + k] == win[off
                + chunk.len() + k]);
        }
        assert(win.subrange(
            off + chunk.len(),
            off + chunk.len() + rest_body.len(),
        ) =~= rest_body);
        lemma_subs_rebuild_parses(
            elems.drop_first(),
            len + chunk.len(),
            rec_start,
            rest_body,
            rest_svs,
            win,
            idx + 1,
        );
        assert(spec_parse_subs(win, off, off + body.len(), idx) == Ok::<_, ErrorV>(svs)) by {
            let end = off + body.len() as int;
            assert(spec_validate(win, off, end, 8) == Ok::<int, ErrorV>(sv.size));
            assert(off + 8 + sv.size == off + chunk.len());
        }
    }
}

/// The frame a record element rebuilds to parses back to the same
/// record, from any window that begins with those bytes.
proof fn lemma_rec_rebuild_parses(e: RecElementV, len: int, chunk: Seq<u8>, rv: RecordV, win: Seq<
    u8,
>)
    requires
        spec_rec_rebuild(e, len) == Ok::<_, ErrorV>((chunk, rv)),
        0 <= len,
        chunk.len() <= win.len(),
        win.subrange(0, chunk.len() as int) == chunk,
    ensures
        chunk.len() == 16 + rv.size,
        rv.start == len,
        0 <= rv.size,
        spec_parse_record(win, len) == Ok::<_, ErrorV>(rv),
{
    let size = spec_parse_u32_dec(e.size_text->Some_0)->Some_0;
    let tagb = spec_tag_bytes(e.name)->Some_0;
    lemma_tag_bytes_len(e.name, tagb);
    vstd::bytes::lemma_auto_spec_u32_to_from_le_bytes();
    let body = spec_subs_rebuild(e.subs, len + 16, len)->Ok_0.0;
    assert(chunk.subrange(4, 8) =~= vstd::bytes::spec_u32_to_le_bytes(size));
    assert(win.subrange(4, 8) =~= chunk.subrange(4, 8));
    assert(crate::chunk::spec_le_u32_at(win, 4) == size);
    assert(win.subrange(16, 16 + body.len() as int) =~= chunk.subrange(
        16,
        chunk.len() as int,
    ));
    assert(chunk.subrange(16, chunk.len() as int) =~= body);
    lemma_subs_rebuild_parses(e.subs, len + 16, len, body, rv.subs, win, 0);
}

/// The buffer a sequence of record elements rebuilds to parses back to
/// the same records, tiling the buffer exactly.
proof fn lemma_recs_rebuild_parses(
    elems: Seq<RecElementV>,
    base: int,
    bytes: Seq<u8>,
    recs: Seq<RecordV>,
    idx: int,
)
    requires
        spec_recs_rebuild(elems, base) == Ok::<_, ErrorV>((bytes, recs)),
        0 <= base,
    ensures
        spec_parse_records(bytes, base, idx) == Ok::<_, ErrorV>(recs),
    decreases elems.len(),
{
    if elems.len() == 0 {
        assert(bytes =~= Seq::<u8>::empty());
        assert(recs =~= Seq::<RecordV>::empty());
    } else {
        let first = spec_rec_rebuild(elems[0], base);
        let chunk = first->Ok_0.0;
        let rv = first->Ok_0.1;
        let rest = spec_recs_rebuild(elems.drop_first(), base + chunk.len());
        let rest_bytes = rest->Ok_0.0;
        let rest_recs = rest->Ok_0.1;
        assert(bytes =~= chunk + rest_bytes);
        assert(recs =~= seq![rv] + rest_recs);
        assert(bytes.subrange(0, chunk.len() as int) =~= chunk);
        lemma_rec_rebuild_parses(elems[0], base, chunk, rv, bytes);
        assert(bytes.skip(16 + rv.size) =~= rest_bytes);
        lemma_recs_rebuild_parses(
            elems.drop_first(),
            base + chunk.len(),
            rest_bytes,
            rest_recs,
            idx + 1,
        );
        assert(bytes.len() != 0);
    }
}

/// What the rebuilder emits is itself a valid container: decoding the
/// rebuilt buffer yields exactly the records the rebuilder indexed.
pub proof fn lemma_rebuild_parses(elems: Seq<RecElementV>, bytes: Seq<u8>, recs: Seq<RecordV>)
    requires
        spec_file_rebuild(elems) == Ok::<_, ErrorV>((bytes, recs)),
    ensures
        spec_parse_records(bytes, 0, 0) == Ok::<_, ErrorV>(recs),
{
    lemma_recs_rebuild_parses(elems, 0, bytes, recs, 0);
}

} // verus!
