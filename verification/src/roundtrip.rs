//! The round trip from a decoded binary container through its textual
//! elements back to a binary buffer.
//!
//! The textual renderer emits, for each chunk, exactly the tag text
//! and decimal size text that [`spec_sub_elem`] and [`spec_rec_elem`]
//! describe, so a markup parser reading the rendered document hands
//! the rebuilder exactly these element values.  Rebuilding them
//! reproduces every chunk's tag and size framing byte for byte;
//! payload bytes and flag bytes are zeroed, which is the rebuilder's
//! declared scope.

use vstd::prelude::*;

use crate::chunk::{lemma_parse_subs_window, spec_le_u32_at, spec_parse_record, spec_parse_subs};
use crate::chunk::{spec_validate, RecordV, SubrecordV};
use crate::dec::{lemma_dec_round_trip, spec_dec_text};
use crate::elem::{spec_rec_rebuild, spec_recs_rebuild, spec_sub_rebuild, spec_subs_rebuild};
use crate::elem::{spec_file_rebuild, spec_sub_prepend, spec_zeros, RecElementV, SubElementV};
use crate::error::ErrorV;
use crate::file::spec_parse_records;
use crate::tag::{lemma_tag_round_trip, spec_tag_bytes, spec_tag_text};

verus! {

/// The element the renderer emits for a subrecord: the tag text of its
/// window bytes and its size as decimal text.  `win` is the owning
/// record's window.
pub open spec fn spec_sub_elem(win: Seq<u8>, s: SubrecordV) -> SubElementV {
    SubElementV {
        name: spec_tag_text(win.subrange(s.start, s.start + 4)),
        size_text: Some(spec_dec_text(s.size)),
    }
}

/// The element the renderer emits for a record: the tag text of its
/// frame's first four bytes, its size as decimal text, and one child
/// element per subrecord.
pub open spec fn spec_rec_elem(data: Seq<u8>, r: RecordV) -> RecElementV {
    let win = data.subrange(r.start, r.start + 16 + r.size);
    RecElementV {
        name: spec_tag_text(win.subrange(0, 4)),
        size_text: Some(spec_dec_text(r.size)),
        subs: r.subs.map_values(|s: SubrecordV| spec_sub_elem(win, s)),
    }
}

/// The elements the renderer emits for a whole container, in order.
pub open spec fn spec_file_elems(data: Seq<u8>, recs: Seq<RecordV>) -> Seq<RecElementV> {
    recs.map_values(|r: RecordV| spec_rec_elem(data, r))
}

proof fn lemma_subs_roundtrip(win: Seq<u8>, off: int, end: int, idx: int, svs: Seq<SubrecordV>, rec_start: int)
    requires
        spec_parse_subs(win, off, end, idx) == Ok::<_, ErrorV>(svs),
        16 <= off <= end <= win.len(),
        0 <= rec_start,
        rec_start + end <= u32::MAX,
    ensures
        ({
            let r = spec_subs_rebuild(
                svs.map_values(|s: SubrecordV| spec_sub_elem(win, s)),
                rec_start + off,
                rec_start,
            );
            &&& r is Ok
            &&& r->Ok_0.1 == svs
            &&& r->Ok_0.0.len() == end - off
            &&& forall|j: int|
                0 <= j < svs.len() ==> r->Ok_0.0.subrange(
                    (#[trigger] svs[j]).start - off,
                    svs[j].start - off + 8,
                ) == win.subrange(svs[j].start, svs[j].start + 8)
        }),
    decreases end - off,
{
    let elems = svs.map_values(|s: SubrecordV| spec_sub_elem(win, s));
    if off >= end {
        assert(svs =~= Seq::<SubrecordV>::empty());
        assert(elems =~= Seq::<SubElementV>::empty());
        let r = spec_subs_rebuild(elems, rec_start + off, rec_start);
        assert(r->Ok_0.0.len() == 0);
    } else {
        let size = spec_validate(win, off, end, 8)->Ok_0;
        let sv = SubrecordV { start: off, size: size };
        let rest_svs = spec_parse_subs(win, off + 8 + size, end, idx + 1)->Ok_0;
        assert(svs =~= seq![sv] + rest_svs);
        assert(svs[0] == sv);
        assert(elems[0] == spec_sub_elem(win, sv));
        assert(elems.drop_first() =~= rest_svs.map_values(|s: SubrecordV| spec_sub_elem(win, s)));

        // The first element rebuilds to the original header plus a
        // zero payload.
        lemma_tag_round_trip(win.subrange(off, off + 4));
        lemma_dec_round_trip(size as u32);
        vstd::bytes::lemma_auto_spec_u32_to_from_le_bytes();
        assert(spec_tag_bytes(spec_tag_text(win.subrange(off, off + 4))) == Some(
            win.subrange(off, off + 4),
        ));
        assert(win.subrange(off + 4, off + 8) =~= win.subrange(off, off + 8).subrange(4, 8));
        assert(spec_le_u32_at(win, off + 4) == size as u32);
        assert(vstd::bytes::spec_u32_to_le_bytes(spec_le_u32_at(win, off + 4)) =~= win.subrange(
            off + 4,
            off + 8,
        ));
        let first = spec_sub_rebuild(elems[0], rec_start + off, rec_start);
        assert(first is Ok);
        let chunk = first->Ok_0.0;
        assert(first->Ok_0.1 == sv);
        assert(chunk =~= win.subrange(off, off + 4) + win.subrange(off + 4, off + 8)
            + spec_zeros(size));
        assert(chunk.len() == 8 + size);
        assert(chunk.subrange(0, 8) =~= win.subrange(off, off + 8));

        // The remaining elements rebuild behind it.
        lemma_subs_roundtrip(win, off + 8 + size, end, idx + 1, rest_svs, rec_start);
        let rest = spec_subs_rebuild(
            rest_svs.map_values(|s: SubrecordV| spec_sub_elem(win, s)),
            rec_start + off + 8 + size,
            rec_start,
        );
        let rest_body = rest->Ok_0.0;
        let r = spec_subs_rebuild(elems, rec_start + off, rec_start);
        assert(r == spec_sub_prepend(chunk, seq![sv], rest));
        let body = chunk + rest_body;
        assert(r->Ok_0.0 == body);
        assert(seq![sv] + rest_svs =~= svs);
        assert(r->Ok_0.1 == svs);
        assert(body.len() == end - off);

        // Header bytes are preserved for every subrecord.
        assert forall|j: int| 0 <= j < svs.len() implies body.subrange(
            (#[trigger] svs[j]).start - off,
            svs[j].start - off + 8,
        ) == win.subrange(svs[j].start, svs[j].start + 8) by {
            if j == 0 {
                assert(body.subrange(0, 8) =~= chunk.subrange(0, 8));
            } else {
                let s = svs[j];
                assert(s == rest_svs[j - 1]);
                crate::chunk::lemma_parse_subs_in_frame(
                    win,
                    off + 8 + size,
                    end,
                    idx + 1,
                    rest_svs,
                );
                let lo = s.start - (off + 8 + size);
                assert(rest_body.subrange(lo, lo + 8) == win.subrange(s.start, s.start + 8));
                assert(body.subrange(s.start - off, s.start - off + 8) =~= rest_body.subrange(
                    lo,
                    lo + 8,
                ));
            }
        }
    }
}

proof fn lemma_rec_roundtrip(data: Seq<u8>, r: RecordV)
    requires
        spec_parse_record(data.skip(r.start), r.start) == Ok::<_, ErrorV>(r),
        0 <= r.start,
        r.start + 16 + r.size <= data.len(),
        data.len() <= u32::MAX,
    ensures
        ({
            let rb = spec_rec_rebuild(spec_rec_elem(data, r), r.start);
            &&& rb is Ok
            &&& rb->Ok_0.1 == r
            &&& rb->Ok_0.0.len() == 16 + r.size
            &&& rb->Ok_0.0.subrange(0, 8) == data.subrange(r.start, r.start + 8)
            &&& rb->Ok_0.0.subrange(8, 16) == spec_zeros(8)
            &&& forall|j: int|
                0 <= j < r.subs.len() ==> rb->Ok_0.0.subrange(
                    (#[trigger] r.subs[j]).start,
                    r.subs[j].start + 8,
                ) == data.subrange(r.start + r.subs[j].start, r.start + r.subs[j].start + 8)
        }),
{
    let suffix = data.skip(r.start);
    let win = data.subrange(r.start, r.start + 16 + r.size);
    let e = spec_rec_elem(data, r);
    crate::chunk::lemma_parse_record_wf(suffix, r.start, r);

    // The suffix and the frame window agree on the frame bytes, so the
    // body parses alike from either.
    assert(forall|k: int| 0 <= k < 16 + r.size ==> suffix[k] == win[k]);
    lemma_parse_subs_window(suffix, win, 16, 16 + r.size, 0);
    assert(spec_parse_subs(win, 16, 16 + r.size, 0) == Ok::<_, ErrorV>(r.subs));

    // Tag and size texts decode back to the original header fields.
    lemma_tag_round_trip(win.subrange(0, 4));
    lemma_dec_round_trip(r.size as u32);
    vstd::bytes::lemma_auto_spec_u32_to_from_le_bytes();
    assert(win.subrange(4, 8) =~= suffix.subrange(4, 8));
    assert(spec_le_u32_at(suffix, 4) == r.size as u32);
    assert(vstd::bytes::spec_u32_to_le_bytes(spec_le_u32_at(suffix, 4)) =~= win.subrange(4, 8));

    // The body elements rebuild to the original subrecord framing.
    lemma_subs_roundtrip(win, 16, 16 + r.size, 0, r.subs, r.start);
    assert(r.subs.map_values(|s: SubrecordV| spec_sub_elem(win, s)) == e.subs);
    let body = spec_subs_rebuild(e.subs, r.start + 16, r.start)->Ok_0.0;
    assert(body.len() == r.size);

    let rb = spec_rec_rebuild(e, r.start);
    assert(rb is Ok);
    let chunk = rb->Ok_0.0;
    assert(rb->Ok_0.1 == (RecordV { start: r.start, size: r.size, subs: r.subs }));
    assert(rb->Ok_0.1 == r);
    assert(chunk =~= win.subrange(0, 4) + win.subrange(4, 8) + spec_zeros(8) + body);
    assert(chunk.subrange(0, 8) =~= win.subrange(0, 8));
    assert(win.subrange(0, 8) =~= data.subrange(r.start, r.start + 8));
    assert(chunk.subrange(8, 16) =~= spec_zeros(8));
    assert forall|j: int| 0 <= j < r.subs.len() implies chunk.subrange(
        (#[trigger] r.subs[j]).start,
        r.subs[j].start + 8,
    ) == data.subrange(r.start + r.subs[j].start, r.start + r.subs[j].start + 8) by {
        let s = r.subs[j];
        let lo = s.start - 16;
        assert(body.subrange(lo, lo + 8) == win.subrange(s.start, s.start + 8));
        assert(chunk.subrange(s.start, s.start + 8) =~= body.subrange(lo, lo + 8));
        assert(win.subrange(s.start, s.start + 8) =~= data.subrange(
            r.start + s.start,
            r.start + s.start + 8,
        ));
    }
}

proof fn lemma_recs_roundtrip(data: Seq<u8>, base: int, idx: int, recs: Seq<RecordV>)
    requires
        spec_parse_records(data.skip(base), base, idx) == Ok::<_, ErrorV>(recs),
        0 <= base <= data.len(),
        data.len() <= u32::MAX,
    ensures
        ({
            let rb = spec_recs_rebuild(
                recs.map_values(|r: RecordV| spec_rec_elem(data, r)),
                base,
            );
            &&& rb is Ok
            &&& rb->Ok_0.1 == recs
            &&& rb->Ok_0.0.len() == data.len() - base
            &&& forall|k: int|
                0 <= k < recs.len() ==> rb->Ok_0.0.subrange(
                    (#[trigger] recs[k]).start - base,
                    recs[k].start - base + 8,
                ) == data.subrange(recs[k].start, recs[k].start + 8)
            &&& forall|k: int, j: int|
                0 <= k < recs.len() && 0 <= j < (#[trigger] recs[k]).subs.len()
                    ==> rb->Ok_0.0.subrange(
                    recs[k].start - base + (#[trigger] recs[k].subs[j]).start,
                    recs[k].start - base + recs[k].subs[j].start + 8,
                ) == data.subrange(
                    recs[k].start + recs[k].subs[j].start,
                    recs[k].start + recs[k].subs[j].start + 8,
                )
        }),
    decreases data.len() - base,
{
    let suffix = data.skip(base);
    let elems = recs.map_values(|r: RecordV| spec_rec_elem(data, r));
    if suffix.len() == 0 {
        assert(recs =~= Seq::<RecordV>::empty());
        assert(elems =~= Seq::<RecElementV>::empty());
        let rb = spec_recs_rebuild(elems, base);
        assert(rb->Ok_0.0.len() == 0);
    } else {
        let r = spec_parse_record(suffix, base)->Ok_0;
        let rest_recs = spec_parse_records(
            suffix.skip(16 + r.size),
            base + 16 + r.size,
            idx + 1,
        )->Ok_0;
        assert(recs =~= seq![r] + rest_recs);
        assert(recs[0] == r);
        assert(elems[0] == spec_rec_elem(data, r));
        assert(elems.drop_first() =~= rest_recs.map_values(|x: RecordV| spec_rec_elem(data, x)));
        crate::chunk::lemma_parse_record_wf(suffix, base, r);

        lemma_rec_roundtrip(data, r);
        let rb1 = spec_rec_rebuild(elems[0], base);
        let chunk = rb1->Ok_0.0;
        assert(rb1->Ok_0.1 == r);
        assert(chunk.len() == 16 + r.size);

        assert(suffix.skip(16 + r.size) =~= data.skip(base + 16 + r.size));
        lemma_recs_roundtrip(data, base + 16 + r.size, idx + 1, rest_recs);
        let rest = spec_recs_rebuild(elems.drop_first(), base + chunk.len());
        let rest_bytes = rest->Ok_0.0;

        let rb = spec_recs_rebuild(elems, base);
        assert(rb is Ok);
        let bytes = chunk + rest_bytes;
        assert(rb->Ok_0.0 == bytes);
        assert(seq![r] + rest_recs =~= recs);
        assert(rb->Ok_0.1 == recs);
        assert(bytes.len() == data.len() - base);

        assert forall|k: int| 0 <= k < recs.len() implies bytes.subrange(
            (#[trigger] recs[k]).start - base,
            recs[k].start - base + 8,
        ) == data.subrange(recs[k].start, recs[k].start + 8) by {
            if k == 0 {
                assert(bytes.subrange(0, 8) =~= chunk.subrange(0, 8));
            } else {
                let rk = recs[k];
                assert(rk == rest_recs[k - 1]);
                crate::file::lemma_parse_records_wf(
                    data.skip(base + 16 + r.size),
                    base + 16 + r.size,
                    idx + 1,
                    rest_recs,
                );
                let lo = rk.start - (base + 16 + r.size);
                assert(rest_bytes.subrange(lo, lo + 8) == data.subrange(rk.start, rk.start + 8));
                assert(bytes.subrange(rk.start - base, rk.start - base + 8) =~= rest_bytes.subrange(
                    lo,
                    lo + 8,
                ));
            }
        }
        assert forall|k: int, j: int|
            0 <= k < recs.len() && 0 <= j < (#[trigger] recs[k]).subs.len() implies bytes.subrange(
            recs[k].start - base + (#[trigger] recs[k].subs[j]).start,
            recs[k].start - base + recs[k].subs[j].start + 8,
        ) == data.subrange(
            recs[k].start + recs[k].subs[j].start,
            recs[k].start + recs[k].subs[j].start + 8,
        ) by {
            if k == 0 {
                let s = r.subs[j];
                crate::chunk::lemma_parse_record_wf(suffix, base, r);
                assert(chunk.subrange(s.start, s.start + 8) == data.subrange(
                    base + s.start,
                    base + s.start + 8,
                ));
                assert(bytes.subrange(s.start, s.start + 8) =~= chunk.subrange(
                    s.start,
                    s.start + 8,
                ));
            } else {
                let rk = recs[k];
                assert(rk == rest_recs[k - 1]);
                crate::file::lemma_parse_records_wf(
                    data.skip(base + 16 + r.size),
                    base + 16 + r.size,
                    idx + 1,
                    rest_recs,
                );
                let s = rk.subs[j];
                let lo = rk.start - (base + 16 + r.size) + s.start;
                assert(rest_bytes.subrange(lo, lo + 8) == data.subrange(
                    rk.start + s.start,
                    rk.start + s.start + 8,
                ));
                assert(bytes.subrange(
                    rk.start - base + s.start,
                    rk.start - base + s.start + 8,
                ) =~= rest_bytes.subrange(lo, lo + 8));
            }
        }
    }
}

/// Round trip: decoding a binary buffer, rendering it as textual
/// elements, and rebuilding those elements reproduces a buffer of the
/// same length, indexed by exactly the same records and subrecords,
/// with every chunk's tag and size header bytes identical to the
/// original's.  Record flag bytes and payload bytes are zeroed, which
/// is the rebuilder's declared scope.
pub proof fn lemma_round_trip(data: Seq<u8>, recs: Seq<RecordV>)
    requires
        spec_parse_records(data, 0, 0) == Ok::<_, ErrorV>(recs),
        data.len() <= u32::MAX,
    ensures
        ({
            let rb = spec_file_rebuild(spec_file_elems(data, recs));
            &&& rb is Ok
            &&& rb->Ok_0.1 == recs
            &&& rb->Ok_0.0.len() == data.len()
            &&& forall|k: int|
                0 <= k < recs.len() ==> rb->Ok_0.0.subrange(
                    (#[trigger] recs[k]).start,
                    recs[k].start + 8,
                ) == data.subrange(recs[k].start, recs[k].start + 8)
            &&& forall|k: int, j: int|
                0 <= k < recs.len() && 0 <= j < (#[trigger] recs[k]).subs.len()
                    ==> rb->Ok_0.0.subrange(
                    recs[k].start + (#[trigger] recs[k].subs[j]).start,
                    recs[k].start + recs[k].subs[j].start + 8,
                ) == data.subrange(
                    recs[k].start + recs[k].subs[j].start,
                    recs[k].start + recs[k].subs[j].start + 8,
                )
        }),
{
    assert(data.skip(0) =~= data);
    lemma_recs_roundtrip(data, 0, 0, recs);
}

} // verus!
