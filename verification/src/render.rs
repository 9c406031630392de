//! The textual renderer: walks records and subrecords and emits one
//! markup element per chunk, with a `size` attribute, an optional
//! `flags` attribute on records (omitted when all flag bytes are
//! zero), and the payload rendered as wrapped hex text.

use vstd::prelude::*;

use vstd::string::StringExecFns;

use crate::chunk::{spec_subs_in_frame, Record, RecordV, Subrecord, SubrecordV};
use crate::dec::{append_u32_dec, spec_dec_text};
use crate::error::Error;
use crate::file::{lemma_parse_records_wf, spec_file_wf, File};
use crate::hex::{append_hex_text, spec_hex_text};
use crate::tag::{spec_tag_text, xml_tag};

verus! {

/// The textual element of one subrecord, where `win` is the owning
/// record's window: two spaces of indentation, the tag element with
/// its `size` attribute, and the payload as hex text in rows of 32
/// bytes grouped by 4, set off on its own lines when it is longer
/// than one row.
pub open spec fn spec_sub_xml(win: Seq<u8>, s: SubrecordV) -> Seq<char> {
    let tag = spec_tag_text(win.subrange(s.start, s.start + 4));
    let payload = win.subrange(s.start + 8, s.start + 8 + s.size);
    "  <"@ + tag + " size=\""@ + spec_dec_text(s.size) + "\">"@ + (if s.size > 32 {
        "\n"@
    } else {
        Seq::empty()
    }) + spec_hex_text(payload, 32, 4) + (if s.size > 32 {
        "\n  "@
    } else {
        Seq::empty()
    }) + "</"@ + tag + ">\n"@
}

/// The concatenated textual elements of subrecords, in order.
pub open spec fn spec_subs_xml(win: Seq<u8>, subs: Seq<SubrecordV>) -> Seq<char>
    decreases subs.len(),
{
    if subs.len() == 0 {
        Seq::empty()
    } else {
        spec_subs_xml(win, subs.drop_last()) + spec_sub_xml(win, subs.last())
    }
}

/// Whether any of the eight flag bytes of a record window is nonzero.
pub open spec fn spec_flags_nonzero(win: Seq<u8>) -> bool {
    exists|k: int| 8 <= k < 16 && win[k] != 0
}

/// The `flags` attribute of a record window: its eight flag bytes as
/// plain hex text, present only when any of them is nonzero.
pub open spec fn spec_flags_attr(win: Seq<u8>) -> Seq<char> {
    if spec_flags_nonzero(win) {
        " flags=\""@ + spec_hex_text(win.subrange(8, 16), 0, 0) + "\""@
    } else {
        Seq::empty()
    }
}

/// The textual element of one record, where `data` is the whole
/// buffer: the tag element with its `size` attribute and optional
/// `flags` attribute, then each subrecord's element in order.
pub open spec fn spec_rec_xml(data: Seq<u8>, r: RecordV) -> Seq<char> {
    let win = data.subrange(r.start, r.start + 16 + r.size);
    let tag = spec_tag_text(win.subrange(0, 4));
    "<"@ + tag + " size=\""@ + spec_dec_text(r.size) + "\""@ + spec_flags_attr(win) + ">\n"@
        + spec_subs_xml(win, r.subs) + "</"@ + tag + ">\n"@
}

/// The concatenated textual elements of records, in order.
pub open spec fn spec_recs_xml(data: Seq<u8>, recs: Seq<RecordV>) -> Seq<char>
    decreases recs.len(),
{
    if recs.len() == 0 {
        Seq::empty()
    } else {
        spec_recs_xml(data, recs.drop_last()) + spec_rec_xml(data, recs.last())
    }
}

/// The whole textual document: every record's element in buffer order,
/// wrapped in a single root element.
pub open spec fn spec_file_xml(data: Seq<u8>, recs: Seq<RecordV>) -> Seq<char> {
    "<CHIM>\n"@ + spec_recs_xml(data, recs) + "</CHIM>\n"@
}

impl Subrecord {
    /// Appends this subrecord's textual element to `xml`.  `data` is
    /// the owning record's window.
    pub fn to_xml(&self, xml: &mut String, data: &[u8])
        requires
            0 <= self@.start,
            0 <= self@.size,
            self@.start + 8 + self@.size <= data@.len(),
        ensures
            final(xml)@ == old(xml)@ + spec_sub_xml(data@, self@),
    {
        // The slice length is a usize, so the frame end fits the
        // address space; `range` asks for exactly that.
        let dlen = data.len();
        let r = self.range();
        let window = &data[r];
        let tag = xml_tag(&window[0..4]);
        xml.append("  <");
        xml.append(tag.as_str());
        xml.append(" size=\"");
        append_u32_dec(xml, self.size());
        xml.append("\">");
        let size = self.size() as usize;
        let payload = &window[8..(8 + size)];
        if payload.len() > 32 {
            xml.append("\n");
        }
        append_hex_text(xml, payload, 32, 4);
        if payload.len() > 32 {
            xml.append("\n  ");
        }
        xml.append("</");
        xml.append(tag.as_str());
        xml.append(">\n");
        proof {
            assert(window@.subrange(0, 4) =~= data@.subrange(self@.start, self@.start + 4));
            assert(payload@ =~= data@.subrange(self@.start + 8, self@.start + 8 + self@.size));
            assert(xml@ =~= old(xml)@ + spec_sub_xml(data@, self@));
        }
    }
}

impl Record {
    /// Appends this record's textual element to `xml`.  `data` is the
    /// whole buffer.
    #[verifier::rlimit(50)]
    pub fn to_xml(&self, xml: &mut String, data: &[u8])
        requires
            0 <= self@.start,
            0 <= self@.size,
            self@.start + 16 + self@.size <= data@.len(),
            spec_subs_in_frame(self@.subs, self@.size),
        ensures
            final(xml)@ == old(xml)@ + spec_rec_xml(data@, self@),
    {
        // The slice length is a usize, so the frame end fits the
        // address space; `range` asks for exactly that.
        let dlen = data.len();
        let r = self.range();
        let window = &data[r];
        let ghost win = window@;
        let tag = xml_tag(&window[0..4]);
        xml.append("<");
        xml.append(tag.as_str());
        xml.append(" size=\"");
        append_u32_dec(xml, self.size());
        xml.append("\"");
        let any = window[8] != 0 || window[9] != 0 || window[10] != 0 || window[11] != 0
            || window[12] != 0 || window[13] != 0 || window[14] != 0 || window[15] != 0;
        proof {
            assert(any == spec_flags_nonzero(win));
        }
        if any {
            xml.append(" flags=\"");
            append_hex_text(xml, &window[8..16], 0, 0);
            xml.append("\"");
        }
        xml.append(">\n");
        proof {
            assert(win.subrange(0, 4) =~= data@.subrange(self@.start, self@.start + 4));
            assert(win.subrange(8, 16) =~= data@.subrange(self@.start + 8, self@.start + 16));
        }
        let ghost pre = xml@;
        let n = self.subrecord_count();
        proof {
            assert(self@.subs.take(0) =~= Seq::<SubrecordV>::empty());
            assert(pre + spec_subs_xml(win, self@.subs.take(0)) =~= pre);
        }
        let mut i: usize = 0;
        while i < n
            invariant
                n == self@.subs.len(),
                0 <= i <= n,
                0 <= self@.start,
                0 <= self@.size,
                self@.start + 16 + self@.size <= data@.len(),
                spec_subs_in_frame(self@.subs, self@.size),
                win == data@.subrange(self@.start, self@.start + 16 + self@.size),
                win == window@,
                xml@ == pre + spec_subs_xml(win, self@.subs.take(i as int)),
            decreases n - i,
        {
            let sub = self.subrecord(i);
            sub.to_xml(xml, window);
            proof {
                assert(self@.subs.take(i + 1).drop_last() =~= self@.subs.take(i as int));
                assert(self@.subs.take(i + 1).last() == self@.subs[i as int]);
                assert(xml@ =~= pre + spec_subs_xml(win, self@.subs.take(i + 1)));
            }
            i = i + 1;
        }
        proof {
            assert(self@.subs.take(n as int) =~= self@.subs);
        }
        xml.append("</");
        xml.append(tag.as_str());
        xml.append(">\n");
        proof {
            assert(xml@ =~= old(xml)@ + spec_rec_xml(data@, self@));
        }
    }
}

impl File {
    /// Renders the whole container as a textual document: every record
    /// in buffer order inside a single root element.
    pub fn to_xml(&self) -> (r: Result<String, Error>)
        requires
            spec_file_wf(self@),
        ensures
            r is Ok,
            r matches Ok(s) ==> s@ == spec_file_xml(self@.data, self@.records),
    {
        let mut xml = String::new();
        xml.append("<CHIM>\n");
        proof {
            lemma_parse_records_wf(self@.data, 0, 0, self@.records);
        }
        let ghost pre = xml@;
        let n = self.record_count();
        proof {
            assert(self@.records.take(0) =~= Seq::<RecordV>::empty());
            assert(pre + spec_recs_xml(self@.data, self@.records.take(0)) =~= pre);
        }
        let mut i: usize = 0;
        while i < n
            invariant
                n == self@.records.len(),
                0 <= i <= n,
                forall|k: int|
                    0 <= k < n ==> {
                        &&& 0 <= (#[trigger] self@.records[k]).start
                        &&& 0 <= self@.records[k].size
                        &&& self@.records[k].start + 16 + self@.records[k].size
                            <= self@.data.len()
                        &&& spec_subs_in_frame(self@.records[k].subs, self@.records[k].size)
                    },
                xml@ == pre + spec_recs_xml(self@.data, self@.records.take(i as int)),
            decreases n - i,
        {
            let rec = self.record(i);
            rec.to_xml(&mut xml, self.data().as_slice());
            proof {
                assert(self@.records.take(i + 1).drop_last() =~= self@.records.take(i as int));
                assert(self@.records.take(i + 1).last() == self@.records[i as int]);
                assert(xml@ =~= pre + spec_recs_xml(self@.data, self@.records.take(i + 1)));
            }
            i = i + 1;
        }
        proof {
            assert(self@.records.take(n as int) =~= self@.records);
        }
        xml.append("</CHIM>\n");
        proof {
            assert(xml@ =~= spec_file_xml(self@.data, self@.records));
        }
        Ok(xml)
    }
}

} // verus!
