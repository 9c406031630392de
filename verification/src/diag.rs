//! Rendering a failure and its positional context chain as one line of
//! text, for diagnostics.

use vstd::prelude::*;

use vstd::string::StringExecFns;

use crate::dec::spec_dec_text;
use crate::dec::append_u32_dec;
use crate::error::{Error, ErrorKindV, ErrorV, Frame, Level};
use crate::hex::spec_hex_byte;
use crate::hex::append_hex_byte;
use crate::strbuf::push_char;

verus! {

/// Bytes rendered for a human: a printable ASCII byte as a space and
/// the character itself, any other byte as its two hex digits.
pub open spec fn spec_ascii_or_hex(bytes: Seq<u8>) -> Seq<char>
    decreases bytes.len(),
{
    if bytes.len() == 0 {
        Seq::empty()
    } else {
        spec_ascii_or_hex(bytes.drop_last()) + (if 0x1F < bytes.last() && bytes.last() < 0x7F {
            seq![' ', bytes.last() as char]
        } else {
            spec_hex_byte(bytes.last())
        })
    }
}

/// The rendering of one failure condition.
pub open spec fn spec_kind_message(k: ErrorKindV) -> Seq<char> {
    match k {
        ErrorKindV::TooShort { header, length } => "window contains less than "@ + spec_dec_text(
            header,
        ) + " bytes ("@ + spec_dec_text(length) + ")"@,
        ErrorKindV::SizeOverflow { declared, available } => "declared size ("@ + spec_dec_text(
            declared,
        ) + ") larger than remaining size ("@ + spec_dec_text(available) + ")"@,
        ErrorKindV::SizeMismatch { declared, actual } => "declared record size ("@ + spec_dec_text(
            declared,
        ) + ") differs from subrecords' framed length ("@ + spec_dec_text(actual) + ")"@,
        ErrorKindV::UnknownTag => "unexpected tag name"@,
        ErrorKindV::InvalidHex => "malformed hex text"@,
        ErrorKindV::MissingSize => "missing size attribute"@,
        ErrorKindV::InvalidSize => "failed to parse size attribute as a 32-bit number"@,
        ErrorKindV::UnrecognizedFormat { bytes } => "unexpected initial bytes:"@
            + spec_ascii_or_hex(bytes),
    }
}

/// The rendering of one context frame.
pub open spec fn spec_frame_message(f: Frame) -> Seq<char> {
    "; in "@ + (match f.level {
        Level::Record => "record "@,
        Level::Subrecord => "subrecord "@,
    }) + spec_dec_text(f.index as int) + " at offset "@ + spec_dec_text(f.offset as int)
}

/// The rendering of a context chain, innermost chunk first.
pub open spec fn spec_frames_message(frames: Seq<Frame>) -> Seq<char>
    decreases frames.len(),
{
    if frames.len() == 0 {
        Seq::empty()
    } else {
        spec_frames_message(frames.drop_last()) + spec_frame_message(frames.last())
    }
}

/// The rendering of a whole failure: the condition, then each
/// enclosing chunk that was being parsed, innermost first.
pub open spec fn spec_message(e: ErrorV) -> Seq<char> {
    spec_kind_message(e.kind) + spec_frames_message(e.frames)
}

/// Appends the decimal rendering of `v` to `s`.
fn append_usize_dec(s: &mut String, v: usize)
    ensures
        final(s)@ == old(s)@ + spec_dec_text(v as int),
    decreases v,
{
    if v < 10 {
        push_char(s, (0x30 + (v as u8)) as char);
        proof {
            assert(old(s)@.push(crate::dec::spec_dec_digit(v as int)) =~= old(s)@ + spec_dec_text(
                v as int,
            ));
        }
    } else {
        append_usize_dec(s, v / 10);
        push_char(s, (0x30 + ((v % 10) as u8)) as char);
        proof {
            assert((old(s)@ + spec_dec_text(v as int / 10)).push(
                crate::dec::spec_dec_digit(v as int % 10),
            ) =~= old(s)@ + spec_dec_text(v as int));
        }
    }
}

/// Appends the printable-ASCII-or-hex rendering of `bytes` to `s`.
fn append_ascii_or_hex(s: &mut String, bytes: &Vec<u8>)
    ensures
        final(s)@ == old(s)@ + spec_ascii_or_hex(bytes@),
{
    let n = bytes.len();
    let mut i: usize = 0;
    proof {
        assert(bytes@.take(0) =~= Seq::<u8>::empty());
        assert(s@ + spec_ascii_or_hex(bytes@.take(0)) =~= s@);
    }
    while i < n
        invariant
            n == bytes@.len(),
            0 <= i <= n,
            s@ == old(s)@ + spec_ascii_or_hex(bytes@.take(i as int)),
        decreases n - i,
    {
        let b = bytes[i];
        proof {
            assert(bytes@.take(i + 1).drop_last() =~= bytes@.take(i as int));
            assert(bytes@.take(i + 1).last() == bytes@[i as int]);
        }
        if 0x1F < b && b < 0x7F {
            push_char(s, ' ');
            push_char(s, b as char);
            proof {
                assert(s@ =~= old(s)@ + spec_ascii_or_hex(bytes@.take(i + 1)));
            }
        } else {
            append_hex_byte(s, b);
            proof {
                assert(s@ =~= old(s)@ + spec_ascii_or_hex(bytes@.take(i + 1)));
            }
        }
        i = i + 1;
    }
    proof {
        assert(bytes@.take(n as int) =~= bytes@);
    }
}

impl Error {
    /// Renders this failure and its context chain as one line of text.
    pub fn message(&self) -> (r: String)
        ensures
            r@ == spec_message(self@),
    {
        let mut s = String::new();
        match &self.kind {
            crate::error::ErrorKind::TooShort { header, length } => {
                s.append("window contains less than ");
                append_u32_dec(&mut s, *header);
                s.append(" bytes (");
                append_u32_dec(&mut s, *length);
                s.append(")");
            },
            crate::error::ErrorKind::SizeOverflow { declared, available } => {
                s.append("declared size (");
                append_u32_dec(&mut s, *declared);
                s.append(") larger than remaining size (");
                append_u32_dec(&mut s, *available);
                s.append(")");
            },
            crate::error::ErrorKind::SizeMismatch { declared, actual } => {
                s.append("declared record size (");
                append_u32_dec(&mut s, *declared);
                s.append(") differs from subrecords' framed length (");
                append_u32_dec(&mut s, *actual);
                s.append(")");
            },
            crate::error::ErrorKind::UnknownTag => {
                s.append("unexpected tag name");
            },
            crate::error::ErrorKind::InvalidHex => {
                s.append("malformed hex text");
            },
            crate::error::ErrorKind::MissingSize => {
                s.append("missing size attribute");
            },
            crate::error::ErrorKind::InvalidSize => {
                s.append("failed to parse size attribute as a 32-bit number");
            },
            crate::error::ErrorKind::UnrecognizedFormat { bytes } => {
                s.append("unexpected initial bytes:");
                append_ascii_or_hex(&mut s, bytes);
            },
        }
        proof {
            assert(s@ =~= spec_kind_message(self@.kind));
        }
        let ghost pre = s@;
        let n = self.frames.len();
        let mut i: usize = 0;
        proof {
            assert(self@.frames.take(0) =~= Seq::<Frame>::empty());
            assert(pre + spec_frames_message(self@.frames.take(0)) =~= pre);
        }
        while i < n
            invariant
                n == self@.frames.len(),
                0 <= i <= n,
                s@ == pre + spec_frames_message(self@.frames.take(i as int)),
            decreases n - i,
        {
            let f = &self.frames[i];
            s.append("; in ");
            match f.level {
                Level::Record => s.append("record "),
                Level::Subrecord => s.append("subrecord "),
            }
            append_usize_dec(&mut s, f.index);
            s.append(" at offset ");
            append_u32_dec(&mut s, f.offset);
            proof {
                assert(self@.frames.take(i + 1).drop_last() =~= self@.frames.take(i as int));
                assert(self@.frames.take(i + 1).last() == self@.frames[i as int]);
                assert(s@ =~= pre + spec_frames_message(self@.frames.take(i + 1)));
            }
            i = i + 1;
        }
        proof {
            assert(self@.frames.take(n as int) =~= self@.frames);
        }
        s
    }
}

} // verus!
