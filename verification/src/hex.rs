//! The hex text codec: renders bytes as uppercase two-digit-per-byte
//! hex text with cosmetic layout, and decodes hex text back to bytes.
//!
//! Layout is a single space after every `group` bytes within a row and
//! a newline after every `width` bytes; both parameters are rendering
//! choices with no semantic meaning, and decoding discards all
//! whitespace before pairing hex digits back into bytes.

use vstd::prelude::*;

use crate::error::{Error, ErrorKind, ErrorKindV};
use crate::error::spec_bare;
use crate::strbuf::push_char;

verus! {

/// The uppercase hex digit character for a half-byte value.
pub open spec fn spec_hex_char(d: u8) -> char {
    if d < 10 {
        (0x30 + d) as char
    } else {
        (0x37 + d) as char
    }
}

/// The two hex characters of one byte, high half first.
pub open spec fn spec_hex_byte(b: u8) -> Seq<char> {
    seq![spec_hex_char(b / 16), spec_hex_char(b % 16)]
}

/// The hex characters of `bytes[i ..]`, without any layout.
pub open spec fn spec_hex_plain(bytes: Seq<u8>) -> Seq<char>
    decreases bytes.len(),
{
    if bytes.len() == 0 {
        Seq::empty()
    } else {
        spec_hex_plain(bytes.drop_last()) + spec_hex_byte(bytes.last())
    }
}

/// The plain hex text of `bytes` has two characters per byte.
pub(crate) proof fn lemma_hex_plain_len(bytes: Seq<u8>)
    ensures
        spec_hex_plain(bytes).len() == 2 * bytes.len(),
    decreases bytes.len(),
{
    if bytes.len() != 0 {
        lemma_hex_plain_len(bytes.drop_last());
    }
}

/// The separator emitted before the hex pair of byte `i`: a newline at
/// the start of every row of `width` bytes, a space between groups of
/// `group` bytes within a row, nothing before the first byte.  A zero
/// `width` means a single unbounded row; a zero `group` means no
/// spaces.
pub open spec fn spec_hex_sep(i: int, width: int, group: int) -> Seq<char> {
    if i == 0 {
        Seq::empty()
    } else {
        let w = if width > 0 {
            i % width
        } else {
            i
        };
        if w == 0 {
            seq!['\n']
        } else if group > 0 && w % group == 0 {
            seq![' ']
        } else {
            Seq::empty()
        }
    }
}

/// The hex text of `bytes[i ..]` with layout, each byte preceded by
/// its separator.
pub open spec fn spec_hex_text_from(bytes: Seq<u8>, width: int, group: int, i: int) -> Seq<char>
    decreases bytes.len() - i,
{
    if i < 0 || i >= bytes.len() {
        Seq::empty()
    } else {
        spec_hex_sep(i, width, group) + spec_hex_byte(bytes[i]) + spec_hex_text_from(
            bytes,
            width,
            group,
            i + 1,
        )
    }
}

/// The hex text of `bytes` with layout.
pub open spec fn spec_hex_text(bytes: Seq<u8>, width: int, group: int) -> Seq<char> {
    spec_hex_text_from(bytes, width, group, 0)
}

/// A whitespace character as the decoder discards it: space, tab,
/// carriage return or newline (the only characters the encoder's
/// layout can emit).
pub open spec fn spec_is_ws_char(c: char) -> bool {
    c == ' ' || c == '\t' || c == '\r' || c == '\n'
}

/// `s` with all whitespace characters removed.
pub open spec fn spec_strip_ws(s: Seq<char>) -> Seq<char>
    decreases s.len(),
{
    if s.len() == 0 {
        Seq::empty()
    } else {
        spec_strip_ws(s.drop_last()) + (if spec_is_ws_char(s.last()) {
            Seq::empty()
        } else {
            seq![s.last()]
        })
    }
}

/// The value of a hex digit character, case-insensitive; `None` for
/// any other character.
pub open spec fn spec_hex_val(c: char) -> Option<u8> {
    if '0' <= c && c <= '9' {
        Some(((c as int) - 0x30) as u8)
    } else if 'A' <= c && c <= 'F' {
        Some(((c as int) - 0x37) as u8)
    } else if 'a' <= c && c <= 'f' {
        Some(((c as int) - 0x57) as u8)
    } else {
        None
    }
}

/// Running the pairing decoder over already-stripped text: the bytes
/// completed so far and the pending high half-byte of an odd trailing
/// digit, or `None` on the first non-digit character.
pub open spec fn spec_hex_run(t: Seq<char>) -> Option<(Seq<u8>, Option<u8>)>
    decreases t.len(),
{
    if t.len() == 0 {
        Some((Seq::empty(), None))
    } else {
        match spec_hex_run(t.drop_last()) {
            None => None,
            Some((bytes, pending)) => match spec_hex_val(t.last()) {
                None => None,
                Some(d) => match pending {
                    None => Some((bytes, Some(d))),
                    Some(hi) => Some((bytes.push((hi * 16 + d) as u8), None)),
                },
            },
        }
    }
}

/// Decoding hex text: strip all whitespace, then pair consecutive hex
/// digits into bytes.  `None` when a non-digit character remains or
/// the digit count is odd.
pub open spec fn spec_hex_decode(s: Seq<char>) -> Option<Seq<u8>> {
    match spec_hex_run(spec_strip_ws(s)) {
        Some((bytes, pending)) => if pending is None {
            Some(bytes)
        } else {
            None
        },
        None => None,
    }
}

/// The uppercase hex digit character for a half-byte value.
pub fn hex_char(half_byte: u8) -> (r: char)
    requires
        half_byte < 16,
    ensures
        r == spec_hex_char(half_byte),
{
    if half_byte < 10 {
        (0x30 + half_byte) as char
    } else {
        (0x37 + half_byte) as char
    }
}

/// Appends the two hex characters of `byte` to `s`.
pub fn append_hex_byte(s: &mut String, byte: u8)
    ensures
        final(s)@ == old(s)@ + spec_hex_byte(byte),
{
    push_char(s, hex_char(byte / 16));
    push_char(s, hex_char(byte % 16));
    proof {
        assert(old(s)@.push(spec_hex_char(byte / 16)).push(spec_hex_char(byte % 16)) =~= old(
            s,
        )@ + spec_hex_byte(byte));
    }
}

/// Appends the hex text of `bytes` with the given layout to `s`.
pub fn append_hex_text(s: &mut String, bytes: &[u8], width: usize, group: usize)
    ensures
        final(s)@ == old(s)@ + spec_hex_text(bytes@, width as int, group as int),
{
    let n = bytes.len();
    let mut i: usize = 0;
    while i < n
        invariant
            n == bytes@.len(),
            0 <= i <= n,
            s@ + spec_hex_text_from(bytes@, width as int, group as int, i as int) == old(s)@
                + spec_hex_text(bytes@, width as int, group as int),
        decreases n - i,
    {
        let ghost s_entry = s@;
        if i > 0 {
            let w = if width > 0 {
                i % width
            } else {
                i
            };
            if w == 0 {
                push_char(s, '\n');
            } else if group > 0 && w % group == 0 {
                push_char(s, ' ');
            }
        }
        proof {
            assert(s@ =~= s_entry + spec_hex_sep(i as int, width as int, group as int));
        }
        append_hex_byte(s, bytes[i]);
        proof {
            assert(s@ + spec_hex_text_from(bytes@, width as int, group as int, i + 1) =~= s_entry
                + spec_hex_text_from(bytes@, width as int, group as int, i as int));
        }
        i = i + 1;
    }
    proof {
        assert(s@ + spec_hex_text_from(bytes@, width as int, group as int, n as int) =~= s@);
    }
}

/// The hex text of `bytes` with the given layout, as a fresh string.
pub fn hex_text(bytes: &[u8], width: usize, group: usize) -> (r: String)
    ensures
        r@ == spec_hex_text(bytes@, width as int, group as int),
{
    let mut s = String::new();
    append_hex_text(&mut s, bytes, width, group);
    proof {
        assert(Seq::<char>::empty() + spec_hex_text(bytes@, width as int, group as int)
            =~= spec_hex_text(bytes@, width as int, group as int));
    }
    s
}

/// The value of a hex digit character, case-insensitive.
pub fn hex_val(c: char) -> (r: Option<u8>)
    ensures
        r == spec_hex_val(c),
{
    if '0' <= c && c <= '9' {
        Some((c as u32 - 0x30) as u8)
    } else if 'A' <= c && c <= 'F' {
        Some((c as u32 - 0x37) as u8)
    } else if 'a' <= c && c <= 'f' {
        Some((c as u32 - 0x57) as u8)
    } else {
        None
    }
}

proof fn lemma_strip_ws_concat(a: Seq<char>, b: Seq<char>)
    ensures
        spec_strip_ws(a + b) == spec_strip_ws(a) + spec_strip_ws(b),
    decreases b.len(),
{
    if b.len() == 0 {
        assert(a + b =~= a);
        assert(spec_strip_ws(a) + spec_strip_ws(b) =~= spec_strip_ws(a));
    } else {
        lemma_strip_ws_concat(a, b.drop_last());
        assert((a + b).drop_last() =~= a + b.drop_last());
        assert((a + b).last() == b.last());
        assert(spec_strip_ws(a) + (spec_strip_ws(b.drop_last()) + (if spec_is_ws_char(b.last()) {
            Seq::<char>::empty()
        } else {
            seq![b.last()]
        })) =~= (spec_strip_ws(a) + spec_strip_ws(b.drop_last())) + (if spec_is_ws_char(
            b.last(),
        ) {
            Seq::<char>::empty()
        } else {
            seq![b.last()]
        }));
    }
}

/// Once the pairing decoder has failed, no further text recovers it.
pub(crate) proof fn lemma_hex_run_none(a: Seq<char>, b: Seq<char>)
    requires
        spec_hex_run(a) is None,
    ensures
        spec_hex_run(a + b) is None,
    decreases b.len(),
{
    if b.len() == 0 {
        assert(a + b =~= a);
    } else {
        lemma_hex_run_none(a, b.drop_last());
        assert((a + b).drop_last() =~= a + b.drop_last());
    }
}

/// Well-paired hex text has two characters per completed byte, plus
/// one for a pending half-byte.
pub(crate) proof fn lemma_hex_run_len(t: Seq<char>, bs: Seq<u8>, p: Option<u8>)
    requires
        spec_hex_run(t) == Some((bs, p)),
    ensures
        t.len() == 2 * bs.len() + (if p is Some {
            1int
        } else {
            0int
        }),
    decreases t.len(),
{
    if t.len() == 0 {
        assert(bs =~= Seq::<u8>::empty());
    } else {
        let prev = spec_hex_run(t.drop_last());
        let bs0 = prev->Some_0.0;
        let p0 = prev->Some_0.1;
        lemma_hex_run_len(t.drop_last(), bs0, p0);
        if p0 is Some {
            assert(bs =~= bs0.push((p0->Some_0 * 16 + spec_hex_val(t.last())->Some_0) as u8));
        }
    }
}

/// Decodes hex text: discards all whitespace, then pairs consecutive
/// hex digits (case-insensitive) into bytes.  Fails with `InvalidHex`
/// when a non-digit non-whitespace character occurs or the digit count
/// is odd.
pub fn hex_decode(s: &str) -> (r: Result<Vec<u8>, Error>)
    ensures
        (match r {
            Ok(v) => spec_hex_decode(s@) == Some(v@),
            Err(e) => spec_hex_decode(s@) is None && e@ == spec_bare(ErrorKindV::InvalidHex),
        }),
{
    let n = s.unicode_len();
    let mut out: Vec<u8> = Vec::new();
    let mut pending: Option<u8> = None;
    let mut i: usize = 0;
    proof {
        assert(s@.take(0) =~= Seq::<char>::empty());
    }
    while i < n
        invariant
            n == s@.len(),
            0 <= i <= n,
            spec_hex_run(spec_strip_ws(s@.take(i as int))) == Some((out@, pending)),
            pending matches Some(hi) ==> hi < 16,
        decreases n - i,
    {
        let c = s.get_char(i);
        proof {
            assert(s@.take(i + 1).drop_last() =~= s@.take(i as int));
            assert(s@.take(i + 1).last() == s@[i as int]);
            let stripped = spec_strip_ws(s@.take(i as int));
            if !spec_is_ws_char(s@[i as int]) {
                assert((stripped + seq![s@[i as int]]).drop_last() =~= stripped);
                assert((stripped + seq![s@[i as int]]).last() == s@[i as int]);
            } else {
                assert(stripped + Seq::<char>::empty() =~= stripped);
            }
        }
        if !(c == ' ' || c == '\t' || c == '\r' || c == '\n') {
            match hex_val(c) {
                Some(d) => {
                    match pending {
                        None => {
                            pending = Some(d);
                        },
                        Some(hi) => {
                            out.push(hi * 16 + d);
                            pending = None;
                        },
                    }
                },
                None => {
                    proof {
                        assert(spec_hex_run(spec_strip_ws(s@.take(i + 1))) is None);
                        assert(s@ =~= s@.take(i + 1) + s@.skip(i + 1));
                        lemma_strip_ws_concat(s@.take(i + 1), s@.skip(i + 1));
                        lemma_hex_run_none(
                            spec_strip_ws(s@.take(i + 1)),
                            spec_strip_ws(s@.skip(i + 1)),
                        );
                    }
                    return Err(Error { kind: ErrorKind::InvalidHex, frames: Vec::new() });
                },
            }
        }
        i = i + 1;
    }
    proof {
        assert(s@.take(n as int) =~= s@);
    }
    match pending {
        None => Ok(out),
        Some(_) => Err(Error { kind: ErrorKind::InvalidHex, frames: Vec::new() }),
    }
}

/// A hex digit character decodes back to the half-byte it renders.
proof fn lemma_hex_val_char(d: u8)
    requires
        d < 16,
    ensures
        spec_hex_val(spec_hex_char(d)) == Some(d),
        !spec_is_ws_char(spec_hex_char(d)),
{
}

/// Extending well-paired text by one byte's two digits keeps it
/// well paired and appends that byte.
proof fn lemma_hex_run_pair(t: Seq<char>, bs: Seq<u8>, b: u8)
    requires
        spec_hex_run(t) == Some((bs, None::<u8>)),
    ensures
        spec_hex_run(t + spec_hex_byte(b)) == Some((bs.push(b), None::<u8>)),
{
    let hi = b / 16;
    let lo = b % 16;
    lemma_hex_val_char(hi);
    lemma_hex_val_char(lo);
    let t1 = t + seq![spec_hex_char(hi)];
    let t2 = t + spec_hex_byte(b);
    assert(t1.drop_last() =~= t);
    assert(t1.last() == spec_hex_char(hi));
    assert(spec_hex_run(t1) == Some((bs, Some(hi))));
    assert(t2.drop_last() =~= t1);
    assert(t2.last() == spec_hex_char(lo));
    assert(hi * 16 + lo == b);
    assert(spec_hex_run(t2) == Some((bs.push(b), None::<u8>)));
}

/// The layout separators strip away entirely.
proof fn lemma_strip_sep(i: int, width: int, group: int)
    ensures
        spec_strip_ws(spec_hex_sep(i, width, group)) =~= Seq::<char>::empty(),
{
    reveal_with_fuel(spec_strip_ws, 3);
    let sep = spec_hex_sep(i, width, group);
    if sep.len() != 0 {
        assert(sep.last() == '\n' || sep.last() == ' ');
        assert(sep.drop_last() =~= Seq::<char>::empty());
        assert(spec_strip_ws(sep) =~= Seq::<char>::empty());
    }
}

/// A byte's two hex digits survive stripping unchanged.
proof fn lemma_strip_hex_byte(b: u8)
    ensures
        spec_strip_ws(spec_hex_byte(b)) =~= spec_hex_byte(b),
{
    reveal_with_fuel(spec_strip_ws, 4);
    lemma_hex_val_char(b / 16);
    lemma_hex_val_char(b % 16);
    let hb = spec_hex_byte(b);
    assert(hb.drop_last() =~= seq![spec_hex_char(b / 16)]);
    assert(hb.drop_last().drop_last() =~= Seq::<char>::empty());
    assert(hb.drop_last().last() == spec_hex_char(b / 16));
    assert(hb.last() == spec_hex_char(b % 16));
    assert(spec_strip_ws(hb.drop_last()) =~= hb.drop_last());
}

/// Rendering one more byte extends the hex text by its separator and
/// its two digits.
proof fn lemma_hex_text_push(bytes: Seq<u8>, b: u8, width: int, group: int, i: int)
    requires
        0 <= i <= bytes.len(),
    ensures
        spec_hex_text_from(bytes.push(b), width, group, i) == spec_hex_text_from(
            bytes,
            width,
            group,
            i,
        ) + spec_hex_sep(bytes.len() as int, width, group) + spec_hex_byte(b),
    decreases bytes.len() - i,
{
    let n = bytes.len() as int;
    if i == n {
        assert(spec_hex_text_from(bytes, width, group, i) =~= Seq::<char>::empty());
        assert(bytes.push(b)[n] == b);
        assert(spec_hex_text_from(bytes.push(b), width, group, n + 1) =~= Seq::<char>::empty());
        assert(spec_hex_text_from(bytes.push(b), width, group, i) =~= Seq::<char>::empty()
            + spec_hex_sep(n, width, group) + spec_hex_byte(b));
    } else {
        lemma_hex_text_push(bytes, b, width, group, i + 1);
        assert(bytes.push(b)[i] == bytes[i]);
        assert((spec_hex_sep(i, width, group) + spec_hex_byte(bytes[i]) + (spec_hex_text_from(
            bytes,
            width,
            group,
            i + 1,
        ) + spec_hex_sep(n, width, group) + spec_hex_byte(b))) =~= ((spec_hex_sep(i, width, group)
            + spec_hex_byte(bytes[i]) + spec_hex_text_from(bytes, width, group, i + 1))
            + spec_hex_sep(n, width, group) + spec_hex_byte(b)));
    }
}

/// Stripping the laid-out hex text of `bytes` leaves exactly its
/// plain hex digits.
proof fn lemma_strip_hex_text(bytes: Seq<u8>, width: int, group: int)
    ensures
        spec_strip_ws(spec_hex_text(bytes, width, group)) == spec_hex_plain(bytes),
    decreases bytes.len(),
{
    if bytes.len() == 0 {
        assert(spec_hex_text(bytes, width, group) =~= Seq::<char>::empty());
    } else {
        let pre = bytes.drop_last();
        let b = bytes.last();
        lemma_strip_hex_text(pre, width, group);
        lemma_hex_text_push(pre, b, width, group, 0);
        assert(pre.push(b) =~= bytes);
        lemma_strip_ws_concat(
            spec_hex_text(pre, width, group),
            spec_hex_sep(pre.len() as int, width, group),
        );
        lemma_strip_ws_concat(
            spec_hex_text(pre, width, group) + spec_hex_sep(pre.len() as int, width, group),
            spec_hex_byte(b),
        );
        lemma_strip_sep(pre.len() as int, width, group);
        lemma_strip_hex_byte(b);
        assert(spec_strip_ws(spec_hex_text(bytes, width, group)) =~= spec_hex_plain(pre)
            + Seq::<char>::empty() + spec_hex_byte(b));
        assert(spec_hex_plain(pre) + Seq::<char>::empty() + spec_hex_byte(b) =~= spec_hex_plain(
            bytes,
        ));
    }
}

/// Hex text round trip: for every byte sequence and any layout
/// parameters, decoding the rendered hex text yields the original
/// bytes; the layout strips away entirely.
pub proof fn lemma_hex_round_trip(bytes: Seq<u8>, width: int, group: int)
    ensures
        spec_hex_decode(spec_hex_text(bytes, width, group)) == Some(bytes),
{
    lemma_strip_hex_text(bytes, width, group);
    lemma_hex_run_plain(bytes);
}

/// The plain hex digits of `bytes` pair back to exactly `bytes`.
pub(crate) proof fn lemma_hex_run_plain(bytes: Seq<u8>)
    ensures
        spec_hex_run(spec_hex_plain(bytes)) == Some((bytes, None::<u8>)),
    decreases bytes.len(),
{
    if bytes.len() == 0 {
        assert(spec_hex_plain(bytes) =~= Seq::<char>::empty());
        assert(bytes =~= Seq::<u8>::empty());
    } else {
        lemma_hex_run_plain(bytes.drop_last());
        lemma_hex_run_pair(spec_hex_plain(bytes.drop_last()), bytes.drop_last(), bytes.last());
        assert(bytes.drop_last().push(bytes.last()) =~= bytes);
    }
}

} // verus!
