//! The tag codec: converts a chunk's 4-byte identifier to and from a
//! printable text form.
//!
//! When every tag byte is a letter, digit, underscore, hyphen or dot,
//! the text is the direct ASCII rendering of the 4 bytes; otherwise it
//! is the 8-character uppercase hex rendering of all 4 bytes, so the
//! text is always a single well-formed markup identifier.  The pair is
//! exactly inverse on every 4-byte input.

use vstd::prelude::*;

use crate::hex::{spec_hex_plain, spec_hex_run};
use crate::hex::{append_hex_byte, hex_val};
use crate::hex::{lemma_hex_plain_len, lemma_hex_run_len, lemma_hex_run_none, lemma_hex_run_plain};
use crate::strbuf::push_char;

verus! {

/// A byte that may appear directly in a tag text: `A`-`Z`, `a`-`z`,
/// `0`-`9`, `_`, `-` or `.`.
pub open spec fn spec_is_tag_byte(b: u8) -> bool {
    ||| 0x41 <= b && b <= 0x5A
    ||| 0x61 <= b && b <= 0x7A
    ||| 0x30 <= b && b <= 0x39
    ||| b == 0x5F
    ||| b == 0x2D
    ||| b == 0x2E
}

/// Whether every byte may appear directly in a tag text.
pub open spec fn spec_all_tag_bytes(bytes: Seq<u8>) -> bool {
    forall|i: int| 0 <= i < bytes.len() ==> spec_is_tag_byte(#[trigger] bytes[i])
}

/// The direct ASCII rendering of bytes as characters.
pub open spec fn spec_ascii_chars(bytes: Seq<u8>) -> Seq<char> {
    bytes.map_values(|b: u8| b as char)
}

/// Tag encoding: the direct ASCII rendering when every byte is
/// allowed, the plain uppercase hex rendering otherwise.
pub open spec fn spec_tag_text(bytes: Seq<u8>) -> Seq<char> {
    if spec_all_tag_bytes(bytes) {
        spec_ascii_chars(bytes)
    } else {
        spec_hex_plain(bytes)
    }
}

/// Tag decoding: text of exactly 4 ASCII characters is taken as the
/// bytes themselves; text of exactly 8 hex digits (case-insensitive)
/// is decoded pairwise; anything else is no tag.
pub open spec fn spec_tag_bytes(text: Seq<char>) -> Option<Seq<u8>> {
    if text.len() == 4 {
        let ascii = forall|i: int| 0 <= i < 4 ==> ((#[trigger] text[i]) as int) < 128;
        if ascii {
            Some(text.map_values(|c: char| ((c as int) as u8)))
        } else {
            None
        }
    } else if text.len() == 8 {
        match spec_hex_run(text) {
            Some((bytes, pending)) => if pending is None {
                Some(bytes)
            } else {
                None
            },
            None => None,
        }
    } else {
        None
    }
}

/// Whether `b` may appear directly in a tag text.
fn is_tag_byte(b: u8) -> (r: bool)
    ensures
        r == spec_is_tag_byte(b),
{
    (0x41 <= b && b <= 0x5A) || (0x61 <= b && b <= 0x7A) || (0x30 <= b && b <= 0x39) || b == 0x5F
        || b == 0x2D || b == 0x2E
}

/// Encodes a tag: the direct ASCII rendering of `data` when every byte
/// is a letter, digit, underscore, hyphen or dot, the plain uppercase
/// hex rendering of all of `data` otherwise.
pub fn xml_tag(data: &[u8]) -> (r: String)
    ensures
        r@ == spec_tag_text(data@),
{
    let n = data.len();
    let mut tag = String::new();
    let mut i: usize = 0;
    proof {
        assert(tag@ =~= spec_ascii_chars(data@.take(0)));
    }
    while i < n
        invariant
            n == data@.len(),
            0 <= i <= n,
            forall|k: int| 0 <= k < i ==> spec_is_tag_byte(#[trigger] data@[k]),
            tag@ == spec_ascii_chars(data@.take(i as int)),
        decreases n - i,
    {
        let b = data[i];
        if is_tag_byte(b) {
            push_char(&mut tag, b as char);
            proof {
                assert(tag@ =~= spec_ascii_chars(data@.take(i + 1)));
            }
            i = i + 1;
        } else {
            let mut hexed = String::new();
            let mut j: usize = 0;
            proof {
                assert(hexed@ =~= spec_hex_plain(data@.take(0)));
            }
            while j < n
                invariant
                    n == data@.len(),
                    0 <= j <= n,
                    hexed@ == spec_hex_plain(data@.take(j as int)),
                decreases n - j,
            {
                append_hex_byte(&mut hexed, data[j]);
                proof {
                    assert(data@.take(j + 1).drop_last() =~= data@.take(j as int));
                    assert(data@.take(j + 1).last() == data@[j as int]);
                }
                j = j + 1;
            }
            proof {
                assert(data@.take(n as int) =~= data@);
            }
            return hexed;
        }
    }
    proof {
        assert(data@.take(n as int) =~= data@);
    }
    tag
}

/// Decodes a tag text back to its 4 bytes: 4 ASCII characters are the
/// bytes themselves; 8 hex digits (case-insensitive) decode pairwise;
/// any other text is `None`.
pub fn xml_tag_to_bytes(tag: &str) -> (r: Option<[u8; 4]>)
    ensures
        (match r {
            Some(bytes) => spec_tag_bytes(tag@) == Some(bytes@),
            None => spec_tag_bytes(tag@) is None,
        }),
{
    let n = tag.unicode_len();
    if n == 4 {
        let c0 = tag.get_char(0);
        let c1 = tag.get_char(1);
        let c2 = tag.get_char(2);
        let c3 = tag.get_char(3);
        if (c0 as u32) < 128 && (c1 as u32) < 128 && (c2 as u32) < 128 && (c3 as u32) < 128 {
            let bytes = [c0 as u8, c1 as u8, c2 as u8, c3 as u8];
            proof {
                assert(bytes@ =~= tag@.map_values(|c: char| ((c as int) as u8)));
            }
            Some(bytes)
        } else {
            None
        }
    } else if n == 8 {
        let mut out: Vec<u8> = Vec::new();
        let mut pending: Option<u8> = None;
        let mut i: usize = 0;
        proof {
            assert(tag@.take(0) =~= Seq::<char>::empty());
        }
        while i < 8
            invariant
                n == 8,
                n == tag@.len(),
                0 <= i <= 8,
                spec_hex_run(tag@.take(i as int)) == Some((out@, pending)),
                pending matches Some(hi) ==> hi < 16,
                2 * out@.len() + (if pending is Some {
                    1int
                } else {
                    0int
                }) == i,
            decreases 8 - i,
        {
            let c = tag.get_char(i);
            proof {
                assert(tag@.take(i + 1).drop_last() =~= tag@.take(i as int));
                assert(tag@.take(i + 1).last() == tag@[i as int]);
            }
            match hex_val(c) {
                Some(d) => {
                    match pending {
                        None => {
                            pending = Some(d);
                        },
                        Some(hi) => {
                            out.push(hi * 16 + d);
                            pending = None;
                        },
                    }
                },
                None => {
                    proof {
                        assert(spec_hex_run(tag@.take(i + 1)) is None);
                        assert(tag@ =~= tag@.take(i + 1) + tag@.skip(i + 1));
                        lemma_hex_run_none(tag@.take(i + 1), tag@.skip(i + 1));
                    }
                    return None;
                },
            }
            i = i + 1;
        }
        proof {
            assert(tag@.take(8) =~= tag@);
        }
        let b0 = out[0];
        let b1 = out[1];
        let b2 = out[2];
        let b3 = out[3];
        proof {
            assert(seq![b0, b1, b2, b3] =~= out@);
        }
        Some([b0, b1, b2, b3])
    } else {
        None
    }
}

/// A decoded tag is always exactly four bytes.
pub proof fn lemma_tag_bytes_len(text: Seq<char>, b: Seq<u8>)
    requires
        spec_tag_bytes(text) == Some(b),
    ensures
        b.len() == 4,
{
    if text.len() == 8 {
        let run = spec_hex_run(text);
        lemma_hex_run_len(text, run->Some_0.0, run->Some_0.1);
    }
}

/// Tag codec round trip: decoding the encoded text of any 4-byte tag
/// yields the original bytes, through either the direct ASCII form or
/// the hex fallback.
pub proof fn lemma_tag_round_trip(bytes: Seq<u8>)
    requires
        bytes.len() == 4,
    ensures
        spec_tag_bytes(spec_tag_text(bytes)) == Some(bytes),
{
    if spec_all_tag_bytes(bytes) {
        let text = spec_ascii_chars(bytes);
        assert(forall|i: int| 0 <= i < 4 ==> ((#[trigger] text[i]) as int) < 128);
        assert(text.map_values(|c: char| ((c as int) as u8)) =~= bytes);
    } else {
        lemma_hex_plain_len(bytes);
        lemma_hex_run_plain(bytes);
    }
}

} // verus!
