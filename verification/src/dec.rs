//! Decimal rendering and parsing of 32-bit sizes for the textual
//! `size` attribute.

use vstd::prelude::*;

use crate::strbuf::push_char;

verus! {

/// The decimal digit character for a value below ten.
pub open spec fn spec_dec_digit(d: int) -> char {
    (0x30 + d) as char
}

/// The decimal rendering of a non-negative number, most significant
/// digit first, with no sign and no leading zeroes (a lone zero for 0).
pub open spec fn spec_dec_text(n: int) -> Seq<char>
    decreases n,
{
    if n < 10 {
        seq![spec_dec_digit(n)]
    } else {
        spec_dec_text(n / 10).push(spec_dec_digit(n % 10))
    }
}

/// A decimal digit character.
pub open spec fn spec_is_digit(c: char) -> bool {
    '0' <= c && c <= '9'
}

/// Whether every character is a decimal digit.
pub open spec fn spec_all_digits(t: Seq<char>) -> bool {
    forall|i: int| 0 <= i < t.len() ==> spec_is_digit(#[trigger] t[i])
}

/// The value of a digit string, most significant digit first.
pub open spec fn spec_dec_val(t: Seq<char>) -> int
    decreases t.len(),
{
    if t.len() == 0 {
        0
    } else {
        spec_dec_val(t.drop_last()) * 10 + ((t.last() as int) - 0x30)
    }
}

/// Parsing a `size` attribute as a 32-bit decimal number: an optional
/// leading `+`, then one or more digits, valued at most `u32::MAX`;
/// anything else does not parse.
pub open spec fn spec_parse_u32_dec(t: Seq<char>) -> Option<u32> {
    let u = if t.len() > 0 && t[0] == '+' {
        t.drop_first()
    } else {
        t
    };
    if u.len() == 0 || !spec_all_digits(u) {
        None
    } else if spec_dec_val(u) > u32::MAX {
        None
    } else {
        Some(spec_dec_val(u) as u32)
    }
}

/// Appends the decimal rendering of `v` to `s`.
pub fn append_u32_dec(s: &mut String, v: u32)
    ensures
        final(s)@ == old(s)@ + spec_dec_text(v as int),
    decreases v,
{
    if v < 10 {
        push_char(s, (0x30 + (v as u8)) as char);
        proof {
            assert(old(s)@.push(spec_dec_digit(v as int)) =~= old(s)@ + spec_dec_text(v as int));
        }
    } else {
        append_u32_dec(s, v / 10);
        push_char(s, (0x30 + ((v % 10) as u8)) as char);
        proof {
            assert((old(s)@ + spec_dec_text(v as int / 10)).push(spec_dec_digit(v as int % 10))
                =~= old(s)@ + spec_dec_text(v as int));
        }
    }
}

/// The value of a digit string is non-negative.
proof fn lemma_dec_val_nonneg(t: Seq<char>)
    requires
        spec_all_digits(t),
    ensures
        spec_dec_val(t) >= 0,
    decreases t.len(),
{
    if t.len() != 0 {
        assert(spec_all_digits(t.drop_last())) by {
            assert(forall|i: int|
                0 <= i < t.len() - 1 ==> #[trigger] t.drop_last()[i] == t[i]);
        }
        lemma_dec_val_nonneg(t.drop_last());
    }
}

/// Extending a digit string never shrinks its value.
proof fn lemma_dec_val_mono(t: Seq<char>, j: int)
    requires
        spec_all_digits(t),
        0 <= j <= t.len(),
    ensures
        spec_dec_val(t) >= spec_dec_val(t.take(j)),
    decreases t.len() - j,
{
    if j == t.len() {
        assert(t.take(j) =~= t);
    } else {
        lemma_dec_val_mono(t, j + 1);
        assert(t.take(j + 1).drop_last() =~= t.take(j));
        assert(t.take(j + 1).last() == t[j]);
        assert(spec_all_digits(t.take(j))) by {
            assert(forall|i: int| 0 <= i < j ==> #[trigger] t.take(j)[i] == t[i]);
        }
        lemma_dec_val_nonneg(t.take(j));
    }
}

/// Parses a `size` attribute: an optional leading `+`, then one or
/// more decimal digits whose value fits in 32 bits.
pub fn parse_u32_dec(t: &str) -> (r: Option<u32>)
    ensures
        r == spec_parse_u32_dec(t@),
{
    let n = t.unicode_len();
    let ghost u = if t@.len() > 0 && t@[0] == '+' {
        t@.drop_first()
    } else {
        t@
    };
    let start: usize = if n > 0 && t.get_char(0) == '+' {
        1
    } else {
        0
    };
    proof {
        assert(u =~= t@.skip(start as int));
    }
    if start == n {
        return None;
    }
    let mut val: u32 = 0;
    let mut i: usize = start;
    proof {
        assert(u.take(0) =~= Seq::<char>::empty());
    }
    while i < n
        invariant
            n == t@.len(),
            start <= i <= n,
            u == t@.skip(start as int),
            u == (if t@.len() > 0 && t@[0] == '+' {
                t@.drop_first()
            } else {
                t@
            }),
            u.len() == n - start,
            forall|k: int| 0 <= k < i - start ==> spec_is_digit(#[trigger] u[k]),
            val == spec_dec_val(u.take(i - start)),
        decreases n - i,
    {
        let c = t.get_char(i);
        proof {
            assert(u[i - start] == t@[i as int]);
            assert(u.take(i - start + 1).drop_last() =~= u.take(i - start));
            assert(u.take(i - start + 1).last() == u[i - start]);
        }
        if !('0' <= c && c <= '9') {
            proof {
                assert(!spec_is_digit(u[i - start]));
                assert(!spec_all_digits(u));
            }
            return None;
        }
        let d = (c as u32) - 0x30;
        if val > (0xFFFF_FFFF - d) / 10 {
            proof {
                let j = i - start + 1;
                assert(spec_dec_val(u.take(j)) == val * 10 + d);
                vstd::arithmetic::div_mod::lemma_fundamental_div_mod(
                    (0xFFFF_FFFFu32 - d) as int,
                    10,
                );
                assert(val * 10 + d > u32::MAX);
                if spec_all_digits(u) {
                    lemma_dec_val_mono(u, j);
                }
            }
            return None;
        }
        val = val * 10 + d;
        i = i + 1;
    }
    proof {
        assert(u.take(n - start) =~= u);
    }
    Some(val)
}

/// The decimal rendering of a non-negative number is all digits, is
/// never empty, and values back to the number itself.
proof fn lemma_dec_text_val(n: int)
    requires
        n >= 0,
    ensures
        spec_dec_text(n).len() >= 1,
        spec_all_digits(spec_dec_text(n)),
        spec_dec_val(spec_dec_text(n)) == n,
    decreases n,
{
    if n < 10 {
        let t = spec_dec_text(n);
        assert(t.drop_last() =~= Seq::<char>::empty());
        assert(t.last() == spec_dec_digit(n));
        assert(spec_dec_val(Seq::<char>::empty()) == 0);
        assert(spec_dec_val(t) == n);
    } else {
        lemma_dec_text_val(n / 10);
        let t = spec_dec_text(n);
        let pre = spec_dec_text(n / 10);
        assert(t =~= pre.push(spec_dec_digit(n % 10)));
        assert(t.drop_last() =~= pre);
        assert(t.last() == spec_dec_digit(n % 10));
        assert(spec_all_digits(t)) by {
            assert(forall|i: int| 0 <= i < pre.len() ==> #[trigger] t[i] == pre[i]);
        }
    }
}

/// Decimal round trip: parsing the rendered decimal text of any
/// 32-bit value yields the value back.
pub proof fn lemma_dec_round_trip(v: u32)
    ensures
        spec_parse_u32_dec(spec_dec_text(v as int)) == Some(v),
{
    lemma_dec_text_val(v as int);
    let t = spec_dec_text(v as int);
    assert(t[0] != '+');
}

} // verus!
