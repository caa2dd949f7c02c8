//! Verified form-urlencoding of parameter values, byte for byte: ASCII
//! alphanumerics and `*-._` pass through, a space becomes `+`, and every
//! other byte becomes `%` followed by two upper-case hexadecimal digits.

use crate::text::all_ascii;
use vstd::prelude::*;

verus! {

/// Whether a byte passes through form-urlencoding unchanged: an ASCII
/// alphanumeric or one of `*`, `-`, `.`, `_`.
pub open spec fn is_unreserved(b: u8) -> bool {
    (0x30 <= b <= 0x39) || (0x41 <= b <= 0x5A) || (0x61 <= b <= 0x7A) || b == 0x2A || b == 0x2D
        || b == 0x2E || b == 0x5F
}

/// The upper-case hexadecimal digit byte for a value below sixteen.
pub open spec fn hex_digit(d: int) -> u8 {
    if d < 10 {
        (0x30 + d) as u8
    } else {
        (0x41 + (d - 10)) as u8
    }
}

/// The form-urlencoding of one byte.
pub open spec fn encode_byte(b: u8) -> Seq<u8> {
    if is_unreserved(b) {
        seq![b]
    } else if b == 0x20 {
        seq![0x2B]
    } else {
        seq![0x25, hex_digit(b as int / 16), hex_digit(b as int % 16)]
    }
}

/// The form-urlencoding of a byte string.
pub open spec fn urlencoded(s: Seq<u8>) -> Seq<u8>
    decreases s.len(),
{
    if s.len() == 0 {
        Seq::empty()
    } else {
        urlencoded(s.drop_last()) + encode_byte(s.last())
    }
}

/// An encoded byte string is ASCII throughout.
pub proof fn lemma_urlencoded_ascii(s: Seq<u8>)
    ensures
        all_ascii(urlencoded(s)),
    decreases s.len(),
{
    if s.len() > 0 {
        lemma_urlencoded_ascii(s.drop_last());
        assert forall|i: int| 0 <= i < urlencoded(s).len() implies #[trigger] urlencoded(
            s,
        )[i] < 128 by {
            let front = urlencoded(s.drop_last());
            if i < front.len() {
                assert(urlencoded(s)[i] == front[i]);
            } else {
                assert(urlencoded(s)[i] == encode_byte(s.last())[i - front.len()]);
            }
        }
    }
}

/// The upper-case hexadecimal digit byte for a value below sixteen.
fn hex_digit_byte(d: u8) -> (r: u8)
    requires
        d < 16,
    ensures
        r == hex_digit(d as int),
{
    if d < 10 {
        0x30 + d
    } else {
        0x41 + (d - 10)
    }
}

/// Append the form-urlencoding of `src` to `out`.
pub fn urlencode_push(src: &Vec<u8>, out: &mut Vec<u8>)
    ensures
        final(out)@ == old(out)@ + urlencoded(src@),
{
    let mut i: usize = 0;
    while i < src.len()
        invariant
            0 <= i <= src@.len(),
            out@ == old(out)@ + urlencoded(src@.take(i as int)),
        decreases src@.len() - i,
    {
        let b = src[i];
        if (0x30 <= b && b <= 0x39) || (0x41 <= b && b <= 0x5A) || (0x61 <= b && b <= 0x7A) || b
            == 0x2A || b == 0x2D || b == 0x2E || b == 0x5F {
            out.push(b);
        } else if b == 0x20 {
            out.push(0x2B);
        } else {
            proof {
                assert(b >> 4 == b / 16 && (b & 0x0F) == b % 16 && b / 16 < 16 && b % 16 < 16)
                    by (bit_vector);
            }
            out.push(0x25);
            out.push(hex_digit_byte(b >> 4));
            out.push(hex_digit_byte(b & 0x0F));
        }
        proof {
            assert(src@.take(i as int + 1).drop_last() =~= src@.take(i as int));
            assert(src@.take(i as int + 1).last() == src@[i as int]);
            assert(out@ =~= old(out)@ + urlencoded(src@.take(i as int + 1)));
        }
        i += 1;
    }
    proof {
        assert(src@.take(src@.len() as int) =~= src@);
    }
}

} // verus!
