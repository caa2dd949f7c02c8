//! Verified text utilities shared by the protocol codec and the lifecycle
//! manager: ASCII byte sequences, decimal rendering, and decimal parsing.

use vstd::prelude::*;
use vstd::string::StringSliceAdditionalSpecFns;

verus! {

/// The characters of an ASCII byte sequence, byte for byte.
pub open spec fn ascii_chars(b: Seq<u8>) -> Seq<char> {
    b.map(|_i: int, x: u8| x as char)
}

/// The bytes of an ASCII character sequence, character for character.
pub open spec fn char_bytes(s: Seq<char>) -> Seq<u8> {
    s.map(|_i: int, c: char| c as u8)
}

/// Whether every byte is ASCII.
pub open spec fn all_ascii(b: Seq<u8>) -> bool {
    forall|i: int| 0 <= i < b.len() ==> #[trigger] b[i] < 128
}

/// The ASCII digit byte for a value below ten.
pub open spec fn digit_byte(d: int) -> u8 {
    (0x30 + d) as u8
}

/// The shortest decimal rendering of a non-negative number, most
/// significant digit first.
pub open spec fn dec_bytes(n: nat) -> Seq<u8>
    decreases n,
{
    if n < 10 {
        seq![digit_byte(n as int)]
    } else {
        dec_bytes(n / 10).push(digit_byte((n % 10) as int))
    }
}

/// Every byte of a decimal rendering is an ASCII digit.
pub proof fn lemma_dec_bytes_ascii(n: nat)
    ensures
        forall|i: int| 0 <= i < dec_bytes(n).len() ==> 0x30 <= #[trigger] dec_bytes(n)[i] <= 0x39,
    decreases n,
{
    if n < 10 {
        assert(dec_bytes(n) =~= seq![digit_byte(n as int)]);
        assert(0x30 <= digit_byte(n as int) <= 0x39);
    } else {
        lemma_dec_bytes_ascii(n / 10);
        assert(0 <= n % 10 < 10);
        assert(0x30 <= digit_byte((n % 10) as int) <= 0x39);
        assert(dec_bytes(n) == dec_bytes(n / 10).push(digit_byte((n % 10) as int)));
        assert forall|i: int| 0 <= i < dec_bytes(n).len() implies 0x30 <= #[trigger] dec_bytes(
            n,
        )[i] <= 0x39 by {
            if i < dec_bytes(n / 10).len() {
                assert(dec_bytes(n)[i] == dec_bytes(n / 10)[i]);
            } else {
                assert(dec_bytes(n)[i] == digit_byte((n % 10) as int));
            }
        }
    }
}

/// Append the decimal rendering of `n` to `out`.
pub fn push_dec_u64(n: u64, out: &mut Vec<u8>)
    ensures
        final(out)@ == old(out)@ + dec_bytes(n as nat),
    decreases n,
{
    if n >= 10 {
        push_dec_u64(n / 10, out);
    }
    let d: u8 = 0x30 + (n % 10) as u8;
    out.push(d);
    proof {
        assert(final(out)@ == old(out)@ + dec_bytes(n as nat));
    }
}

/// The decimal rendering of `n` as a byte vector.
pub fn u64_dec_bytes(n: u64) -> (r: Vec<u8>)
    ensures
        r@ == dec_bytes(n as nat),
{
    let mut out: Vec<u8> = Vec::new();
    push_dec_u64(n, &mut out);
    proof {
        assert(out@ =~= dec_bytes(n as nat));
    }
    out
}

/// Relies on `String::from_utf8`: bytes below 128 decode to one ASCII
/// character each.
#[verifier::external_body]
pub fn ascii_string(b: Vec<u8>) -> (r: String)
    requires
        all_ascii(b@),
    ensures
        r@ == ascii_chars(b@),
{
    String::from_utf8(b).unwrap()
}

/// The number denoted by decimal digit bytes, most significant first.
pub open spec fn digits_val(b: Seq<u8>) -> int
    decreases b.len(),
{
    if b.len() == 0 {
        0
    } else {
        digits_val(b.drop_last()) * 10 + (b.last() - 0x30)
    }
}

/// Whether every byte is an ASCII decimal digit.
pub open spec fn all_digits(b: Seq<u8>) -> bool {
    forall|i: int| 0 <= i < b.len() ==> 0x30 <= #[trigger] b[i] <= 0x39
}

/// The denoted number never shrinks as more digits are appended.
pub proof fn lemma_digits_val_prefix(b: Seq<u8>, i: int)
    requires
        all_digits(b),
        0 <= i <= b.len(),
    ensures
        0 <= digits_val(b.take(i)) <= digits_val(b),
    decreases b.len() - i,
{
    if i == b.len() {
        assert(b.take(i) =~= b);
        lemma_digits_val_nonneg(b);
    } else {
        lemma_digits_val_prefix(b, i + 1);
        assert(b.take(i + 1).drop_last() =~= b.take(i));
        assert(digits_val(b.take(i + 1)) == digits_val(b.take(i)) * 10 + (b[i] - 0x30));
        lemma_digits_val_nonneg(b.take(i));
    }
}

/// A digit string denotes a non-negative number.
pub proof fn lemma_digits_val_nonneg(b: Seq<u8>)
    requires
        all_digits(b),
    ensures
        digits_val(b) >= 0,
    decreases b.len(),
{
    if b.len() > 0 {
        assert(all_digits(b.drop_last()));
        lemma_digits_val_nonneg(b.drop_last());
    }
}

/// Parse decimal digit bytes, with an optional leading minus sign applied,
/// into an `isize`; `None` when the value does not fit.
pub fn parse_decimal_isize(digits: &Vec<u8>, negative: bool) -> (r: Option<isize>)
    requires
        all_digits(digits@),
        digits@.len() > 0,
    ensures
        ({
            let v = if negative { -digits_val(digits@) } else { digits_val(digits@) };
            &&& r is Some <==> isize::MIN <= v <= isize::MAX
            &&& r matches Some(x) ==> x as int == v
        }),
{
    let cap: u128 = if negative { (isize::MAX as u128) + 1 } else { isize::MAX as u128 };
    let mut acc: u128 = 0;
    let mut i: usize = 0;
    while i < digits.len()
        invariant
            all_digits(digits@),
            0 <= i <= digits@.len(),
            cap as int == if negative { isize::MAX as int + 1 } else { isize::MAX as int },
            acc as int == digits_val(digits@.take(i as int)),
            acc <= cap,
        decreases digits@.len() - i,
    {
        let d: u8 = digits[i] - 0x30;
        proof {
            lemma_digits_val_nonneg(digits@.take(i as int));
        }
        let next: u128 = acc * 10 + (d as u128);
        proof {
            assert(digits@.take(i as int + 1).drop_last() =~= digits@.take(i as int));
            assert(next as int == digits_val(digits@.take(i as int + 1)));
        }
        if next > cap {
            proof {
                lemma_digits_val_prefix(digits@, i as int + 1);
            }
            return None;
        }
        acc = next;
        i += 1;
    }
    proof {
        assert(digits@.take(digits@.len() as int) =~= digits@);
    }
    if negative {
        if acc == (isize::MAX as u128) + 1 {
            Some(isize::MIN)
        } else {
            Some(-((acc as isize)))
        }
    } else {
        Some(acc as isize)
    }
}

/// The parts joined with a single separator byte between them.
pub open spec fn join_with(parts: Seq<Seq<u8>>, sep: u8) -> Seq<u8>
    decreases parts.len(),
{
    if parts.len() == 0 {
        Seq::empty()
    } else if parts.len() == 1 {
        parts[0]
    } else {
        join_with(parts.drop_last(), sep) + seq![sep] + parts.last()
    }
}

/// Appending one more part extends the join by a separator and the part,
/// or starts it when there was no part yet.
pub proof fn lemma_join_push(parts: Seq<Seq<u8>>, e: Seq<u8>, sep: u8)
    ensures
        join_with(parts.push(e), sep) == if parts.len() == 0 {
            e
        } else {
            join_with(parts, sep) + seq![sep] + e
        },
{
    assert(parts.push(e).drop_last() =~= parts);
    assert(parts.push(e).last() == e);
    if parts.len() == 0 {
        assert(join_with(parts.push(e), sep) == parts.push(e)[0]);
    }
}

/// A concatenation of ASCII byte strings is ASCII.
pub proof fn lemma_all_ascii_concat(a: Seq<u8>, b: Seq<u8>)
    requires
        all_ascii(a),
        all_ascii(b),
    ensures
        all_ascii(a + b),
{
    assert forall|i: int| 0 <= i < (a + b).len() implies #[trigger] (a + b)[i] < 128 by {
        if i < a.len() {
            assert((a + b)[i] == a[i]);
        } else {
            assert((a + b)[i] == b[i - a.len()]);
        }
    }
}

/// One more ASCII byte keeps a byte string ASCII.
pub proof fn lemma_all_ascii_push(a: Seq<u8>, b: u8)
    requires
        all_ascii(a),
        b < 128,
    ensures
        all_ascii(a.push(b)),
{
    assert forall|i: int| 0 <= i < a.push(b).len() implies #[trigger] a.push(b)[i] < 128 by {
        if i < a.len() {
            assert(a.push(b)[i] == a[i]);
        } else {
            assert(a.push(b)[i] == b);
        }
    }
}

/// The bytes of an ASCII string slice, character for character.
pub fn ascii_bytes(s: &str) -> (r: Vec<u8>)
    requires
        vstd::string::is_ascii(s),
    ensures
        r@ == char_bytes(s@),
        all_ascii(r@),
{
    proof {
        broadcast use vstd::string::is_ascii_spec_bytes;
        broadcast use vstd::utf8::is_ascii_chars_nat_bound;

        assert(s.spec_bytes() =~= char_bytes(s@));
    }
    vstd::slice::slice_to_vec(s.as_bytes())
}

/// The UTF-8 bytes of a string slice.
pub fn str_bytes(s: &str) -> (r: Vec<u8>)
    ensures
        r@ == vstd::utf8::encode_utf8(s@),
{
    vstd::slice::slice_to_vec(s.as_bytes())
}

/// Whether `pat` occurs in `b` exactly at position `pos`.
pub fn match_at(b: &Vec<u8>, pos: usize, pat: &Vec<u8>) -> (r: bool)
    ensures
        r == (pos + pat@.len() <= b@.len() && b@.subrange(
            pos as int,
            pos as int + pat@.len() as int,
        ) == pat@),
{
    if pat.len() > b.len() || pos > b.len() - pat.len() {
        return false;
    }
    let mut j: usize = 0;
    while j < pat.len()
        invariant
            0 <= j <= pat@.len(),
            pos + pat@.len() <= b@.len(),
            forall|k: int| 0 <= k < j ==> b@[pos + k] == pat@[k],
        decreases pat@.len() - j,
    {
        proof {
            assert(pos + j < b@.len() && b@.len() == b.len());
        }
        if b[pos + j] != pat[j] {
            proof {
                let sub = b@.subrange(pos as int, pos as int + pat@.len() as int);
                assert(sub[j as int] == b@[pos as int + j]);
                assert(sub[j as int] != pat@[j as int]);
            }
            return false;
        }
        j += 1;
    }
    proof {
        assert(b@.subrange(pos as int, pos as int + pat@.len() as int) =~= pat@);
    }
    true
}

/// Whether the bytes of `b` between `from` and `to` are all decimal
/// digits.
pub fn digits_in_range(b: &Vec<u8>, from: usize, to: usize) -> (r: bool)
    requires
        from <= to <= b@.len(),
    ensures
        r == all_digits(b@.subrange(from as int, to as int)),
{
    let mut j: usize = from;
    while j < to
        invariant
            from <= j <= to <= b@.len(),
            forall|k: int| from <= k < j ==> 0x30 <= #[trigger] b@[k] <= 0x39,
        decreases to - j,
    {
        let x = b[j];
        if x < 0x30 || x > 0x39 {
            proof {
                let sub = b@.subrange(from as int, to as int);
                assert(sub[j - from] == b@[j as int]);
            }
            return false;
        }
        j += 1;
    }
    proof {
        let sub = b@.subrange(from as int, to as int);
        assert forall|k: int| 0 <= k < sub.len() implies 0x30 <= #[trigger] sub[k] <= 0x39 by {
            assert(sub[k] == b@[from + k]);
        }
    }
    true
}

/// Whether the bytes of `b` between `from` and `to` avoid the byte `x`.
pub fn range_lacks(b: &Vec<u8>, from: usize, to: usize, x: u8) -> (r: bool)
    requires
        from <= to <= b@.len(),
    ensures
        r == (forall|k: int| from <= k < to ==> #[trigger] b@[k] != x),
{
    let mut j: usize = from;
    while j < to
        invariant
            from <= j <= to <= b@.len(),
            forall|k: int| from <= k < j ==> #[trigger] b@[k] != x,
        decreases to - j,
    {
        if b[j] == x {
            return false;
        }
        j += 1;
    }
    true
}

/// The bytes of `b` between `from` and `to`, as their own vector.
pub fn subvec(b: &Vec<u8>, from: usize, to: usize) -> (r: Vec<u8>)
    requires
        from <= to <= b@.len(),
    ensures
        r@ == b@.subrange(from as int, to as int),
{
    let mut out: Vec<u8> = Vec::new();
    let mut j: usize = from;
    while j < to
        invariant
            from <= j <= to <= b@.len(),
            out@ == b@.subrange(from as int, j as int),
        decreases to - j,
    {
        out.push(b[j]);
        proof {
            assert(b@.subrange(from as int, j as int + 1) =~= b@.subrange(
                from as int,
                j as int,
            ).push(b@[j as int]));
        }
        j += 1;
    }
    out
}

/// Whether the UTF-8 bytes of `s` begin with the bytes of the ASCII
/// pattern `p`.
pub open spec fn name_starts_with(s: Seq<char>, p: Seq<char>) -> bool {
    let b = vstd::utf8::encode_utf8(s);
    let pb = char_bytes(p);
    b.len() >= pb.len() && b.take(pb.len() as int) == pb
}

/// Whether the UTF-8 bytes of `s` end with the bytes of the ASCII pattern
/// `p`.
pub open spec fn name_ends_with(s: Seq<char>, p: Seq<char>) -> bool {
    let b = vstd::utf8::encode_utf8(s);
    let pb = char_bytes(p);
    b.len() >= pb.len() && b.skip(b.len() - pb.len()) == pb
}

/// Whether `s` starts with the ASCII pattern `p`.
pub fn str_starts_with(s: &str, p: &str) -> (r: bool)
    requires
        vstd::string::is_ascii(p),
    ensures
        r == name_starts_with(s@, p@),
{
    let sb = str_bytes(s);
    let pb = ascii_bytes(p);
    let r = match_at(&sb, 0, &pb);
    proof {
        if sb@.len() >= pb@.len() {
            assert(sb@.take(pb@.len() as int) =~= sb@.subrange(0, pb@.len() as int));
        }
    }
    r
}

/// Whether `s` ends with the ASCII pattern `p`.
pub fn str_ends_with(s: &str, p: &str) -> (r: bool)
    requires
        vstd::string::is_ascii(p),
    ensures
        r == name_ends_with(s@, p@),
{
    let sb = str_bytes(s);
    let pb = ascii_bytes(p);
    if sb.len() < pb.len() {
        return false;
    }
    let r = match_at(&sb, sb.len() - pb.len(), &pb);
    proof {
        assert(sb@.skip(sb@.len() - pb@.len()) =~= sb@.subrange(
            sb@.len() - pb@.len(),
            sb@.len() as int,
        ));
    }
    r
}

/// Append all of `src` to `dst`.
pub fn push_all(dst: &mut Vec<u8>, src: &Vec<u8>)
    ensures
        final(dst)@ == old(dst)@ + src@,
{
    let mut i: usize = 0;
    while i < src.len()
        invariant
            0 <= i <= src@.len(),
            dst@ == old(dst)@ + src@.take(i as int),
        decreases src@.len() - i,
    {
        dst.push(src[i]);
        proof {
            assert(old(dst)@ + src@.take(i as int + 1) =~= (old(dst)@ + src@.take(
                i as int,
            )).push(src@[i as int]));
        }
        i += 1;
    }
    proof {
        assert(src@.take(src@.len() as int) =~= src@);
    }
}

} // verus!
