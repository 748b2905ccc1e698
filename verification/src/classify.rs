//! Classifying a clamd response: decode it as UTF-8 and declare the content
//! clean exactly when the text contains `OK` and does not contain `FOUND`.

use vstd::prelude::*;

use vstd::utf8::{
    codepoint_width_2, codepoint_width_3, codepoint_width_4, is_continuation_byte,
    length_of_first_scalar, partial_valid_partial_invalid_utf8, partial_valid_utf8,
    partial_valid_utf8_extend, valid_first_scalar, valid_leading_and_continuation_bytes_first_codepoint,
    valid_utf8,
};

verus! {

/// The response was not valid UTF-8 and could not be classified.
#[derive(Clone, Copy, PartialEq, Eq, Structural, Debug)]
pub struct DecodeError;

/// `pat` occurs contiguously somewhere in `s`.
pub open spec fn contains_seq(s: Seq<u8>, pat: Seq<u8>) -> bool {
    exists|i: int| 0 <= i <= s.len() - pat.len() && #[trigger] s.subrange(i, i + pat.len()) == pat
}

/// The bytes of `OK`.
pub open spec fn ok_marker() -> Seq<u8> {
    seq!['O' as u8, 'K' as u8]
}

/// The bytes of `FOUND`.
pub open spec fn found_marker() -> Seq<u8> {
    seq!['F' as u8, 'O' as u8, 'U' as u8, 'N' as u8, 'D' as u8]
}

/// Whether `needle` starts at position `i` of `hay`.
fn matches_at(hay: &[u8], needle: &[u8], i: usize) -> (r: bool)
    requires
        i + needle@.len() <= hay@.len(),
    ensures
        r == (hay@.subrange(i as int, i as int + needle@.len() as int) == needle@),
{
    let n = needle.len();
    let hlen = hay.len();
    let mut k: usize = 0;
    while k < n
        invariant
            k <= n,
            n == needle@.len(),
            hlen == hay@.len(),
            i + n <= hlen,
            forall|j: int| 0 <= j < k ==> hay@[i + j] == needle@[j],
        decreases n - k,
    {
        if hay[i + k] != needle[k] {
            proof {
                let w = hay@.subrange(i as int, i as int + n as int);
                assert(w[k as int] != needle@[k as int]);
            }
            return false;
        }
        k = k + 1;
    }
    proof {
        assert(hay@.subrange(i as int, i as int + n as int) =~= needle@);
    }
    true
}

/// Naive substring search over bytes.
pub fn contains_bytes(hay: &[u8], needle: &[u8]) -> (r: bool)
    ensures
        r == contains_seq(hay@, needle@),
{
    let n = needle.len();
    let h = hay.len();
    if n == 0 {
        proof {
            let z: int = 0;
            assert(hay@.subrange(z, z + needle@.len()) =~= needle@);
        }
        return true;
    }
    if h < n {
        return false;
    }
    let mut i: usize = 0;
    while i <= h - n
        invariant
            n >= 1,
            h >= n,
            i <= h - n + 1,
            h == hay@.len(),
            n == needle@.len(),
            forall|j: int|
                0 <= j < i ==> #[trigger] hay@.subrange(j, j + needle@.len() as int) != needle@,
        decreases h - i,
    {
        if matches_at(hay, needle, i) {
            proof {
                assert(hay@.subrange(i as int, i as int + needle@.len()) == needle@);
            }
            return true;
        }
        i = i + 1;
    }
    proof {
        assert forall|j: int| 0 <= j <= hay@.len() - needle@.len() implies #[trigger] hay@.subrange(
            j,
            j + needle@.len(),
        ) != needle@ by {
            assert(hay@.subrange(j, j + needle@.len() as int) != needle@);
        }
    }
    false
}

/// A one-byte encoding (an ASCII byte) is a valid scalar.
proof fn lemma_utf8_w1(s: Seq<u8>)
    requires
        s.len() >= 1,
        s[0] < 0x80,
    ensures
        valid_first_scalar(s),
        length_of_first_scalar(s) == 1,
{
    let b0 = s[0];
    assert(b0 & 0x7F == b0) by (bit_vector)
        requires
            b0 < 0x80,
    ;
}

/// A two-byte encoding with a lead in `[0xC2, 0xDF]` and one continuation
/// byte is a valid scalar: it is in `[0x80, 0x800)`, so neither overlong nor
/// a surrogate.
proof fn lemma_utf8_w2(s: Seq<u8>)
    requires
        s.len() >= 2,
        0xC2 <= s[0] <= 0xDF,
        0x80 <= s[1] <= 0xBF,
    ensures
        valid_first_scalar(s),
        length_of_first_scalar(s) == 2,
{
    let b0 = s[0];
    let b1 = s[1];
    assert(0x80 <= ((((b0 & 0x1F) as u32) << 6) | ((b1 & 0x3F) as u32)) < 0x800) by (bit_vector)
        requires
            0xC2 <= b0 <= 0xDF && 0x80 <= b1 <= 0xBF,
    ;
    assert(codepoint_width_2(b0, b1) == ((((b0 & 0x1F) as u32) << 6) | ((b1 & 0x3F) as u32)));
}

/// A three-byte encoding with valid continuations, excluding the overlong
/// range (`0xE0` leads need a second byte of at least `0xA0`) and the
/// surrogate range (`0xED` leads need a second byte of at most `0x9F`), is a
/// valid scalar.
proof fn lemma_utf8_w3(s: Seq<u8>)
    requires
        s.len() >= 3,
        0xE0 <= s[0] <= 0xEF,
        0x80 <= s[1] <= 0xBF,
        0x80 <= s[2] <= 0xBF,
        s[0] == 0xE0 ==> s[1] >= 0xA0,
        s[0] == 0xED ==> s[1] <= 0x9F,
    ensures
        valid_first_scalar(s),
        length_of_first_scalar(s) == 3,
{
    let b0 = s[0];
    let b1 = s[1];
    let b2 = s[2];
    assert({
        let c = (((b0 & 0x0F) as u32) << 12) | (((b1 & 0x3F) as u32) << 6) | ((b2 & 0x3F) as u32);
        0x800 <= c && !(0xD800 <= c <= 0xDFFF)
    }) by (bit_vector)
        requires
            0xE0 <= b0 <= 0xEF && 0x80 <= b1 <= 0xBF && 0x80 <= b2 <= 0xBF && (b0 == 0xE0 ==> b1
                >= 0xA0) && (b0 == 0xED ==> b1 <= 0x9F),
    ;
    assert(codepoint_width_3(b0, b1, b2) == ((((b0 & 0x0F) as u32) << 12) | (((b1
        & 0x3F) as u32) << 6) | ((b2 & 0x3F) as u32)));
}

/// A four-byte encoding with valid continuations, excluding the overlong
/// range (`0xF0` leads need a second byte of at least `0x90`) and values
/// beyond `0x10FFFF` (the lead is at most `0xF4`, and `0xF4` leads need a
/// second byte of at most `0x8F`), is a valid scalar.
proof fn lemma_utf8_w4(s: Seq<u8>)
    requires
        s.len() >= 4,
        0xF0 <= s[0] <= 0xF4,
        0x80 <= s[1] <= 0xBF,
        0x80 <= s[2] <= 0xBF,
        0x80 <= s[3] <= 0xBF,
        s[0] == 0xF0 ==> s[1] >= 0x90,
        s[0] == 0xF4 ==> s[1] <= 0x8F,
    ensures
        valid_first_scalar(s),
        length_of_first_scalar(s) == 4,
{
    let b0 = s[0];
    let b1 = s[1];
    let b2 = s[2];
    let b3 = s[3];
    assert({
        let c = (((b0 & 0x07) as u32) << 18) | (((b1 & 0x3F) as u32) << 12) | (((b2
            & 0x3F) as u32) << 6) | ((b3 & 0x3F) as u32);
        0x10000 <= c <= 0x10FFFF
    }) by (bit_vector)
        requires
            0xF0 <= b0 <= 0xF4 && 0x80 <= b1 <= 0xBF && 0x80 <= b2 <= 0xBF && 0x80 <= b3 <= 0xBF
                && (b0 == 0xF0 ==> b1 >= 0x90) && (b0 == 0xF4 ==> b1 <= 0x8F),
    ;
    assert(codepoint_width_4(b0, b1, b2, b3) == ((((b0 & 0x07) as u32) << 18) | (((b1
        & 0x3F) as u32) << 12) | (((b2 & 0x3F) as u32) << 6) | ((b3 & 0x3F) as u32)));
}

/// A lead byte of `0xC0` or `0xC1` can only start an overlong two-byte
/// encoding: whatever follows, no valid scalar starts here.
proof fn lemma_utf8_overlong2(s: Seq<u8>)
    requires
        s.len() >= 1,
        s[0] == 0xC0 || s[0] == 0xC1,
    ensures
        !valid_first_scalar(s),
{
    let b0 = s[0];
    if s.len() >= 2 && is_continuation_byte(s[1]) {
        let b1 = s[1];
        assert(((((b0 & 0x1F) as u32) << 6) | ((b1 & 0x3F) as u32)) < 0x80) by (bit_vector)
            requires
                b0 == 0xC0 || b0 == 0xC1,
        ;
        assert(codepoint_width_2(b0, b1) == ((((b0 & 0x1F) as u32) << 6) | ((b1
            & 0x3F) as u32)));
    }
}

/// A lead byte of `0xF5` to `0xF7` can only start an encoding of a value
/// beyond `0x10FFFF`: whatever follows, no valid scalar starts here.
proof fn lemma_utf8_beyond_unicode(s: Seq<u8>)
    requires
        s.len() >= 1,
        0xF5 <= s[0] <= 0xF7,
    ensures
        !valid_first_scalar(s),
{
    let b0 = s[0];
    if s.len() >= 4 && is_continuation_byte(s[1]) && is_continuation_byte(s[2])
        && is_continuation_byte(s[3]) {
        let b1 = s[1];
        let b2 = s[2];
        let b3 = s[3];
        assert(((((b0 & 0x07) as u32) << 18) | (((b1 & 0x3F) as u32) << 12) | (((b2
            & 0x3F) as u32) << 6) | ((b3 & 0x3F) as u32)) > 0x10FFFF) by (bit_vector)
            requires
                0xF5 <= b0 <= 0xF7,
        ;
        assert(codepoint_width_4(b0, b1, b2, b3) == ((((b0 & 0x07) as u32) << 18) | (((b1
            & 0x3F) as u32) << 12) | (((b2 & 0x3F) as u32) << 6) | ((b3 & 0x3F) as u32)));
    }
}

/// A three-byte lead whose second byte falls in the overlong range (`0xE0`
/// lead, second byte under `0xA0`) or the surrogate range (`0xED` lead,
/// second byte over `0x9F`) starts no valid scalar.
proof fn lemma_utf8_w3_reject(s: Seq<u8>)
    requires
        s.len() >= 2,
        0xE0 <= s[0] <= 0xEF,
        is_continuation_byte(s[1]),
        (s[0] == 0xE0 && s[1] < 0xA0) || (s[0] == 0xED && s[1] > 0x9F),
    ensures
        !valid_first_scalar(s),
{
    let b0 = s[0];
    let b1 = s[1];
    if s.len() >= 3 && is_continuation_byte(s[2]) {
        let b2 = s[2];
        assert({
            let c = (((b0 & 0x0F) as u32) << 12) | (((b1 & 0x3F) as u32) << 6) | ((b2
                & 0x3F) as u32);
            ((b0 == 0xE0 && b1 < 0xA0) ==> c < 0x800) && ((b0 == 0xED && b1 > 0x9F) ==> (0xD800
                <= c <= 0xDFFF))
        }) by (bit_vector)
            requires
                0xE0 <= b0 <= 0xEF && 0x80 <= b1 <= 0xBF && 0x80 <= b2 <= 0xBF,
        ;
        assert(codepoint_width_3(b0, b1, b2) == ((((b0 & 0x0F) as u32) << 12) | (((b1
            & 0x3F) as u32) << 6) | ((b2 & 0x3F) as u32)));
    }
}

/// A four-byte lead whose second byte falls in the overlong range (`0xF0`
/// lead, second byte under `0x90`) or beyond `0x10FFFF` (`0xF4` lead, second
/// byte over `0x8F`) starts no valid scalar.
proof fn lemma_utf8_w4_reject(s: Seq<u8>)
    requires
        s.len() >= 2,
        0xF0 <= s[0] <= 0xF4,
        is_continuation_byte(s[1]),
        (s[0] == 0xF0 && s[1] < 0x90) || (s[0] == 0xF4 && s[1] > 0x8F),
    ensures
        !valid_first_scalar(s),
{
    let b0 = s[0];
    let b1 = s[1];
    if s.len() >= 4 && is_continuation_byte(s[2]) && is_continuation_byte(s[3]) {
        let b2 = s[2];
        let b3 = s[3];
        assert({
            let c = (((b0 & 0x07) as u32) << 18) | (((b1 & 0x3F) as u32) << 12) | (((b2
                & 0x3F) as u32) << 6) | ((b3 & 0x3F) as u32);
            ((b0 == 0xF0 && b1 < 0x90) ==> c < 0x10000) && ((b0 == 0xF4 && b1 > 0x8F) ==> c
                > 0x10FFFF)
        }) by (bit_vector)
            requires
                0xF0 <= b0 <= 0xF4 && 0x80 <= b1 <= 0xBF && 0x80 <= b2 <= 0xBF && 0x80 <= b3
                    <= 0xBF,
        ;
        assert(codepoint_width_4(b0, b1, b2, b3) == ((((b0 & 0x07) as u32) << 18) | (((b1
            & 0x3F) as u32) << 12) | (((b2 & 0x3F) as u32) << 6) | ((b3 & 0x3F) as u32)));
    }
}

/// A valid prefix followed by a position where no valid scalar starts makes
/// the whole sequence invalid.
proof fn lemma_invalid_here(bytes: Seq<u8>, i: int)
    requires
        partial_valid_utf8(bytes, i),
        i < bytes.len(),
        !valid_first_scalar(bytes.subrange(i, bytes.len() as int)),
    ensures
        !valid_utf8(bytes),
{
    let suf = bytes.subrange(i, bytes.len() as int);
    assert(!valid_utf8(suf));
    partial_valid_partial_invalid_utf8(bytes, i);
}

/// Checks whether `bytes` form a valid UTF-8 encoding, the same judgment the
/// specification-level `valid_utf8` makes.
pub fn is_valid_utf8(bytes: &[u8]) -> (r: bool)
    ensures
        r == valid_utf8(bytes@),
{
    let len = bytes.len();
    let mut i: usize = 0;
    proof {
        assert(bytes@.subrange(0, 0) =~= Seq::<u8>::empty());
    }
    while i < len
        invariant
            i <= len,
            len == bytes@.len(),
            partial_valid_utf8(bytes@, i as int),
        decreases len - i,
    {
        let ghost suf = bytes@.subrange(i as int, len as int);
        let b0 = bytes[i];
        if b0 < 0x80 {
            proof {
                lemma_utf8_w1(suf);
                partial_valid_utf8_extend(bytes@, i as int);
            }
            i = i + 1;
        } else if b0 < 0xC0 {
            // a continuation byte in leading position
            proof {
                assert(!valid_leading_and_continuation_bytes_first_codepoint(suf));
                lemma_invalid_here(bytes@, i as int);
            }
            return false;
        } else if b0 < 0xC2 {
            proof {
                lemma_utf8_overlong2(suf);
                lemma_invalid_here(bytes@, i as int);
            }
            return false;
        } else if b0 < 0xE0 {
            if len - i < 2 || !is_continuation(bytes[i + 1]) {
                proof {
                    assert(!valid_leading_and_continuation_bytes_first_codepoint(suf));
                    lemma_invalid_here(bytes@, i as int);
                }
                return false;
            }
            proof {
                lemma_utf8_w2(suf);
                partial_valid_utf8_extend(bytes@, i as int);
            }
            i = i + 2;
        } else if b0 < 0xF0 {
            if len - i < 3 || !is_continuation(bytes[i + 1]) || !is_continuation(bytes[i + 2]) {
                proof {
                    assert(!valid_leading_and_continuation_bytes_first_codepoint(suf));
                    lemma_invalid_here(bytes@, i as int);
                }
                return false;
            }
            let b1 = bytes[i + 1];
            if (b0 == 0xE0 && b1 < 0xA0) || (b0 == 0xED && b1 > 0x9F) {
                proof {
                    lemma_utf8_w3_reject(suf);
                    lemma_invalid_here(bytes@, i as int);
                }
                return false;
            }
            proof {
                lemma_utf8_w3(suf);
                partial_valid_utf8_extend(bytes@, i as int);
            }
            i = i + 3;
        } else if b0 < 0xF5 {
            if len - i < 4 || !is_continuation(bytes[i + 1]) || !is_continuation(bytes[i + 2])
                || !is_continuation(bytes[i + 3]) {
                proof {
                    assert(!valid_leading_and_continuation_bytes_first_codepoint(suf));
                    lemma_invalid_here(bytes@, i as int);
                }
                return false;
            }
            let b1 = bytes[i + 1];
            if (b0 == 0xF0 && b1 < 0x90) || (b0 == 0xF4 && b1 > 0x8F) {
                proof {
                    lemma_utf8_w4_reject(suf);
                    lemma_invalid_here(bytes@, i as int);
                }
                return false;
            }
            proof {
                lemma_utf8_w4(suf);
                partial_valid_utf8_extend(bytes@, i as int);
            }
            i = i + 4;
        } else {
            proof {
                if b0 <= 0xF7 {
                    lemma_utf8_beyond_unicode(suf);
                } else {
                    assert(!valid_leading_and_continuation_bytes_first_codepoint(suf));
                }
                lemma_invalid_here(bytes@, i as int);
            }
            return false;
        }
    }
    proof {
        assert(bytes@.subrange(0, len as int) =~= bytes@);
    }
    true
}

/// Whether `b` is a UTF-8 continuation byte, `10xxxxxx`.
fn is_continuation(b: u8) -> (r: bool)
    ensures
        r == is_continuation_byte(b),
{
    0x80 <= b && b <= 0xBF
}

/// Checks whether the clamd response indicates that the scanned content is
/// clean. The response must decode as UTF-8; it is clean exactly when it
/// contains `OK` and does not contain `FOUND`. Both markers are pure ASCII,
/// and in a valid UTF-8 encoding an ASCII byte can only encode that ASCII
/// character, so containment in the bytes and in the decoded text coincide.
/// Any error text from the daemon contains neither marker and therefore
/// classifies as not clean.
pub fn clean(response: &[u8]) -> (r: Result<bool, DecodeError>)
    ensures
        r is Ok <==> valid_utf8(response@),
        r matches Ok(b) ==> b == (contains_seq(response@, ok_marker()) && !contains_seq(
            response@,
            found_marker(),
        )),
{
    if !is_valid_utf8(response) {
        return Err(DecodeError);
    }
    let mut ok_pat: Vec<u8> = Vec::new();
    ok_pat.push('O' as u8);
    ok_pat.push('K' as u8);
    let mut found_pat: Vec<u8> = Vec::new();
    found_pat.push('F' as u8);
    found_pat.push('O' as u8);
    found_pat.push('U' as u8);
    found_pat.push('N' as u8);
    found_pat.push('D' as u8);
    proof {
        assert(ok_pat@ =~= ok_marker());
        assert(found_pat@ =~= found_marker());
    }
    let has_ok = contains_bytes(response, ok_pat.as_slice());
    let has_found = contains_bytes(response, found_pat.as_slice());
    Ok(has_ok && !has_found)
}

} // verus!
