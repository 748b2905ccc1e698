//! Decoding an INSTREAM chunk stream back into the bytes it carries. The
//! daemon side of the protocol reads frames this way; here it closes the
//! round trip: encoding then decoding recovers the input exactly.

use vstd::prelude::*;

use crate::chunking::{chunk_frames, instream_payload, push_bytes};
use crate::wire::{be32, be32_value, lemma_be32_value};

verus! {

/// What a well-formed chunk stream decodes to: the concatenated chunk
/// payloads of every frame before the zero-length terminator, which must be
/// the last frame. Anything else - a truncated frame, a missing terminator,
/// trailing bytes - decodes to nothing.
pub open spec fn spec_decode_chunks(w: Seq<u8>) -> Option<Seq<u8>>
    decreases w.len(),
{
    if w.len() < 4 {
        Option::None
    } else {
        let n = be32_value(w.subrange(0, 4));
        if n == 0 {
            if w.len() == 4 {
                Option::Some(Seq::empty())
            } else {
                Option::None
            }
        } else if w.len() < 4 + n {
            Option::None
        } else {
            match spec_decode_chunks(w.subrange(4 + n, w.len() as int)) {
                Option::None => Option::None,
                Option::Some(rest) => Option::Some(w.subrange(4, 4 + n) + rest),
            }
        }
    }
}

/// Reads the big-endian 32-bit frame length at position `i`.
fn read_be32(w: &[u8], i: usize) -> (n: u32)
    requires
        i + 4 <= w@.len(),
    ensures
        n as int == be32_value(w@.subrange(i as int, i as int + 4)),
{
    (w[i] as u32) * 0x1000000 + (w[i + 1] as u32) * 0x10000 + (w[i + 2] as u32) * 0x100 + (w[i
        + 3] as u32)
}

/// Parses a chunk stream, returning the carried bytes, or `None` when the
/// stream is not a well-formed sequence of frames closed by one terminator.
pub fn parse_chunk_stream(w: &[u8]) -> (r: Option<Vec<u8>>)
    ensures
        match r {
            Option::Some(v) => spec_decode_chunks(w@) == Option::Some(v@),
            Option::None => spec_decode_chunks(w@) is None,
        },
{
    let len = w.len();
    let mut acc: Vec<u8> = Vec::new();
    let mut i: usize = 0;
    proof {
        assert(w@.subrange(0, len as int) =~= w@);
    }
    loop
        invariant
            i <= len,
            len == w@.len(),
            spec_decode_chunks(w@) == match spec_decode_chunks(w@.subrange(i as int, len as int)) {
                Option::None => Option::None::<Seq<u8>>,
                Option::Some(s) => Option::Some(acc@ + s),
            },
        decreases len - i,
    {
        let ghost rest = w@.subrange(i as int, len as int);
        if len - i < 4 {
            return None;
        }
        let n32 = read_be32(w, i);
        proof {
            assert(rest.subrange(0, 4) =~= w@.subrange(i as int, i as int + 4));
        }
        let n = n32 as usize;
        if n == 0 {
            if len - i == 4 {
                proof {
                    assert(acc@ + Seq::<u8>::empty() =~= acc@);
                }
                return Some(acc);
            } else {
                return None;
            }
        }
        if len - i - 4 < n {
            return None;
        }
        let ghost acc0 = acc@;
        push_bytes(&mut acc, &w[i + 4..i + 4 + n]);
        proof {
            assert(rest.subrange(4, 4 + n as int) =~= w@.subrange(
                i as int + 4,
                i as int + 4 + n as int,
            ));
            assert(rest.subrange(4 + n as int, rest.len() as int) =~= w@.subrange(
                (i + 4 + n) as int,
                len as int,
            ));
        }
        i = i + 4 + n;
        proof {
            if spec_decode_chunks(w@.subrange(i as int, len as int)) is Some {
                let s = spec_decode_chunks(w@.subrange(i as int, len as int))->Some_0;
                assert(acc0 + (rest.subrange(4, 4 + n as int) + s) =~= acc@ + s);
            }
        }
    }
}

/// The terminator alone decodes to the empty payload.
proof fn lemma_decode_terminator()
    ensures
        spec_decode_chunks(be32(0)) == Option::Some(Seq::<u8>::empty()),
{
    lemma_be32_value(0);
    assert(be32(0).subrange(0, 4) =~= be32(0));
}

/// Decoding one well-formed frame yields its payload and continues with the
/// bytes after it.
proof fn lemma_decode_step(payload: Seq<u8>, tail: Seq<u8>)
    requires
        1 <= payload.len() <= 0xFFFF_FFFF,
    ensures
        spec_decode_chunks(be32(payload.len() as int) + payload + tail) == match spec_decode_chunks(
            tail,
        ) {
            Option::None => Option::None::<Seq<u8>>,
            Option::Some(r) => Option::Some(payload + r),
        },
{
    let n = payload.len() as int;
    let w = be32(n) + payload + tail;
    lemma_be32_value(n);
    assert(w.subrange(0, 4) =~= be32(n));
    assert(be32_value(w.subrange(0, 4)) == n);
    assert(w.len() == 4 + n + tail.len());
    assert(w.subrange(4, 4 + n) =~= payload);
    assert(w.subrange(4 + n, w.len() as int) =~= tail);
}

/// The round-trip law. Framing any input and closing the stream with the
/// terminator, then decoding the frames, recovers the input exactly, for
/// every chunk size the length prefix can describe.
pub proof fn lemma_round_trip(data: Seq<u8>, c: int)
    requires
        1 <= c <= 0xFFFF_FFFF,
    ensures
        spec_decode_chunks(instream_payload(data, c)) == Option::Some(data),
    decreases data.len(),
{
    let w = instream_payload(data, c);
    let l = data.len() as int;
    if l == 0 {
        assert(w =~= be32(0));
        lemma_decode_terminator();
        assert(Seq::<u8>::empty() =~= data);
    } else {
        let k: int = if l <= c {
            l
        } else {
            c
        };
        let first = data.subrange(0, k);
        let rest = data.subrange(k, l);
        lemma_round_trip(rest, c);
        if l <= c {
            assert(rest =~= Seq::<u8>::empty());
            assert(chunk_frames(rest, c) =~= Seq::<u8>::empty());
            assert(first =~= data);
        }
        assert(w =~= be32(k) + first + instream_payload(rest, c));
        lemma_decode_step(first, instream_payload(rest, c));
        assert(first + rest =~= data);
    }
}

} // verus!
