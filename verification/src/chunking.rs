//! The INSTREAM chunked-transfer encoding: input data is split into chunks of
//! at most a configured size, each chunk is prefixed with its 4-byte
//! big-endian length, and the stream is closed by a zero-length marker.

use vstd::prelude::*;

use crate::wire::{be32, Command};

verus! {

/// Default chunk size in bytes, used when the caller supplies none (or zero).
pub const DEFAULT_CHUNK_SIZE: usize = 4096;

/// Largest chunk size the 32-bit length prefix can describe.
pub const MAX_CHUNK_SIZE: usize = 0xFFFF_FFFF;

/// The chunk size actually used for a request: the caller's value if it is
/// neither zero nor absent (zero is treated like absent and replaced by the
/// default), clamped to what a 32-bit length prefix can represent.
pub open spec fn spec_effective_chunk_size(requested: Option<usize>) -> usize {
    match requested {
        Option::None => DEFAULT_CHUNK_SIZE,
        Option::Some(s) => if s == 0 {
            DEFAULT_CHUNK_SIZE
        } else if s > MAX_CHUNK_SIZE {
            MAX_CHUNK_SIZE
        } else {
            s
        },
    }
}

/// Resolves a caller-supplied chunk size request.
pub fn effective_chunk_size(requested: Option<usize>) -> (r: usize)
    ensures
        r == spec_effective_chunk_size(requested),
        1 <= r <= MAX_CHUNK_SIZE,
{
    match requested {
        Option::None => DEFAULT_CHUNK_SIZE,
        Option::Some(s) => if s == 0 {
            DEFAULT_CHUNK_SIZE
        } else if s > MAX_CHUNK_SIZE {
            MAX_CHUNK_SIZE
        } else {
            s
        },
    }
}

/// The framed chunk sequence for `data` with chunk size `c`: every chunk but
/// the last holds exactly `c` bytes, the last holds the remainder, and each
/// chunk is prefixed with its big-endian 32-bit length. Empty input produces
/// no chunks at all.
pub open spec fn chunk_frames(data: Seq<u8>, c: int) -> Seq<u8>
    recommends
        1 <= c <= 0xFFFF_FFFF,
    decreases data.len(),
    when c >= 1
{
    if data.len() == 0 {
        Seq::empty()
    } else if data.len() <= c {
        be32(data.len() as int) + data
    } else {
        be32(c) + data.subrange(0, c) + chunk_frames(data.subrange(c, data.len() as int), c)
    }
}

/// The chunks themselves, as a list of payloads, in order.
pub open spec fn chunk_list(data: Seq<u8>, c: int) -> Seq<Seq<u8>>
    recommends
        1 <= c <= 0xFFFF_FFFF,
    decreases data.len(),
    when c >= 1
{
    if data.len() == 0 {
        Seq::empty()
    } else if data.len() <= c {
        seq![data]
    } else {
        seq![data.subrange(0, c)] + chunk_list(data.subrange(c, data.len() as int), c)
    }
}

/// How many chunks a payload of `l` bytes is split into.
pub open spec fn chunk_count(l: int, c: int) -> int
    recommends
        1 <= c,
    decreases l,
    when c >= 1
{
    if l <= 0 {
        0
    } else if l <= c {
        1
    } else {
        1 + chunk_count(l - c, c)
    }
}

/// The end-of-stream marker: a zero-length chunk prefix.
pub open spec fn terminator() -> Seq<u8> {
    be32(0)
}

/// Everything INSTREAM sends after the command itself: the framed chunks
/// followed by exactly one terminator.
pub open spec fn instream_payload(data: Seq<u8>, c: int) -> Seq<u8> {
    chunk_frames(data, c) + terminator()
}

/// The complete INSTREAM upload for `data`: the `zINSTREAM\0` command, the
/// framed chunks, and the terminator.
pub open spec fn instream_wire(data: Seq<u8>, c: int) -> Seq<u8> {
    Command::Instream.wire() + instream_payload(data, c)
}

/// Frames a single chunk: its 4-byte big-endian length, then its bytes.
/// The caller must keep a chunk within what the length prefix can describe;
/// a zero-length chunk is excluded because its frame would be read back as
/// the end-of-stream marker.
pub fn frame_chunk(data: &[u8]) -> (r: Vec<u8>)
    requires
        1 <= data@.len() <= 0xFFFF_FFFF,
    ensures
        r@ == be32(data@.len() as int) + data@,
{
    let mut r = write_be32_of_len(data.len());
    push_bytes(&mut r, data);
    r
}

/// Splits `data` into chunks of at most `chunk_size` bytes and frames each
/// one. This is the whole chunk stream for `data`, without the terminator.
pub fn frame_buffer(data: &[u8], chunk_size: usize) -> (r: Vec<u8>)
    requires
        1 <= chunk_size <= 0xFFFF_FFFF,
    ensures
        r@ == chunk_frames(data@, chunk_size as int),
{
    let ghost c = chunk_size as int;
    let len = data.len();
    let mut r: Vec<u8> = Vec::new();
    let mut i: usize = 0;
    proof {
        assert(data@.subrange(0, len as int) =~= data@);
        assert(r@ + chunk_frames(data@, c) =~= chunk_frames(data@, c));
    }
    while i < len
        invariant
            i <= len,
            len == data@.len(),
            1 <= c <= 0xFFFF_FFFF,
            c == chunk_size as int,
            r@ + chunk_frames(data@.subrange(i as int, len as int), c) == chunk_frames(data@, c),
        decreases len - i,
    {
        let k = if len - i < chunk_size {
            len - i
        } else {
            chunk_size
        };
        let ghost rest = data@.subrange(i as int, len as int);
        let mut frame = write_be32_of_len(k);
        push_bytes(&mut frame, &data[i..i + k]);
        proof {
            assert(rest.subrange(0, k as int) =~= data@.subrange(i as int, (i + k) as int));
            if rest.len() > c {
                assert(rest.subrange(c, rest.len() as int) =~= data@.subrange(
                    (i + k) as int,
                    len as int,
                ));
            } else {
                assert(rest =~= data@.subrange(i as int, (i + k) as int));
                assert(data@.subrange((i + k) as int, len as int) =~= Seq::<u8>::empty());
            }
            assert(frame@ + chunk_frames(data@.subrange((i + k) as int, len as int), c)
                == chunk_frames(rest, c));
        }
        push_bytes(&mut r, frame.as_slice());
        i = i + k;
    }
    proof {
        assert(data@.subrange(len as int, len as int) =~= Seq::<u8>::empty());
        assert(r@ =~= chunk_frames(data@, c));
    }
    r
}

/// Builds the end-of-stream marker.
pub fn terminator_bytes() -> (r: Vec<u8>)
    ensures
        r@ == terminator(),
{
    crate::wire::write_be32(0)
}

/// Encodes a length that is known to fit the 32-bit prefix.
fn write_be32_of_len(n: usize) -> (r: Vec<u8>)
    requires
        n <= 0xFFFF_FFFF,
    ensures
        r@ == be32(n as int),
{
    crate::wire::write_be32(n as u32)
}

/// Appends all of `src` to `dst`.
pub fn push_bytes(dst: &mut Vec<u8>, src: &[u8])
    ensures
        final(dst)@ == old(dst)@ + src@,
{
    dst.extend_from_slice(src);
    proof {
        assert(dst@ =~= old(dst)@ + src@);
    }
}

/// The frame stream obtained by prefixing each chunk in `chunks` with its
/// big-endian 32-bit length.
pub open spec fn framed(chunks: Seq<Seq<u8>>) -> Seq<u8>
    decreases chunks.len(),
{
    if chunks.len() == 0 {
        Seq::empty()
    } else {
        be32(chunks.first().len() as int) + chunks.first() + framed(chunks.drop_first())
    }
}

/// The frame stream for `data` is exactly its chunk list, each chunk behind
/// its length prefix, in order.
pub proof fn lemma_chunk_frames_are_framed_chunk_list(data: Seq<u8>, c: int)
    requires
        1 <= c,
    ensures
        chunk_frames(data, c) == framed(chunk_list(data, c)),
    decreases data.len(),
{
    if data.len() == 0 {
    } else if data.len() <= c {
        let l = chunk_list(data, c);
        assert(l.first() == data);
        assert(l.drop_first() =~~= Seq::<Seq<u8>>::empty());
        assert(framed(l.drop_first()) == Seq::<u8>::empty());
        assert(chunk_frames(data, c) =~= framed(l));
    } else {
        let rest = data.subrange(c, data.len() as int);
        lemma_chunk_frames_are_framed_chunk_list(rest, c);
        let l = chunk_list(data, c);
        assert(l.drop_first() =~~= chunk_list(rest, c));
        assert(chunk_frames(data, c) =~= framed(l));
    }
}

/// Concatenating the chunks of `data` back together yields `data`: the
/// splitting step of the encoder loses nothing and invents nothing.
pub proof fn lemma_chunk_list_flatten(data: Seq<u8>, c: int)
    requires
        1 <= c,
    ensures
        chunk_list(data, c).flatten() == data,
    decreases data.len(),
{
    if data.len() == 0 {
    } else if data.len() <= c {
        chunk_list(data, c).lemma_flatten_one_element();
        assert(chunk_list(data, c).flatten() =~= data);
    } else {
        let rest = data.subrange(c, data.len() as int);
        lemma_chunk_list_flatten(rest, c);
        let l = chunk_list(data, c);
        assert(l.drop_first() =~~= chunk_list(rest, c));
        assert(l.flatten() =~= data);
    }
}

/// The chunk count `n` of a payload of `l > 0` bytes brackets `l`:
/// `(n - 1) * c < l <= n * c`.
pub proof fn lemma_chunk_count_bounds(l: int, c: int)
    requires
        0 < l,
        1 <= c,
    ensures
        (chunk_count(l, c) - 1) * c < l <= chunk_count(l, c) * c,
    decreases l,
{
    if l <= c {
        assert(0 * c == 0 && 1 * c == c) by (nonlinear_arith);
    } else {
        lemma_chunk_count_bounds(l - c, c);
        let m = chunk_count(l - c, c);
        assert((m - 1) * c + c == m * c && m * c + c == (m + 1) * c) by (nonlinear_arith);
    }
}

/// There are exactly `ceil(l / c)` chunks.
pub proof fn lemma_chunk_count_is_ceil(l: int, c: int)
    requires
        0 <= l,
        1 <= c,
    ensures
        chunk_count(l, c) == (l + c - 1) / c,
{
    if l == 0 {
        assert((c - 1) / c == 0) by (nonlinear_arith)
            requires
                1 <= c,
        ;
    } else {
        let n = chunk_count(l, c);
        lemma_chunk_count_bounds(l, c);
        let r = l + c - 1 - n * c;
        assert((n - 1) * c + c == n * c) by (nonlinear_arith);
        assert(0 <= r < c);
        vstd::arithmetic::div_mod::lemma_fundamental_div_mod_converse(l + c - 1, c, n, r);
    }
}

/// The number of chunks in the chunk list is `chunk_count`.
pub proof fn lemma_chunk_list_count(data: Seq<u8>, c: int)
    requires
        1 <= c,
    ensures
        chunk_list(data, c).len() == chunk_count(data.len() as int, c),
    decreases data.len(),
{
    if data.len() == 0 {
    } else if data.len() <= c {
    } else {
        lemma_chunk_list_count(data.subrange(c, data.len() as int), c);
    }
}

/// Where chunk `i` ends in `data`: after `(i + 1) * c` bytes, or at the end
/// of the input for the final chunk.
pub open spec fn chunk_end(l: int, c: int, i: int) -> int {
    if (i + 1) * c <= l {
        (i + 1) * c
    } else {
        l
    }
}

/// Chunk `i` holds exactly the bytes of `data` from position `i * c` to
/// `chunk_end`: chunks partition the input in order.
pub proof fn lemma_chunk_list_index(data: Seq<u8>, c: int, i: int)
    requires
        1 <= c,
        0 <= i < chunk_list(data, c).len(),
    ensures
        chunk_list(data, c)[i] == data.subrange(i * c, chunk_end(data.len() as int, c, i)),
    decreases data.len(),
{
    let l = data.len() as int;
    assert(0 * c == 0 && 1 * c == c) by (nonlinear_arith);
    if l <= c {
        assert(i == 0);
        assert(chunk_end(l, c, 0) == l);
        assert(data.subrange(0, l) =~= data);
    } else if i == 0 {
        assert(chunk_end(l, c, 0) == c);
    } else {
        let rest = data.subrange(c, l);
        lemma_chunk_list_index(rest, c, i - 1);
        lemma_chunk_list_count(rest, c);
        lemma_chunk_count_bounds(l - c, c);
        let m = chunk_count(l - c, c);
        assert(i * c == (i - 1) * c + c && (i + 1) * c == i * c + c) by (nonlinear_arith);
        assert((i - 1) * c <= (m - 1) * c) by (nonlinear_arith)
            requires
                i - 1 <= m - 1 && c >= 1,
        ;
        assert(0 <= (i - 1) * c) by (nonlinear_arith)
            requires
                i >= 1 && c >= 1,
        ;
        let e = chunk_end(l - c, c, i - 1);
        assert((i - 1) * c < l - c && (i - 1) * c <= e <= l - c);
        assert(chunk_end(l, c, i) == e + c);
        assert(rest.subrange((i - 1) * c, e) =~= data.subrange(i * c, e + c));
    }
}

/// The chunk layout law. For every chunk size `c` in `[1, 2^32 - 1]` and
/// every input, the INSTREAM payload consists of `ceil(L / c)` chunks, each
/// behind its own length prefix, followed by exactly one terminator; every
/// chunk except the last holds exactly `c` bytes; the last holds `L mod c`
/// bytes, or `c` when `L` is a positive multiple of `c`; and the chunks
/// concatenate back to the input.
pub proof fn lemma_chunk_layout(data: Seq<u8>, c: int)
    requires
        1 <= c <= 0xFFFF_FFFF,
    ensures
        instream_payload(data, c) == framed(chunk_list(data, c)) + terminator(),
        chunk_list(data, c).len() == (data.len() as int + c - 1) / c,
        forall|i: int|
            0 <= i < chunk_list(data, c).len() - 1 ==> (#[trigger] chunk_list(data, c)[i]).len()
                == c,
        data.len() as int % c != 0 ==> chunk_list(data, c).last().len() == data.len() as int % c,
        data.len() > 0 && data.len() as int % c == 0 ==> chunk_list(data, c).last().len() == c,
        chunk_list(data, c).flatten() == data,
    decreases data.len(),
{
    let l = data.len() as int;
    let chunks = chunk_list(data, c);
    lemma_chunk_frames_are_framed_chunk_list(data, c);
    lemma_chunk_list_flatten(data, c);
    lemma_chunk_list_count(data, c);
    lemma_chunk_count_is_ceil(l, c);
    let n = chunks.len() as int;
    assert forall|i: int| 0 <= i < n - 1 implies (#[trigger] chunks[i]).len() == c by {
        lemma_chunk_list_index(data, c, i);
        assert((i + 1) * c == i * c + c) by (nonlinear_arith);
        assert((i + 1) * c <= (n - 1) * c) by (nonlinear_arith)
            requires
                i + 1 <= n - 1 && c >= 1,
        ;
        lemma_chunk_count_bounds(l, c);
    }
    if l == 0 {
        assert(l % c == 0) by (nonlinear_arith)
            requires
                c >= 1 && l == 0,
        ;
    }
    if l > 0 {
        lemma_chunk_count_bounds(l, c);
        assert(n >= 1) by (nonlinear_arith)
            requires
                (n - 1) * c < l && l <= n * c && c >= 1 && l > 0,
        ;
        lemma_chunk_list_index(data, c, n - 1);
        let s = l - (n - 1) * c;
        assert(chunk_end(l, c, n - 1) == l);
        assert(chunks.last() == chunks[n - 1]);
        assert(chunks.last().len() == s);
        lemma_last_chunk_size(l, c, n);
    }
}

/// The size of the final chunk, `l - (n - 1) * c`, is `l mod c`, except that
/// a positive multiple of `c` ends in a full chunk.
proof fn lemma_last_chunk_size(l: int, c: int, n: int)
    requires
        1 <= c,
        0 < l,
        (n - 1) * c < l <= n * c,
    ensures
        l % c != 0 ==> l - (n - 1) * c == l % c,
        l % c == 0 ==> l - (n - 1) * c == c,
{
    let s = l - (n - 1) * c;
    assert(n * c == (n - 1) * c + c) by (nonlinear_arith);
    assert(0 < s <= c);
    if s < c {
        vstd::arithmetic::div_mod::lemma_fundamental_div_mod_converse(l, c, n - 1, s);
    } else {
        vstd::arithmetic::div_mod::lemma_fundamental_div_mod_converse(l, c, n, 0);
    }
}

/// Empty input produces no data chunks and exactly one terminator: the
/// payload is the terminator alone.
pub proof fn lemma_instream_empty(c: int)
    requires
        1 <= c <= 0xFFFF_FFFF,
    ensures
        instream_payload(Seq::<u8>::empty(), c) == terminator(),
        chunk_count(0, c) == 0,
{
    assert(instream_payload(Seq::<u8>::empty(), c) =~= terminator());
}

/// A requested chunk size of zero is treated exactly like omitting the
/// request: both resolve to the default.
pub proof fn lemma_zero_chunk_size_is_default()
    ensures
        spec_effective_chunk_size(Some(0usize)) == spec_effective_chunk_size(None::<usize>),
        spec_effective_chunk_size(None::<usize>) == DEFAULT_CHUNK_SIZE,
{
}

} // verus!
