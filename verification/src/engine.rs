//! The protocol engine: one verified implementation of command framing and
//! the INSTREAM upload, generic over any [`Channel`]. Blocking and
//! cooperative transports differ only in where they suspend; the bytes they
//! must move are fixed here.

use vstd::prelude::*;

use crate::channel::Channel;
use crate::chunking::{
    chunk_frames, effective_chunk_size, instream_wire, push_bytes, spec_effective_chunk_size,
    terminator_bytes,
};
use crate::wire::Command;

verus! {

/// Writes the full command buffer, flushes, then reads the channel to
/// end-of-stream. The hint only pre-sizes the reply buffer. On success the
/// channel carries exactly the command, and the reply is returned raw.
pub fn send_command<RW: Channel>(
    stream: &mut RW,
    command: &[u8],
    expected_response_length: Option<usize>,
) -> (r: Result<Vec<u8>, RW::Error>)
    ensures
        r matches Ok(resp) ==> final(stream).sent() == old(stream).sent() + command@ && resp@
            == old(stream).reply() && final(stream).reply() == old(stream).reply(),
{
    match stream.write_all(command) {
        Ok(_) => {},
        Err(e) => {
            return Err(e);
        },
    }
    match stream.flush() {
        Ok(_) => {},
        Err(e) => {
            return Err(e);
        },
    }
    stream.read_to_end(expected_response_length)
}

/// The INSTREAM upload: writes the command, splits `input` into chunks of
/// the effective chunk size, writes each behind its 4-byte big-endian length
/// prefix, closes the stream with the zero-length terminator, flushes, and
/// reads the reply. On success the channel carries exactly
/// [`instream_wire`]`(input, effective chunk size)`.
pub fn scan<RW: Channel>(input: &[u8], chunk_size: Option<usize>, stream: &mut RW) -> (r: Result<
    Vec<u8>,
    RW::Error,
>)
    ensures
        r matches Ok(resp) ==> final(stream).sent() == old(stream).sent() + instream_wire(
            input@,
            spec_effective_chunk_size(chunk_size) as int,
        ) && resp@ == old(stream).reply() && final(stream).reply() == old(stream).reply(),
{
    let cmd = Command::Instream.wire_bytes();
    match stream.write_all(cmd.as_slice()) {
        Ok(_) => {},
        Err(e) => {
            return Err(e);
        },
    }
    let chunk_size = effective_chunk_size(chunk_size);
    let ghost c = chunk_size as int;
    let ghost base = old(stream).sent() + Command::Instream.wire();
    let len = input.len();
    let mut i: usize = 0;
    proof {
        assert(input@.subrange(0, len as int) =~= input@);
        assert(base + chunk_frames(input@, c) =~= stream.sent() + chunk_frames(input@, c));
    }
    while i < len
        invariant
            i <= len,
            len == input@.len(),
            1 <= c <= 0xFFFF_FFFF,
            c == chunk_size as int,
            stream.sent() + chunk_frames(input@.subrange(i as int, len as int), c) == base
                + chunk_frames(input@, c),
            stream.reply() == old(stream).reply(),
        decreases len - i,
    {
        let k = if len - i < chunk_size {
            len - i
        } else {
            chunk_size
        };
        let ghost rest = input@.subrange(i as int, len as int);
        let mut frame = crate::wire::write_be32(k as u32);
        push_bytes(&mut frame, &input[i..i + k]);
        proof {
            assert(rest.subrange(0, k as int) =~= input@.subrange(i as int, (i + k) as int));
            if rest.len() > c {
                assert(rest.subrange(c, rest.len() as int) =~= input@.subrange(
                    (i + k) as int,
                    len as int,
                ));
            } else {
                assert(rest =~= input@.subrange(i as int, (i + k) as int));
                assert(input@.subrange((i + k) as int, len as int) =~= Seq::<u8>::empty());
            }
            assert(frame@ + chunk_frames(input@.subrange((i + k) as int, len as int), c)
                == chunk_frames(rest, c));
        }
        match stream.write_all(frame.as_slice()) {
            Ok(_) => {},
            Err(e) => {
                return Err(e);
            },
        }
        i = i + k;
    }
    proof {
        assert(input@.subrange(len as int, len as int) =~= Seq::<u8>::empty());
        assert(stream.sent() =~= base + chunk_frames(input@, c));
    }
    let term = terminator_bytes();
    match stream.write_all(term.as_slice()) {
        Ok(_) => {},
        Err(e) => {
            return Err(e);
        },
    }
    match stream.flush() {
        Ok(_) => {},
        Err(e) => {
            return Err(e);
        },
    }
    proof {
        assert(stream.sent() =~= old(stream).sent() + instream_wire(input@, c));
    }
    stream.read_to_end(None)
}

/// Sends the PING command; an available daemon replies `PONG\0`.
pub fn ping<RW: Channel>(stream: &mut RW) -> (r: Result<Vec<u8>, RW::Error>)
    ensures
        r matches Ok(resp) ==> final(stream).sent() == old(stream).sent() + Command::Ping.wire()
            && resp@ == old(stream).reply() && final(stream).reply() == old(stream).reply(),
{
    let cmd = Command::Ping.wire_bytes();
    send_command(stream, cmd.as_slice(), Command::Ping.response_hint())
}

/// Sends the VERSION command; the daemon replies with its version text.
pub fn get_version<RW: Channel>(stream: &mut RW) -> (r: Result<Vec<u8>, RW::Error>)
    ensures
        r matches Ok(resp) ==> final(stream).sent() == old(stream).sent()
            + Command::Version.wire() && resp@ == old(stream).reply() && final(stream).reply()
            == old(stream).reply(),
{
    let cmd = Command::Version.wire_bytes();
    send_command(stream, cmd.as_slice(), Command::Version.response_hint())
}

/// Sends the RELOAD command; the daemon replies `RELOADING\0`.
pub fn reload<RW: Channel>(stream: &mut RW) -> (r: Result<Vec<u8>, RW::Error>)
    ensures
        r matches Ok(resp) ==> final(stream).sent() == old(stream).sent() + Command::Reload.wire()
            && resp@ == old(stream).reply() && final(stream).reply() == old(stream).reply(),
{
    let cmd = Command::Reload.wire_bytes();
    send_command(stream, cmd.as_slice(), Command::Reload.response_hint())
}

/// Sends the SHUTDOWN command; the daemon exits and the reply is empty.
pub fn shutdown<RW: Channel>(stream: &mut RW) -> (r: Result<Vec<u8>, RW::Error>)
    ensures
        r matches Ok(resp) ==> final(stream).sent() == old(stream).sent()
            + Command::Shutdown.wire() && resp@ == old(stream).reply() && final(stream).reply()
            == old(stream).reply(),
{
    let cmd = Command::Shutdown.wire_bytes();
    send_command(stream, cmd.as_slice(), Command::Shutdown.response_hint())
}

} // verus!
