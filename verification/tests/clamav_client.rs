use clamav_client::channel::MemoryChannel;
use clamav_client::chunking::{effective_chunk_size, frame_buffer, frame_chunk, terminator_bytes};
use clamav_client::classify::{clean, contains_bytes, is_valid_utf8, DecodeError};
use clamav_client::decode::parse_chunk_stream;
use clamav_client::engine::{get_version, ping, reload, scan, send_command, shutdown};
use clamav_client::transport::{Endpoint, Socket, Tcp, TransportProtocol};
use clamav_client::wire::{pong_bytes, reloading_bytes, write_be32, Command};

const EICAR: &[u8] = b"X5O!P%@AP[4\\PZX54(P^)7CC)7}$EICAR-STANDARD-ANTIVIRUS-TEST-FILE!$H+H*";

const EICAR_FOUND_RESPONSE: &[u8] = b"stream: Eicar-Signature FOUND\0";

const OK_RESPONSE: &[u8] = b"stream: OK\0";

fn instream_wire_of(chunks: &[&[u8]]) -> Vec<u8> {
    let mut wire = b"zINSTREAM\0".to_vec();
    for chunk in chunks {
        wire.extend_from_slice(&(chunk.len() as u32).to_be_bytes());
        wire.extend_from_slice(chunk);
    }
    wire.extend_from_slice(&[0, 0, 0, 0]);
    wire
}

#[test]
fn ping_scenario_pong() {
    let mut channel = MemoryChannel::new(b"PONG\0".to_vec());
    let response = ping(&mut channel).expect("ping against a scripted peer cannot fail");
    assert_eq!(response, b"PONG\0");
    assert_eq!(response, pong_bytes());
    assert_eq!(channel.written, b"zPING\0");
}

#[test]
fn scan_eicar_scenario_found() {
    assert_eq!(EICAR.len(), 68);
    let mut channel = MemoryChannel::new(EICAR_FOUND_RESPONSE.to_vec());
    let response = scan(EICAR, None, &mut channel).expect("scan against a scripted peer");
    assert_eq!(response, EICAR_FOUND_RESPONSE);
    assert_eq!(clean(&response), Ok(false));
    assert_eq!(channel.written, instream_wire_of(&[EICAR]));
}

#[test]
fn scan_clean_scenario_ok() {
    let mut channel = MemoryChannel::new(OK_RESPONSE.to_vec());
    let response = scan(b"clean data", None, &mut channel).expect("scan against a scripted peer");
    assert_eq!(clean(&response), Ok(true));
}

#[test]
fn clean_substring_rules() {
    assert_eq!(clean(b"OK"), Ok(true));
    assert_eq!(clean(b"stream: OK\0"), Ok(true));
    assert_eq!(clean(b"FOUND"), Ok(false));
    assert_eq!(clean(b"stream: Eicar-Signature FOUND\0"), Ok(false));
    assert_eq!(clean(b"OK but also FOUND"), Ok(false));
    assert_eq!(clean(b"INSTREAM size limit exceeded. ERROR\0"), Ok(false));
    assert_eq!(clean(b""), Ok(false));
}

#[test]
fn clean_rejects_invalid_utf8() {
    assert_eq!(clean(&[0xFF]), Err(DecodeError));
    assert_eq!(clean(&[b'O', b'K', 0x80]), Err(DecodeError));
    assert_eq!(clean(&[0xC0, 0x80]), Err(DecodeError));
}

#[test]
fn utf8_validator_judgments() {
    assert!(is_valid_utf8(b""));
    assert!(is_valid_utf8(b"plain ascii"));
    assert!(is_valid_utf8("héllo wörld".as_bytes()));
    assert!(is_valid_utf8("\u{0800}\u{FFFD}\u{10FFFF}".as_bytes()));
    // continuation byte in leading position
    assert!(!is_valid_utf8(&[0x80]));
    // overlong two-byte encoding of an ASCII value
    assert!(!is_valid_utf8(&[0xC1, 0xBF]));
    // truncated two-byte encoding
    assert!(!is_valid_utf8(&[0xC3]));
    // overlong three-byte encoding
    assert!(!is_valid_utf8(&[0xE0, 0x9F, 0xBF]));
    // encoded surrogate
    assert!(!is_valid_utf8(&[0xED, 0xA0, 0x80]));
    // overlong four-byte encoding
    assert!(!is_valid_utf8(&[0xF0, 0x8F, 0xBF, 0xBF]));
    // beyond U+10FFFF
    assert!(!is_valid_utf8(&[0xF4, 0x90, 0x80, 0x80]));
    assert!(!is_valid_utf8(&[0xF5, 0x80, 0x80, 0x80]));
    assert!(!is_valid_utf8(&[0xF8]));
}

#[test]
fn substring_search() {
    assert!(contains_bytes(b"stream: OK\0", b"OK"));
    assert!(!contains_bytes(b"stream: OK\0", b"FOUND"));
    assert!(contains_bytes(b"abc", b""));
    assert!(!contains_bytes(b"", b"a"));
    assert!(contains_bytes(b"aab", b"ab"));
}

#[test]
fn scan_chunk_layout_exact() {
    let mut channel = MemoryChannel::new(OK_RESPONSE.to_vec());
    scan(&[1, 2, 3, 4, 5], Some(2), &mut channel).expect("scan against a scripted peer");
    assert_eq!(
        channel.written,
        instream_wire_of(&[&[1, 2], &[3, 4], &[5]])
    );
}

#[test]
fn scan_chunk_layout_exact_multiple() {
    // a length that is a positive multiple of the chunk size ends in a full
    // chunk, with no empty chunk before the terminator
    let mut channel = MemoryChannel::new(OK_RESPONSE.to_vec());
    scan(&[9, 8, 7, 6], Some(2), &mut channel).expect("scan against a scripted peer");
    assert_eq!(channel.written, instream_wire_of(&[&[9, 8], &[7, 6]]));
}

#[test]
fn scan_empty_input_writes_only_terminator() {
    let mut channel = MemoryChannel::new(OK_RESPONSE.to_vec());
    scan(&[], Some(7), &mut channel).expect("scan against a scripted peer");
    assert_eq!(channel.written, instream_wire_of(&[]));
    assert_eq!(channel.written, b"zINSTREAM\0\0\0\0\0");
}

#[test]
fn chunk_size_zero_equals_default() {
    assert_eq!(effective_chunk_size(Some(0)), effective_chunk_size(None));
    assert_eq!(effective_chunk_size(None), 4096);
    let input: Vec<u8> = (0..9000u32).map(|i| (i % 251) as u8).collect();
    let mut with_zero = MemoryChannel::new(OK_RESPONSE.to_vec());
    let mut with_none = MemoryChannel::new(OK_RESPONSE.to_vec());
    scan(&input, Some(0), &mut with_zero).expect("scan against a scripted peer");
    scan(&input, None, &mut with_none).expect("scan against a scripted peer");
    assert_eq!(with_zero.written, with_none.written);
}

#[test]
fn chunk_size_clamped_to_prefix_range() {
    assert_eq!(effective_chunk_size(Some(usize::MAX)), 0xFFFF_FFFF);
    assert_eq!(effective_chunk_size(Some(17)), 17);
}

#[test]
fn round_trip_boundary_lengths() {
    let chunk_size = 5usize;
    for len in [0usize, 1, chunk_size - 1, chunk_size, chunk_size + 1] {
        let input: Vec<u8> = (0..len).map(|i| (i * 7 + 1) as u8).collect();
        let mut wire = frame_buffer(&input, chunk_size);
        wire.extend_from_slice(&terminator_bytes());
        let decoded = parse_chunk_stream(&wire);
        assert_eq!(decoded, Some(input.clone()), "length {len}");
    }
}

#[test]
fn round_trip_through_scan() {
    let input: Vec<u8> = (0..300u32).map(|i| (i % 256) as u8).collect();
    let mut channel = MemoryChannel::new(OK_RESPONSE.to_vec());
    scan(&input, Some(64), &mut channel).expect("scan against a scripted peer");
    let payload = &channel.written[b"zINSTREAM\0".len()..];
    assert_eq!(parse_chunk_stream(payload), Some(input));
}

#[test]
fn parser_rejects_malformed_streams() {
    // too short to hold a length prefix
    assert_eq!(parse_chunk_stream(&[0, 0, 0]), None);
    // frame shorter than its prefix claims
    assert_eq!(parse_chunk_stream(&[0, 0, 0, 5, 1, 2]), None);
    // no terminator
    assert_eq!(parse_chunk_stream(&[0, 0, 0, 1, 42]), None);
    // bytes after the terminator
    assert_eq!(parse_chunk_stream(&[0, 0, 0, 0, 9]), None);
    // well-formed: one frame, then the terminator
    assert_eq!(
        parse_chunk_stream(&[0, 0, 0, 2, 10, 20, 0, 0, 0, 0]),
        Some(vec![10, 20])
    );
}

#[test]
fn be32_exact_values() {
    assert_eq!(write_be32(0), vec![0, 0, 0, 0]);
    assert_eq!(write_be32(1), vec![0, 0, 0, 1]);
    assert_eq!(write_be32(0x0102_0304), vec![1, 2, 3, 4]);
    assert_eq!(write_be32(0xFFFF_FFFF), vec![255, 255, 255, 255]);
    assert_eq!(write_be32(4096), vec![0, 0, 16, 0]);
}

#[test]
fn frame_chunk_prefixes_length() {
    assert_eq!(frame_chunk(&[7, 8, 9]), vec![0, 0, 0, 3, 7, 8, 9]);
}

#[test]
fn frame_buffer_subdivides() {
    assert_eq!(
        frame_buffer(&[1, 2, 3], 2),
        vec![0, 0, 0, 2, 1, 2, 0, 0, 0, 1, 3]
    );
    assert_eq!(frame_buffer(&[], 2), Vec::<u8>::new());
}

#[test]
fn command_wire_encodings() {
    assert_eq!(Command::Ping.wire_bytes(), b"zPING\0");
    assert_eq!(Command::Version.wire_bytes(), b"zVERSION\0");
    assert_eq!(Command::Reload.wire_bytes(), b"zRELOAD\0");
    assert_eq!(Command::Shutdown.wire_bytes(), b"zSHUTDOWN\0");
    assert_eq!(Command::Instream.wire_bytes(), b"zINSTREAM\0");
}

#[test]
fn command_response_hints() {
    assert_eq!(Command::Ping.response_hint(), Some(pong_bytes().len()));
    assert_eq!(Command::Reload.response_hint(), Some(reloading_bytes().len()));
    assert_eq!(Command::Version.response_hint(), None);
    assert_eq!(Command::Shutdown.response_hint(), None);
    assert_eq!(Command::Instream.response_hint(), None);
}

#[test]
fn send_command_writes_and_drains() {
    let mut channel = MemoryChannel::new(b"ClamAV 1.2.3".to_vec());
    let response = send_command(&mut channel, b"zVERSION\0", None)
        .expect("send against a scripted peer");
    assert_eq!(response, b"ClamAV 1.2.3");
    assert_eq!(channel.written, b"zVERSION\0");
}

#[test]
fn version_reload_shutdown_framing() {
    let mut channel = MemoryChannel::new(b"ClamAV 1.2.3".to_vec());
    let version = get_version(&mut channel).expect("version against a scripted peer");
    assert!(version.starts_with(b"ClamAV"));
    assert_eq!(channel.written, b"zVERSION\0");

    let mut channel = MemoryChannel::new(b"RELOADING\0".to_vec());
    let response = reload(&mut channel).expect("reload against a scripted peer");
    assert_eq!(response, reloading_bytes());
    assert_eq!(channel.written, b"zRELOAD\0");

    let mut channel = MemoryChannel::new(Vec::new());
    let response = shutdown(&mut channel).expect("shutdown against a scripted peer");
    assert!(response.is_empty());
    assert_eq!(channel.written, b"zSHUTDOWN\0");
}

#[test]
fn failures_surface_to_the_caller() {
    let mut failing_writes = MemoryChannel::failing(true, false);
    assert!(ping(&mut failing_writes).is_err());
    assert!(scan(b"data", None, &mut failing_writes).is_err());

    let mut failing_reads = MemoryChannel::failing(false, true);
    assert!(ping(&mut failing_reads).is_err());
    assert!(scan(b"data", None, &mut failing_reads).is_err());
    // the request still went out before the read failed
    assert_eq!(failing_reads.written[..6], *b"zPING\0");
}

#[test]
fn transport_endpoints() {
    let tcp = Tcp { host_address: String::from("localhost:3310") };
    assert!(matches!(tcp.endpoint(), Endpoint::Network(a) if a == "localhost:3310"));
    let socket = Socket { socket_path: String::from("/tmp/clamd.socket") };
    assert!(matches!(socket.endpoint(), Endpoint::SocketPath(p) if p == "/tmp/clamd.socket"));
    let by_ref = &tcp;
    assert!(matches!(by_ref.endpoint(), Endpoint::Network(a) if a == "localhost:3310"));
}
