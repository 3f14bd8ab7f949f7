use speck::dev::protocol::{frame_result, FillOutcome};
use std::io::Cursor;

use speck::dev::protocol::{
    decode_control, encode_control, encode_frame, parse_browser_input, read_frame, truncated,
    validate_header, BrowserInput, ControlMessage, Key, BROWSER_INPUT_MAX_BYTES,
    CONTROL_MESSAGE_BYTES, FRAME_HEADER_BYTES, FRAME_HEIGHT, FRAME_PAYLOAD_BYTES, FRAME_WIDTH,
};

fn sample_pixels() -> Vec<u8> {
    (0..FRAME_PAYLOAD_BYTES).map(|index| (index % 251) as u8).collect()
}

#[test]
fn frame_dimensions_and_byte_count_are_fixed() {
    assert_eq!(FRAME_WIDTH, 320);
    assert_eq!(FRAME_HEIGHT, 180);
    assert_eq!(FRAME_PAYLOAD_BYTES, 172_800);
    assert_eq!(FRAME_HEADER_BYTES, 24);
}

#[test]
fn round_trips_a_complete_rgb_frame() {
    let pixels = sample_pixels();
    let encoded = encode_frame(42, &pixels).expect("frame should encode");
    assert_eq!(encoded.len(), FRAME_HEADER_BYTES + FRAME_PAYLOAD_BYTES);

    let frame = read_frame(&mut Cursor::new(encoded))
        .expect("frame should decode")
        .expect("one frame should be present");
    assert_eq!(frame.sequence, 42);
    assert_eq!(frame.pixels, pixels);
}

#[test]
fn rejects_invalid_metadata() {
    let pixels = sample_pixels();
    let mut encoded = encode_frame(1, &pixels).expect("frame should encode");
    encoded[8..10].copy_from_slice(&321_u16.to_be_bytes());
    let error = read_frame(&mut Cursor::new(encoded)).expect_err("width should be rejected");
    assert!(error.message().contains("dimensions 321x180"));

    let mut encoded = encode_frame(1, &pixels).expect("frame should encode");
    encoded[12..16].copy_from_slice(&12_u32.to_be_bytes());
    let error = read_frame(&mut Cursor::new(encoded)).expect_err("length should be rejected");
    assert!(error.message().contains("payload length 12"));
}

#[test]
fn rejects_truncated_headers_and_payloads() {
    let pixels = sample_pixels();
    let encoded = encode_frame(1, &pixels).expect("frame should encode");
    let header_error =
        read_frame(&mut Cursor::new(&encoded[..10])).expect_err("partial header should fail");
    assert!(header_error.message().contains("truncated frame header"));

    let payload_error = read_frame(&mut Cursor::new(&encoded[..FRAME_HEADER_BYTES + 10]))
        .expect_err("partial payload should fail");
    assert!(payload_error.message().contains("truncated frame payload"));
}

#[test]
fn clean_eof_has_no_frame() {
    assert_eq!(
        read_frame(&mut Cursor::new(Vec::<u8>::new())).expect("EOF should be clean"),
        None
    );
}

#[test]
fn round_trips_fixed_input_control_messages() {
    for message in [
        ControlMessage::Key { key: Key::A, down: true },
        ControlMessage::Key { key: Key::Escape, down: false },
        ControlMessage::ReleaseAll,
    ] {
        let encoded = encode_control(message);
        assert_eq!(encoded.len(), CONTROL_MESSAGE_BYTES);
        assert_eq!(decode_control(&encoded).expect("message should decode"), message);
    }
}

#[test]
fn rejects_malformed_truncated_and_oversized_input_messages() {
    assert!(decode_control(b"SPKI").is_err());
    let mut invalid = encode_control(ControlMessage::ReleaseAll);
    invalid[0] = b'X';
    assert!(decode_control(&invalid).is_err());
    invalid = encode_control(ControlMessage::ReleaseAll);
    invalid[5] = 99;
    assert!(decode_control(&invalid).is_err());
    assert!(parse_browser_input(&[b'x'; BROWSER_INPUT_MAX_BYTES + 1]).is_err());
    assert!(parse_browser_input(b"missing-fields").is_err());
    assert!(parse_browser_input(b"client down \xFF").is_err());
}

#[test]
fn parses_supported_browser_input_and_ignores_unsupported_keys() {
    assert_eq!(
        parse_browser_input(b"viewer-1 down ArrowLeft").expect("input should parse"),
        BrowserInput::Key { client: "viewer-1".into(), key: Key::Left, down: true }
    );
    assert_eq!(
        parse_browser_input(b"viewer-1 up Space").expect("input should parse"),
        BrowserInput::Key { client: "viewer-1".into(), key: Key::Space, down: false }
    );
    assert_eq!(
        parse_browser_input(b"viewer-1 release -").expect("input should parse"),
        BrowserInput::ReleaseAll { client: "viewer-1".into() }
    );
    assert!(matches!(
        parse_browser_input(b"viewer-1 down KeyQ").expect("unsupported key should be safe"),
        BrowserInput::UnsupportedKey { .. }
    ));
}

#[test]
fn encoded_header_has_the_documented_layout() {
    let encoded = encode_frame(0x0102_0304_0506_0708, &sample_pixels()).unwrap();
    assert_eq!(
        &encoded[..FRAME_HEADER_BYTES],
        &[b'S', b'P', b'K', b'F', 1, 1, 0, 24, 1, 64, 0, 180, 0, 2, 163, 0, 1, 2, 3, 4, 5, 6, 7, 8]
    );
    let header: [u8; 24] = encoded[..24].try_into().unwrap();
    assert_eq!(validate_header(&header), Ok(0x0102_0304_0506_0708));
    assert!(encode_frame(1, &[0u8; 3]).is_err());
}

#[test]
fn header_refusals_have_exact_messages() {
    let encoded = encode_frame(7, &sample_pixels()).unwrap();
    let mut header: [u8; 24] = encoded[..24].try_into().unwrap();
    header[4] = 9;
    assert_eq!(
        validate_header(&header).unwrap_err().message(),
        "unsupported frame protocol version 9; expected 1"
    );
    header[4] = 1;
    header[0] = b'X';
    assert_eq!(
        validate_header(&header).unwrap_err().message(),
        "invalid frame magic; expected `SPKF`"
    );
    assert_eq!(truncated("frame payload", "eof").message(), "truncated frame payload: eof");
}

#[test]
fn control_records_have_the_documented_bytes() {
    assert_eq!(
        encode_control(ControlMessage::Key { key: Key::Escape, down: true }),
        [b'S', b'P', b'K', b'I', 1, 1, 10, 1]
    );
    assert_eq!(encode_control(ControlMessage::ReleaseAll), [b'S', b'P', b'K', b'I', 1, 2, 0, 0]);
    assert_eq!(
        decode_control(&[b'S', b'P', b'K', b'I', 1, 1, 11, 1]).unwrap_err().message(),
        "unsupported input key identifier"
    );
    assert_eq!(
        decode_control(&[b'S', b'P', b'K', b'I', 1, 1, 3, 2]).unwrap_err().message(),
        "invalid key transition state"
    );
    assert_eq!(
        decode_control(&[b'S', b'P', b'K', b'I', 1, 2, 1, 0]).unwrap_err().message(),
        "invalid release-all payload"
    );
    assert_eq!(
        decode_control(&[b'S', b'P', b'K', b'I', 2, 2, 0, 0]).unwrap_err().message(),
        "unsupported input protocol version 2; expected 1"
    );
    assert_eq!(
        decode_control(b"SPKI").unwrap_err().message(),
        "input control message must contain 8 bytes, found 4"
    );
}

#[test]
fn browser_input_heartbeats_and_bad_clients() {
    assert_eq!(
        parse_browser_input(b"  a_b  heartbeat  - ").unwrap(),
        BrowserInput::Heartbeat { client: "a_b".into() }
    );
    assert_eq!(
        parse_browser_input(b"bad! down KeyW").unwrap_err().message(),
        "invalid browser input client identifier"
    );
    assert_eq!(
        parse_browser_input(b"c release KeyW").unwrap_err().message(),
        "release and heartbeat messages must use `-` as their code"
    );
    assert_eq!(
        parse_browser_input(b"c jump KeyW").unwrap_err().message(),
        "unsupported browser input message kind `jump`"
    );
    assert_eq!(
        parse_browser_input(&[b'x'; BROWSER_INPUT_MAX_BYTES + 1]).unwrap_err().message(),
        "browser input message exceeded 128 bytes"
    );
    let client = parse_browser_input(b"viewer-9 up KeyD").unwrap();
    assert_eq!(client.client(), "viewer-9");
}

fn failed(ended_early: bool, text: &str) -> FillOutcome {
    FillOutcome::Failed { ended_early, text: text.to_string() }
}

#[test]
fn frame_result_follows_how_each_read_ended() {
    let pixels = vec![7u8; FRAME_PAYLOAD_BYTES];
    let encoded = encode_frame(42, &pixels).unwrap();
    let mut header = [0u8; 24];
    header.copy_from_slice(&encoded[..FRAME_HEADER_BYTES]);

    assert!(matches!(
        frame_result(failed(true, "eof"), FillOutcome::Filled, &header, FillOutcome::Filled, Vec::new()),
        Ok(None)
    ));
    let error = frame_result(failed(false, "broken pipe"), FillOutcome::Filled, &header, FillOutcome::Filled, Vec::new())
        .unwrap_err();
    assert_eq!(error.message(), "could not read frame header: broken pipe");
    let error = frame_result(FillOutcome::Filled, failed(true, "eof"), &header, FillOutcome::Filled, Vec::new())
        .unwrap_err();
    assert_eq!(error.message(), "truncated frame header: eof");
    let error = frame_result(FillOutcome::Filled, FillOutcome::Filled, &header, failed(true, "eof"), Vec::new())
        .unwrap_err();
    assert_eq!(error.message(), "truncated frame payload: eof");
    let frame = frame_result(FillOutcome::Filled, FillOutcome::Filled, &header, FillOutcome::Filled, pixels.clone())
        .unwrap()
        .unwrap();
    assert_eq!(frame.sequence, 42);
    assert_eq!(frame.pixels, pixels);

    let mut bad = header;
    bad[0] = b'X';
    assert!(frame_result(FillOutcome::Filled, FillOutcome::Filled, &bad, FillOutcome::Filled, pixels).is_err());
}
