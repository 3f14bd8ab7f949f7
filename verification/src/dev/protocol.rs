//! The development frame stream and the fixed input-control records exchanged with a game.
use vstd::prelude::*;
use vstd::string::StringSliceAdditionalSpecFns;
use vstd::utf8::{decode_utf8, encode_utf8_decode_utf8, valid_utf8};

pub use crate::keyboard::Key;
use crate::keyboard::{key_id, key_of_browser_code, key_of_id, lemma_key_id_round_trip};
use crate::reading::{ended_early, error_text, read_exactly};
use crate::text::{
    ascii_chars, bytes_equal, decimal, extend_bytes, has_prefix, lemma_prefix_of_concat, owned, push_ascii, push_decimal,
    push_str,
};

verus! {

pub const FRAME_WIDTH: u16 = 320;

pub const FRAME_HEIGHT: u16 = 180;

pub const FRAME_CHANNELS: usize = 3;

pub const FRAME_PAYLOAD_BYTES: usize = 172800;

pub const FRAME_HEADER_BYTES: usize = 24;

pub const CONTROL_MESSAGE_BYTES: usize = 8;

pub const BROWSER_INPUT_MAX_BYTES: usize = 128;

pub const VERSION: u8 = 1;

pub const PIXEL_FORMAT_RGB8: u8 = 1;

pub const CONTROL_VERSION: u8 = 1;

pub const CONTROL_KEY: u8 = 1;

pub const CONTROL_RELEASE_ALL: u8 = 2;

/// `std::str::from_utf8` accepts exactly the valid UTF-8 byte sequences, and the string it
/// returns has those bytes.
pub assume_specification[ core::str::from_utf8 ](v: &[u8]) -> (r: Result<&str, core::str::Utf8Error>)
    ensures
        r is Ok <==> valid_utf8(v@),
        r matches Ok(s) ==> s.spec_bytes() == v@,
;

#[verifier::external_type_specification]
#[verifier::external_body]
pub struct ExUtf8Error(core::str::Utf8Error);

#[derive(Clone, Copy, Debug, PartialEq, Eq, Structural)]
pub enum ControlMessage {
    Key { key: Key, down: bool },
    ReleaseAll,
}

#[derive(Clone, Debug, PartialEq, Eq)]
pub enum BrowserInput {
    Key { client: String, key: Key, down: bool },
    ReleaseAll { client: String },
    Heartbeat { client: String },
    UnsupportedKey { client: String },
}

/// What a browser input message says, with its client identifier as characters.
pub enum BrowserInputView {
    Key { client: Seq<char>, key: Key, down: bool },
    ReleaseAll { client: Seq<char> },
    Heartbeat { client: Seq<char> },
    UnsupportedKey { client: Seq<char> },
}

impl View for BrowserInput {
    type V = BrowserInputView;

    open spec fn view(&self) -> BrowserInputView {
        match self {
            BrowserInput::Key { client, key, down } => BrowserInputView::Key {
                client: client@,
                key: *key,
                down: *down,
            },
            BrowserInput::ReleaseAll { client } => BrowserInputView::ReleaseAll { client: client@ },
            BrowserInput::Heartbeat { client } => BrowserInputView::Heartbeat { client: client@ },
            BrowserInput::UnsupportedKey { client } => BrowserInputView::UnsupportedKey {
                client: client@,
            },
        }
    }
}

impl BrowserInputView {
    pub open spec fn client(self) -> Seq<char> {
        match self {
            BrowserInputView::Key { client, .. } => client,
            BrowserInputView::ReleaseAll { client } => client,
            BrowserInputView::Heartbeat { client } => client,
            BrowserInputView::UnsupportedKey { client } => client,
        }
    }
}

impl BrowserInput {
    pub fn client(&self) -> (client: &str)
        ensures
            client@ == self@.client(),
    {
        match self {
            BrowserInput::Key { client, .. } => client.as_str(),
            BrowserInput::ReleaseAll { client } => client.as_str(),
            BrowserInput::Heartbeat { client } => client.as_str(),
            BrowserInput::UnsupportedKey { client } => client.as_str(),
        }
    }
}

#[derive(Clone, Debug, PartialEq, Eq)]
pub struct Frame {
    pub sequence: u64,
    pub pixels: Vec<u8>,
}

#[derive(Clone, Debug, PartialEq, Eq)]
pub struct ProtocolError(String);

impl View for ProtocolError {
    type V = Seq<char>;

    closed spec fn view(&self) -> Seq<char> {
        self.0@
    }
}

impl ProtocolError {
    pub fn new(message: String) -> (error: ProtocolError)
        ensures
            error@ == message@,
    {
        ProtocolError(message)
    }

    /// The error's message.
    pub fn message(&self) -> (message: &str)
        ensures
            message@ == self@,
    {
        self.0.as_str()
    }
}

/// A protocol result with its error taken by its message.
pub open spec fn outcome<T>(r: Result<T, ProtocolError>) -> Result<T, Seq<char>> {
    match r {
        Ok(v) => Ok(v),
        Err(e) => Err(e@),
    }
}

// ---------------------------------------------------------------------------------------------
// Frames
/// Big-endian bytes of a `u64`.
pub open spec fn be_u64_bytes(x: u64) -> Seq<u8> {
    seq![
        (x >> 56u64) as u8,
        (x >> 48u64) as u8,
        (x >> 40u64) as u8,
        (x >> 32u64) as u8,
        (x >> 24u64) as u8,
        (x >> 16u64) as u8,
        (x >> 8u64) as u8,
        x as u8,
    ]
}

/// The `u16` whose big-endian bytes start at `at`.
pub open spec fn be_u16_at(s: Seq<u8>, at: int) -> u16 {
    ((s[at] as u16) << 8u16) | (s[at + 1] as u16)
}

/// The `u32` whose big-endian bytes start at `at`.
pub open spec fn be_u32_at(s: Seq<u8>, at: int) -> u32 {
    ((s[at] as u32) << 24u32) | ((s[at + 1] as u32) << 16u32) | ((s[at + 2] as u32) << 8u32) | (
    s[at + 3] as u32)
}

/// The `u64` whose big-endian bytes start at `at`.
pub open spec fn be_u64_at(s: Seq<u8>, at: int) -> u64 {
    ((s[at] as u64) << 56u64) | ((s[at + 1] as u64) << 48u64) | ((s[at + 2] as u64) << 40u64) | ((
    s[at + 3] as u64) << 32u64) | ((s[at + 4] as u64) << 24u64) | ((s[at + 5] as u64) << 16u64)
        | ((s[at + 6] as u64) << 8u64) | (s[at + 7] as u64)
}

/// The frame magic `SPKF`.
pub open spec fn frame_magic() -> Seq<u8> {
    seq![0x53u8, 0x50u8, 0x4Bu8, 0x46u8]
}

/// The control magic `SPKI`.
pub open spec fn control_magic() -> Seq<u8> {
    seq![0x53u8, 0x50u8, 0x4Bu8, 0x49u8]
}

/// The 24-byte header of an RGB8 frame with the given sequence number.
pub open spec fn frame_header(sequence: u64) -> Seq<u8> {
    frame_magic() + seq![VERSION, PIXEL_FORMAT_RGB8, 0u8, 24u8, 1u8, 64u8, 0u8, 180u8, 0u8, 2u8, 163u8, 0u8]
        + be_u64_bytes(sequence)
}

/// What checking a frame header gives: its sequence number or the reason it is refused.
pub open spec fn header_check(h: Seq<u8>) -> Result<u64, Seq<char>> {
    let header_bytes = be_u16_at(h, 6);
    let width = be_u16_at(h, 8);
    let height = be_u16_at(h, 10);
    let payload_bytes = be_u32_at(h, 12);
    if h.subrange(0, 4) != frame_magic() {
        Err("invalid frame magic; expected `SPKF`"@)
    } else if h[4] != VERSION {
        Err("unsupported frame protocol version "@ + decimal(h[4] as nat) + "; expected 1"@)
    } else if h[5] != PIXEL_FORMAT_RGB8 {
        Err("unsupported pixel format "@ + decimal(h[5] as nat) + "; expected RGB8 (1)"@)
    } else if header_bytes != 24 {
        Err("invalid frame header length "@ + decimal(header_bytes as nat) + "; expected 24"@)
    } else if width != 320 || height != 180 {
        Err("invalid framebuffer dimensions "@ + decimal(width as nat) + "x"@ + decimal(
            height as nat,
        ) + "; expected 320x180"@)
    } else if payload_bytes != 172800 {
        Err("invalid frame payload length "@ + decimal(payload_bytes as nat) + "; expected 172800"@)
    } else {
        Ok(be_u64_at(h, 16))
    }
}

fn push_be_u64(v: &mut Vec<u8>, x: u64)
    ensures
        final(v)@ == old(v)@ + be_u64_bytes(x),
{
    v.push((x >> 56) as u8);
    v.push((x >> 48) as u8);
    v.push((x >> 40) as u8);
    v.push((x >> 32) as u8);
    v.push((x >> 24) as u8);
    v.push((x >> 16) as u8);
    v.push((x >> 8) as u8);
    v.push(x as u8);
}

pub fn encode_frame(sequence: u64, pixels: &[u8]) -> (encoded: Result<Vec<u8>, ProtocolError>)
    ensures
        encoded is Ok <==> pixels@.len() == FRAME_PAYLOAD_BYTES,
        encoded matches Ok(bytes) ==> bytes@ == frame_header(sequence) + pixels@,
        encoded matches Err(e) ==> e@ == "RGB8 payload must contain 172800 bytes, found "@
            + decimal(pixels@.len()),
{
    if pixels.len() != FRAME_PAYLOAD_BYTES {
        let mut message = owned("RGB8 payload must contain 172800 bytes, found ");
        push_decimal(&mut message, pixels.len() as u64);
        return Err(ProtocolError::new(message));
    }
    let mut encoded: Vec<u8> = Vec::with_capacity(FRAME_HEADER_BYTES + FRAME_PAYLOAD_BYTES);
    let magic: [u8; 4] = [0x53u8, 0x50u8, 0x4Bu8, 0x46u8];
    extend_bytes(&mut encoded, &magic);
    encoded.push(VERSION);
    encoded.push(PIXEL_FORMAT_RGB8);
    // Header length 24, width 320, height 180 and payload length 172800, big-endian.
    let sizes: [u8; 10] = [0u8, 24u8, 1u8, 64u8, 0u8, 180u8, 0u8, 2u8, 163u8, 0u8];
    extend_bytes(&mut encoded, &sizes);
    push_be_u64(&mut encoded, sequence);
    extend_bytes(&mut encoded, pixels);
    assert(magic@ == frame_magic());
    assert(encoded@ == frame_header(sequence) + pixels@);
    Ok(encoded)
}

fn be_u16_from(h: &[u8; 24], at: usize) -> (x: u16)
    requires
        at + 1 < 24,
    ensures
        x == be_u16_at(h@, at as int),
{
    ((h[at] as u16) << 8) | (h[at + 1] as u16)
}

pub fn validate_header(header: &[u8; 24]) -> (sequence: Result<u64, ProtocolError>)
    ensures
        outcome(sequence) == header_check(header@),
{
    let magic: [u8; 4] = [0x53u8, 0x50u8, 0x4Bu8, 0x46u8];
    let start: &[u8] = header.as_slice();
    let head: &[u8] = &start[0..4];
    assert(magic@ == frame_magic());
    if !bytes_equal(head, &magic) {
        return Err(ProtocolError::new(owned("invalid frame magic; expected `SPKF`")));
    }
    if header[4] != VERSION {
        let mut message = owned("unsupported frame protocol version ");
        push_decimal(&mut message, header[4] as u64);
        push_str(&mut message, "; expected 1");
        return Err(ProtocolError::new(message));
    }
    if header[5] != PIXEL_FORMAT_RGB8 {
        let mut message = owned("unsupported pixel format ");
        push_decimal(&mut message, header[5] as u64);
        push_str(&mut message, "; expected RGB8 (1)");
        return Err(ProtocolError::new(message));
    }
    let header_bytes = be_u16_from(header, 6);
    let width = be_u16_from(header, 8);
    let height = be_u16_from(header, 10);
    let payload_bytes: u32 = ((header[12] as u32) << 24) | ((header[13] as u32) << 16) | ((
    header[14] as u32) << 8) | (header[15] as u32);
    if header_bytes != 24 {
        let mut message = owned("invalid frame header length ");
        push_decimal(&mut message, header_bytes as u64);
        push_str(&mut message, "; expected 24");
        return Err(ProtocolError::new(message));
    }
    if width != FRAME_WIDTH || height != FRAME_HEIGHT {
        let mut message = owned("invalid framebuffer dimensions ");
        push_decimal(&mut message, width as u64);
        push_str(&mut message, "x");
        push_decimal(&mut message, height as u64);
        push_str(&mut message, "; expected 320x180");
        return Err(ProtocolError::new(message));
    }
    if payload_bytes != 172800 {
        let mut message = owned("invalid frame payload length ");
        push_decimal(&mut message, payload_bytes as u64);
        push_str(&mut message, "; expected 172800");
        return Err(ProtocolError::new(message));
    }
    let sequence: u64 = ((header[16] as u64) << 56) | ((header[17] as u64) << 48) | ((
    header[18] as u64) << 40) | ((header[19] as u64) << 32) | ((header[20] as u64) << 24) | ((
    header[21] as u64) << 16) | ((header[22] as u64) << 8) | (header[23] as u64);
    Ok(sequence)
}

/// The message of a read that ended inside a frame `part`, after the reader's own `error`.
pub fn truncated(part: &str, error: &str) -> (e: ProtocolError)
    ensures
        e@ == "truncated "@ + part@ + ": "@ + error@,
{
    let mut message = owned("truncated ");
    push_str(&mut message, part);
    push_str(&mut message, ": ");
    push_str(&mut message, error);
    ProtocolError::new(message)
}

/// Whether some 24-byte header is refused with exactly this message.
pub open spec fn header_refusal(message: Seq<char>) -> bool {
    exists|h: Seq<u8>| h.len() == 24 && #[trigger] header_check(h) == Err::<u64, Seq<char>>(message)
}

/// How a read that fills a buffer ended: filled, or failed, with whether the input ended
/// before the buffer was full and the error's text.
pub enum FillOutcome {
    Filled,
    Failed { ended_early: bool, text: String },
}

/// What reading a frame gives, from how its three reads ended (the first byte, the rest of the
/// header, the payload), the header's bytes and the payload's bytes: no frame when the input
/// ends before its first byte, an error naming the part that could not be read, the header's
/// refusal, or the frame with the header's sequence number. A read after one that failed is
/// not made, and what is passed for it does not matter.
pub open spec fn frame_decision(
    first: FillOutcome,
    rest: FillOutcome,
    header: Seq<u8>,
    payload: FillOutcome,
    pixels: Seq<u8>,
) -> Result<Option<(u64, Seq<u8>)>, Seq<char>> {
    match first {
        FillOutcome::Failed { ended_early, text } => if ended_early {
            Ok(None)
        } else {
            Err("could not read frame header: "@ + text@)
        },
        FillOutcome::Filled => match rest {
            FillOutcome::Failed { text, .. } => Err("truncated frame header: "@ + text@),
            FillOutcome::Filled => match header_check(header) {
                Err(m) => Err(m),
                Ok(sequence) => match payload {
                    FillOutcome::Failed { text, .. } => Err("truncated frame payload: "@ + text@),
                    FillOutcome::Filled => Ok(Some((sequence, pixels))),
                },
            },
        },
    }
}

/// A frame-reading result as plain values.
pub open spec fn frame_result_view(r: Result<Option<Frame>, ProtocolError>) -> Result<Option<(u64, Seq<u8>)>, Seq<char>> {
    match r {
        Ok(Some(f)) => Ok(Some((f.sequence, f.pixels@))),
        Ok(None) => Ok(None),
        Err(e) => Err(e@),
    }
}

/// The result of reading a frame from how its reads ended, as `frame_decision` says.
pub fn frame_result(
    first: FillOutcome,
    rest: FillOutcome,
    header: &[u8; 24],
    payload: FillOutcome,
    pixels: Vec<u8>,
) -> (frame: Result<Option<Frame>, ProtocolError>)
    ensures
        frame_result_view(frame) == frame_decision(first, rest, header@, payload, pixels@),
{
    match first {
        FillOutcome::Failed { ended_early, text } => {
            if ended_early {
                return Ok(None);
            }
            let mut message = owned("could not read frame header: ");
            push_str(&mut message, text.as_str());
            return Err(ProtocolError::new(message));
        },
        FillOutcome::Filled => {},
    }
    match rest {
        FillOutcome::Failed { text, .. } => {
            let e = truncated("frame header", text.as_str());
            proof {
                reveal_strlit("truncated ");
                reveal_strlit("frame header");
                reveal_strlit(": ");
                reveal_strlit("truncated frame header: ");
                assert("truncated "@ + "frame header"@ + ": "@ + text@ == "truncated frame header: "@ + text@);
            }
            return Err(e);
        },
        FillOutcome::Filled => {},
    }
    let sequence = match validate_header(header) {
        Ok(sequence) => sequence,
        Err(error) => {
            return Err(error);
        },
    };
    match payload {
        FillOutcome::Failed { text, .. } => {
            let e = truncated("frame payload", text.as_str());
            proof {
                reveal_strlit("truncated ");
                reveal_strlit("frame payload");
                reveal_strlit(": ");
                reveal_strlit("truncated frame payload: ");
                assert("truncated "@ + "frame payload"@ + ": "@ + text@ == "truncated frame payload: "@ + text@);
            }
            Err(e)
        },
        FillOutcome::Filled => Ok(Some(Frame { sequence, pixels })),
    }
}

/// How a filling read ended, with the error's kind and text where it failed.
fn fill_outcome(read: Result<(), std::io::Error>) -> (outcome: FillOutcome)
    ensures
        (read is Ok) == (outcome is Filled),
{
    match read {
        Ok(()) => FillOutcome::Filled,
        Err(error) => FillOutcome::Failed { ended_early: ended_early(&error), text: error_text(&error) },
    }
}

/// Reads one frame: one byte, then the other 23 bytes of the header, then, for a header that
/// `validate_header` accepts, the 172800-byte payload. What comes of it is what
/// `frame_decision` says of how those reads ended; a read after one that failed is not made.
pub fn read_frame<R: std::io::Read>(reader: &mut R) -> (frame: Result<Option<Frame>, ProtocolError>)
    ensures
        exists|first: FillOutcome, rest: FillOutcome, header: Seq<u8>, payload: FillOutcome, pixels: Seq<u8>|
            header.len() == 24 && pixels.len() == FRAME_PAYLOAD_BYTES && #[trigger] frame_decision(
                first,
                rest,
                header,
                payload,
                pixels,
            ) == frame_result_view(frame),
        frame matches Ok(Some(f)) ==> f.pixels@.len() == FRAME_PAYLOAD_BYTES && exists|h: Seq<u8>|
            h.len() == 24 && #[trigger] header_check(h) == Ok::<u64, Seq<char>>(f.sequence),
        frame matches Err(e) ==> {
            ||| has_prefix(e@, "could not read frame header: "@)
            ||| has_prefix(e@, "truncated frame header: "@)
            ||| has_prefix(e@, "truncated frame payload: "@)
            ||| header_refusal(e@)
        },
{
    let nothing: [u8; 24] = [0u8; 24];
    let mut first: Vec<u8> = vec![0u8];
    let first_read = fill_outcome(read_exactly(reader, &mut first));
    if !matches!(first_read, FillOutcome::Filled) {
        let r = frame_result(first_read, FillOutcome::Filled, &nothing, FillOutcome::Filled, vec![0u8; FRAME_PAYLOAD_BYTES]);
        proof {
            lemma_frame_result_forms(r);
        }
        return r;
    }
    let mut rest: Vec<u8> = vec![0u8; 23];
    let rest_read = fill_outcome(read_exactly(reader, &mut rest));
    if !matches!(rest_read, FillOutcome::Filled) {
        let r = frame_result(FillOutcome::Filled, rest_read, &nothing, FillOutcome::Filled, vec![0u8; FRAME_PAYLOAD_BYTES]);
        proof {
            lemma_frame_result_forms(r);
        }
        return r;
    }
    let header: [u8; 24] = [
        first[0], rest[0], rest[1], rest[2], rest[3], rest[4], rest[5], rest[6], rest[7], rest[8],
        rest[9], rest[10], rest[11], rest[12], rest[13], rest[14], rest[15], rest[16], rest[17],
        rest[18], rest[19], rest[20], rest[21], rest[22],
    ];
    let mut pixels: Vec<u8> = vec![0u8; FRAME_PAYLOAD_BYTES];
    let payload_read = if validate_header(&header).is_ok() {
        fill_outcome(read_exactly(reader, &mut pixels))
    } else {
        FillOutcome::Filled
    };
    let r = frame_result(FillOutcome::Filled, FillOutcome::Filled, &header, payload_read, pixels);
    proof {
        lemma_frame_result_forms(r);
    }
    r
}

/// Every result `frame_decision` gives is a frame of the payload's size with an accepted
/// header, no frame, or one of the refusals.
proof fn lemma_frame_result_forms(r: Result<Option<Frame>, ProtocolError>)
    requires
        exists|first: FillOutcome, rest: FillOutcome, header: Seq<u8>, payload: FillOutcome, pixels: Seq<u8>|
            header.len() == 24 && pixels.len() == FRAME_PAYLOAD_BYTES && #[trigger] frame_decision(
                first,
                rest,
                header,
                payload,
                pixels,
            ) == frame_result_view(r),
    ensures
        r matches Ok(Some(f)) ==> f.pixels@.len() == FRAME_PAYLOAD_BYTES && exists|h: Seq<u8>|
            h.len() == 24 && #[trigger] header_check(h) == Ok::<u64, Seq<char>>(f.sequence),
        r matches Err(e) ==> {
            ||| has_prefix(e@, "could not read frame header: "@)
            ||| has_prefix(e@, "truncated frame header: "@)
            ||| has_prefix(e@, "truncated frame payload: "@)
            ||| header_refusal(e@)
        },
{
    let (first, rest, header, payload, pixels) = choose|
        first: FillOutcome,
        rest: FillOutcome,
        header: Seq<u8>,
        payload: FillOutcome,
        pixels: Seq<u8>,
    |
        header.len() == 24 && pixels.len() == FRAME_PAYLOAD_BYTES && #[trigger] frame_decision(
            first,
            rest,
            header,
            payload,
            pixels,
        ) == frame_result_view(r);
    match first {
        FillOutcome::Failed { text, .. } => lemma_prefix_of_concat("could not read frame header: "@, text@),
        FillOutcome::Filled => match rest {
            FillOutcome::Failed { text, .. } => lemma_prefix_of_concat("truncated frame header: "@, text@),
            FillOutcome::Filled => match payload {
                FillOutcome::Failed { text, .. } => lemma_prefix_of_concat("truncated frame payload: "@, text@),
                FillOutcome::Filled => {},
            },
        },
    }
}

/// A frame header that `encode_frame` writes is accepted by `validate_header` with the same
/// sequence number.
pub proof fn lemma_frame_header_round_trip(sequence: u64)
    ensures
        frame_header(sequence).len() == FRAME_HEADER_BYTES,
        header_check(frame_header(sequence)) == Ok::<u64, Seq<char>>(sequence),
{
    let h = frame_header(sequence);
    assert(h.subrange(0, 4) == frame_magic());
    assert(be_u16_at(h, 6) == 24) by {
        assert(h[6] == 0 && h[7] == 24);
        assert((((0u8 as u16) << 8u16) | (24u8 as u16)) == 24u16) by (bit_vector);
    }
    assert(be_u16_at(h, 8) == 320) by {
        assert(h[8] == 1 && h[9] == 64);
        assert((((1u8 as u16) << 8u16) | (64u8 as u16)) == 320u16) by (bit_vector);
    }
    assert(be_u16_at(h, 10) == 180) by {
        assert(h[10] == 0 && h[11] == 180);
        assert((((0u8 as u16) << 8u16) | (180u8 as u16)) == 180u16) by (bit_vector);
    }
    assert(be_u32_at(h, 12) == 172800) by {
        assert(h[12] == 0 && h[13] == 2 && h[14] == 163 && h[15] == 0);
        assert((((0u8 as u32) << 24u32) | ((2u8 as u32) << 16u32) | ((163u8 as u32) << 8u32) | (
        0u8 as u32)) == 172800u32) by (bit_vector);
    }
    assert(be_u64_at(h, 16) == sequence) by {
        let x = sequence;
        assert(((((x >> 56u64) as u8) as u64) << 56u64) | ((((x >> 48u64) as u8) as u64) << 48u64)
            | ((((x >> 40u64) as u8) as u64) << 40u64) | ((((x >> 32u64) as u8) as u64) << 32u64)
            | ((((x >> 24u64) as u8) as u64) << 24u64) | ((((x >> 16u64) as u8) as u64) << 16u64)
            | ((((x >> 8u64) as u8) as u64) << 8u64) | ((x as u8) as u64) == x) by (bit_vector);
    }
}

// ---------------------------------------------------------------------------------------------
// Input control records
/// The eight bytes that encode a control message.
pub open spec fn control_bytes(message: ControlMessage) -> Seq<u8> {
    match message {
        ControlMessage::Key { key, down } => control_magic() + seq![
            CONTROL_VERSION,
            CONTROL_KEY,
            key_id(key),
            if down {
                1u8
            } else {
                0u8
            },
        ],
        ControlMessage::ReleaseAll => control_magic() + seq![
            CONTROL_VERSION,
            CONTROL_RELEASE_ALL,
            0u8,
            0u8,
        ],
    }
}

/// What decoding a control record gives: its message or the reason it is refused.
pub open spec fn control_decoding(b: Seq<u8>) -> Result<ControlMessage, Seq<char>> {
    if b.len() != CONTROL_MESSAGE_BYTES {
        Err("input control message must contain 8 bytes, found "@ + decimal(b.len()))
    } else if b.subrange(0, 4) != control_magic() {
        Err("invalid input control magic; expected `SPKI`"@)
    } else if b[4] != CONTROL_VERSION {
        Err("unsupported input protocol version "@ + decimal(b[4] as nat) + "; expected 1"@)
    } else if b[5] == CONTROL_KEY && b[7] <= 1 {
        match key_of_id(b[6]) {
            Some(key) => Ok(ControlMessage::Key { key, down: b[7] != 0 }),
            None => Err("unsupported input key identifier"@),
        }
    } else if b[5] == CONTROL_RELEASE_ALL && b[6] == 0 && b[7] == 0 {
        Ok(ControlMessage::ReleaseAll)
    } else if b[5] == CONTROL_KEY {
        Err("invalid key transition state"@)
    } else if b[5] == CONTROL_RELEASE_ALL {
        Err("invalid release-all payload"@)
    } else {
        Err("unsupported input control message kind "@ + decimal(b[5] as nat))
    }
}

pub fn encode_control(message: ControlMessage) -> (encoded: [u8; 8])
    ensures
        encoded@ == control_bytes(message),
{
    let mut encoded: [u8; 8] = [0x53u8, 0x50u8, 0x4Bu8, 0x49u8, CONTROL_VERSION, 0u8, 0u8, 0u8];
    match message {
        ControlMessage::Key { key, down } => {
            encoded[5] = CONTROL_KEY;
            encoded[6] = key.id();
            encoded[7] = if down { 1u8 } else { 0u8 };
        },
        ControlMessage::ReleaseAll => {
            encoded[5] = CONTROL_RELEASE_ALL;
        },
    }
    assert(encoded@ =~= control_bytes(message));
    encoded
}

pub fn decode_control(bytes: &[u8]) -> (message: Result<ControlMessage, ProtocolError>)
    ensures
        outcome(message) == control_decoding(bytes@),
{
    if bytes.len() != CONTROL_MESSAGE_BYTES {
        let mut text = owned("input control message must contain 8 bytes, found ");
        push_decimal(&mut text, bytes.len() as u64);
        return Err(ProtocolError::new(text));
    }
    let magic: [u8; 4] = [0x53u8, 0x50u8, 0x4Bu8, 0x49u8];
    assert(magic@ == control_magic());
    if !bytes_equal(&bytes[0..4], &magic) {
        return Err(ProtocolError::new(owned("invalid input control magic; expected `SPKI`")));
    }
    if bytes[4] != CONTROL_VERSION {
        let mut text = owned("unsupported input protocol version ");
        push_decimal(&mut text, bytes[4] as u64);
        push_str(&mut text, "; expected 1");
        return Err(ProtocolError::new(text));
    }
    let kind = bytes[5];
    if kind == CONTROL_KEY && bytes[7] <= 1 {
        match Key::from_id(bytes[6]) {
            Some(key) => Ok(ControlMessage::Key { key, down: bytes[7] != 0 }),
            None => Err(ProtocolError::new(owned("unsupported input key identifier"))),
        }
    } else if kind == CONTROL_RELEASE_ALL && bytes[6] == 0 && bytes[7] == 0 {
        Ok(ControlMessage::ReleaseAll)
    } else if kind == CONTROL_KEY {
        Err(ProtocolError::new(owned("invalid key transition state")))
    } else if kind == CONTROL_RELEASE_ALL {
        Err(ProtocolError::new(owned("invalid release-all payload")))
    } else {
        let mut text = owned("unsupported input control message kind ");
        push_decimal(&mut text, kind as u64);
        Err(ProtocolError::new(text))
    }
}

/// Every control message survives encoding and decoding unchanged.
pub proof fn lemma_control_round_trip(message: ControlMessage)
    ensures
        control_bytes(message).len() == CONTROL_MESSAGE_BYTES,
        control_decoding(control_bytes(message)) == Ok::<ControlMessage, Seq<char>>(message),
{
    let b = control_bytes(message);
    assert(b.subrange(0, 4) == control_magic());
    if let ControlMessage::Key { key, down } = message {
        lemma_key_id_round_trip(key);
    }
}

// ---------------------------------------------------------------------------------------------
// Browser input messages
/// The whitespace bytes that separate the fields of a browser input message.
pub open spec fn is_ascii_whitespace(b: u8) -> bool {
    b == 0x20u8 || b == 0x09u8 || b == 0x0Au8 || b == 0x0Cu8 || b == 0x0Du8
}

/// Length of the leading run of non-whitespace bytes.
pub open spec fn word_len(s: Seq<u8>) -> nat
    decreases s.len(),
{
    if s.len() == 0 || is_ascii_whitespace(s[0]) {
        0
    } else {
        1 + word_len(s.drop_first())
    }
}

/// The maximal runs of non-whitespace bytes, in order.
pub open spec fn fields(s: Seq<u8>) -> Seq<Seq<u8>>
    decreases s.len(),
{
    if s.len() == 0 {
        seq![]
    } else if is_ascii_whitespace(s[0]) {
        fields(s.drop_first())
    } else {
        let n = word_len(s);
        proof {
            lemma_word_len_bound(s);
        }
        seq![s.take(n as int)] + fields(s.skip(n as int))
    }
}

/// Whether a client identifier is 1 to 64 ASCII letters, digits, `-` or `_`.
pub open spec fn valid_client(c: Seq<u8>) -> bool {
    &&& 1 <= c.len() <= 64
    &&& forall|i: int| 0 <= i < c.len() ==> is_client_byte(#[trigger] c[i])
}

pub open spec fn is_client_byte(b: u8) -> bool {
    (0x30 <= b <= 0x39) || (0x41 <= b <= 0x5A) || (0x61 <= b <= 0x7A) || b == 0x2D || b == 0x5F
}

/// The characters of bytes that are valid UTF-8, and nothing otherwise.
pub open spec fn utf8_chars(b: Seq<u8>) -> Seq<char> {
    if valid_utf8(b) {
        decode_utf8(b)
    } else {
        seq![]
    }
}

pub open spec fn bytes_down() -> Seq<u8> {
    seq![0x64u8, 0x6Fu8, 0x77u8, 0x6Eu8]
}

pub open spec fn bytes_up() -> Seq<u8> {
    seq![0x75u8, 0x70u8]
}

pub open spec fn bytes_release() -> Seq<u8> {
    seq![0x72u8, 0x65u8, 0x6Cu8, 0x65u8, 0x61u8, 0x73u8, 0x65u8]
}

pub open spec fn bytes_heartbeat() -> Seq<u8> {
    seq![0x68u8, 0x65u8, 0x61u8, 0x72u8, 0x74u8, 0x62u8, 0x65u8, 0x61u8, 0x74u8]
}

pub open spec fn bytes_dash() -> Seq<u8> {
    seq![0x2Du8]
}

/// What parsing a browser input body gives: the input or the reason it is refused.
pub open spec fn browser_input_parse(body: Seq<u8>) -> Result<BrowserInputView, Seq<char>> {
    let f = fields(body);
    if body.len() > BROWSER_INPUT_MAX_BYTES {
        Err("browser input message exceeded 128 bytes"@)
    } else if !valid_utf8(body) {
        Err("browser input message was not UTF-8"@)
    } else if f.len() != 3 {
        Err("browser input message must contain `client kind code`"@)
    } else if !valid_client(f[0]) {
        Err("invalid browser input client identifier"@)
    } else {
        let client = ascii_chars(f[0]);
        if f[1] == bytes_down() || f[1] == bytes_up() {
            match key_of_browser_code(f[2]) {
                Some(key) => Ok(BrowserInputView::Key { client, key, down: f[1] == bytes_down() }),
                None => Ok(BrowserInputView::UnsupportedKey { client }),
            }
        } else if f[1] == bytes_release() && f[2] == bytes_dash() {
            Ok(BrowserInputView::ReleaseAll { client })
        } else if f[1] == bytes_heartbeat() && f[2] == bytes_dash() {
            Ok(BrowserInputView::Heartbeat { client })
        } else if f[1] == bytes_release() || f[1] == bytes_heartbeat() {
            Err("release and heartbeat messages must use `-` as their code"@)
        } else {
            Err("unsupported browser input message kind `"@ + utf8_chars(f[1]) + "`"@)
        }
    }
}

/// An accepted browser input is at most 128 bytes of UTF-8 made of exactly three
/// whitespace-separated fields, and its client is the first field: 1 to 64 ASCII letters,
/// digits, `-` or `_`.
pub proof fn lemma_accepted_input_client(body: Seq<u8>)
    requires
        browser_input_parse(body) is Ok,
    ensures
        body.len() <= BROWSER_INPUT_MAX_BYTES,
        valid_utf8(body),
        fields(body).len() == 3,
        valid_client(fields(body)[0]),
        browser_input_parse(body)->Ok_0.client() == ascii_chars(fields(body)[0]),
        1 <= browser_input_parse(body)->Ok_0.client().len() <= 64,
{
}

pub proof fn lemma_word_len_bound(s: Seq<u8>)
    ensures
        word_len(s) <= s.len(),
        forall|i: int| 0 <= i < word_len(s) ==> !is_ascii_whitespace(#[trigger] s[i]),
        word_len(s) < s.len() ==> is_ascii_whitespace(s[word_len(s) as int]),
    decreases s.len(),
{
    if s.len() > 0 && !is_ascii_whitespace(s[0]) {
        lemma_word_len_bound(s.drop_first());
        assert forall|i: int| 0 <= i < word_len(s) implies !is_ascii_whitespace(#[trigger] s[i]) by {
            if i > 0 {
                assert(s[i] == s.drop_first()[i - 1]);
            }
        }
    }
}

proof fn lemma_word_len_exact(s: Seq<u8>, n: int)
    requires
        0 <= n <= s.len(),
        forall|i: int| 0 <= i < n ==> !is_ascii_whitespace(#[trigger] s[i]),
        n == s.len() || is_ascii_whitespace(s[n]),
    ensures
        word_len(s) == n,
    decreases s.len(),
{
    if n > 0 {
        assert forall|i: int| 0 <= i < n - 1 implies !is_ascii_whitespace(
            #[trigger] s.drop_first()[i],
        ) by {
            assert(s.drop_first()[i] == s[i + 1]);
        }
        if n < s.len() {
            assert(s.drop_first()[n - 1] == s[n]);
        }
        lemma_word_len_exact(s.drop_first(), n - 1);
    }
}

/// Byte ranges of the whitespace-separated fields of `body`.
fn field_ranges(body: &[u8]) -> (ranges: Vec<(usize, usize)>)
    ensures
        ranges@.len() == fields(body@).len(),
        forall|k: int|
            0 <= k < ranges@.len() ==> {
                &&& (#[trigger] ranges@[k]).0 <= ranges@[k].1 <= body@.len()
                &&& body@.subrange(ranges@[k].0 as int, ranges@[k].1 as int) == fields(body@)[k]
            },
{
    let mut ranges: Vec<(usize, usize)> = Vec::new();
    let mut i: usize = 0;
    assert(body@.skip(0) == body@);
    assert(ranges@.map_values(|r: (usize, usize)| body@.subrange(r.0 as int, r.1 as int))
        == Seq::<Seq<u8>>::empty());
    while i < body.len()
        invariant
            i <= body.len(),
            fields(body@) == ranges@.map_values(
                |r: (usize, usize)| body@.subrange(r.0 as int, r.1 as int),
            ) + fields(body@.skip(i as int)),
            forall|k: int|
                0 <= k < ranges@.len() ==> (#[trigger] ranges@[k]).0 <= ranges@[k].1 <= i,
        decreases body.len() - i,
    {
        let ghost rest = body@.skip(i as int);
        if body[i] == 0x20u8 || body[i] == 0x09u8 || body[i] == 0x0Au8 || body[i] == 0x0Cu8
            || body[i] == 0x0Du8 {
            assert(rest.drop_first() == body@.skip(i + 1));
            i += 1;
        } else {
            let start = i;
            while i < body.len() && !(body[i] == 0x20u8 || body[i] == 0x09u8 || body[i] == 0x0Au8
                || body[i] == 0x0Cu8 || body[i] == 0x0Du8)
                invariant
                    start <= i <= body.len(),
                    forall|j: int| start <= j < i ==> !is_ascii_whitespace(#[trigger] body@[j]),
                decreases body.len() - i,
            {
                i += 1;
            }
            proof {
                assert forall|j: int| 0 <= j < i - start implies !is_ascii_whitespace(
                    #[trigger] rest[j],
                ) by {
                    assert(rest[j] == body@[start + j]);
                }
                if i < body.len() {
                    assert(rest[i - start] == body@[i as int]);
                }
                lemma_word_len_exact(rest, i - start);
                assert(rest.take(i - start) == body@.subrange(start as int, i as int));
                assert(rest.skip(i - start) == body@.skip(i as int));
            }
            let ghost old_ranges = ranges@;
            ranges.push((start, i));
            proof {
                assert(ranges@.map_values(
                    |r: (usize, usize)| body@.subrange(r.0 as int, r.1 as int),
                ) == old_ranges.map_values(
                    |r: (usize, usize)| body@.subrange(r.0 as int, r.1 as int),
                ).push(body@.subrange(start as int, i as int)));
            }
        }
    }
    proof {
        assert(body@.skip(i as int).len() == 0);
        assert(fields(body@.skip(i as int)) == Seq::<Seq<u8>>::empty());
        assert forall|k: int| 0 <= k < ranges@.len() implies body@.subrange(
            (#[trigger] ranges@[k]).0 as int,
            ranges@[k].1 as int,
        ) == fields(body@)[k] by {
            assert(fields(body@)[k] == ranges@.map_values(
                |r: (usize, usize)| body@.subrange(r.0 as int, r.1 as int),
            )[k]);
        }
    }
    ranges
}

fn is_client_identifier(c: &[u8]) -> (valid: bool)
    ensures
        valid == valid_client(c@),
{
    if c.len() == 0 || c.len() > 64 {
        return false;
    }
    let mut i: usize = 0;
    while i < c.len()
        invariant
            i <= c.len(),
            forall|k: int| 0 <= k < i ==> is_client_byte(#[trigger] c@[k]),
        decreases c.len() - i,
    {
        let b = c[i];
        if !((0x30 <= b && b <= 0x39) || (0x41 <= b && b <= 0x5A) || (0x61 <= b && b <= 0x7A) || b
            == 0x2D || b == 0x5F) {
            return false;
        }
        i += 1;
    }
    true
}

fn push_utf8(s: &mut String, b: &[u8])
    ensures
        final(s)@ == old(s)@ + utf8_chars(b@),
{
    match core::str::from_utf8(b) {
        Ok(text) => {
            proof {
                encode_utf8_decode_utf8(text@);
            }
            push_str(s, text);
        },
        Err(_) => {},
    }
}

pub fn parse_browser_input(body: &[u8]) -> (input: Result<BrowserInput, ProtocolError>)
    ensures
        match (input, browser_input_parse(body@)) {
            (Ok(i), Ok(v)) => i@ == v,
            (Err(e), Err(m)) => e@ == m,
            _ => false,
        },
{
    if body.len() > BROWSER_INPUT_MAX_BYTES {
        return Err(ProtocolError::new(owned("browser input message exceeded 128 bytes")));
    }
    if core::str::from_utf8(body).is_err() {
        return Err(ProtocolError::new(owned("browser input message was not UTF-8")));
    }
    let ranges = field_ranges(body);
    if ranges.len() != 3 {
        return Err(
            ProtocolError::new(owned("browser input message must contain `client kind code`")),
        );
    }
    let client_bytes: &[u8] = &body[ranges[0].0..ranges[0].1];
    let kind: &[u8] = &body[ranges[1].0..ranges[1].1];
    let code: &[u8] = &body[ranges[2].0..ranges[2].1];
    assert(client_bytes@ == fields(body@)[0]);
    assert(kind@ == fields(body@)[1]);
    assert(code@ == fields(body@)[2]);
    if !is_client_identifier(client_bytes) {
        return Err(ProtocolError::new(owned("invalid browser input client identifier")));
    }
    let mut client = String::new();
    push_ascii(&mut client, client_bytes);
    assert(client@ == ascii_chars(client_bytes@));
    let down: [u8; 4] = [0x64u8, 0x6Fu8, 0x77u8, 0x6Eu8];
    let up: [u8; 2] = [0x75u8, 0x70u8];
    let release: [u8; 7] = [0x72u8, 0x65u8, 0x6Cu8, 0x65u8, 0x61u8, 0x73u8, 0x65u8];
    let heartbeat: [u8; 9] = [0x68u8, 0x65u8, 0x61u8, 0x72u8, 0x74u8, 0x62u8, 0x65u8, 0x61u8, 0x74u8];
    let dash: [u8; 1] = [0x2Du8];
    assert(down@ == bytes_down());
    assert(up@ == bytes_up());
    assert(release@ == bytes_release());
    assert(heartbeat@ == bytes_heartbeat());
    assert(dash@ == bytes_dash());
    let is_down = bytes_equal(kind, &down);
    let is_up = bytes_equal(kind, &up);
    let is_release = bytes_equal(kind, &release);
    let is_heartbeat = bytes_equal(kind, &heartbeat);
    let is_dash = bytes_equal(code, &dash);
    if is_down || is_up {
        match Key::from_code_bytes(code) {
            Some(key) => Ok(BrowserInput::Key { client, key, down: is_down }),
            None => Ok(BrowserInput::UnsupportedKey { client }),
        }
    } else if is_release && is_dash {
        Ok(BrowserInput::ReleaseAll { client })
    } else if is_heartbeat && is_dash {
        Ok(BrowserInput::Heartbeat { client })
    } else if is_release || is_heartbeat {
        Err(
            ProtocolError::new(
                owned("release and heartbeat messages must use `-` as their code"),
            ),
        )
    } else {
        let mut text = owned("unsupported browser input message kind `");
        push_utf8(&mut text, kind);
        push_str(&mut text, "`");
        Err(ProtocolError::new(text))
    }
}

} // verus!
