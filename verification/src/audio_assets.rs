//! Validation of the bounded mono PCM16 WAV subset accepted as sound assets.
use vstd::prelude::*;

use crate::reading::read_some;
use crate::text::{bytes_equal, extend_bytes};

verus! {

/// Largest encoded sound asset, in bytes.
pub const MAX_WAV_BYTES: u64 = 33554432;

/// Largest decoded sound asset: three minutes of 48 kHz samples.
pub const MAX_SAMPLES: usize = 8640000;

/// Whether an encoded asset of `len` bytes is within the size limit.
pub fn encoded_size_allowed(len: u64) -> (allowed: bool)
    ensures
        allowed == (len <= MAX_WAV_BYTES),
{
    len <= MAX_WAV_BYTES
}

/// How many bytes reading an asset keeps at most: one past the limit, so that a larger input
/// is seen as too large.
pub open spec fn read_limit() -> nat {
    MAX_WAV_BYTES as nat + 1
}

/// How many bytes the next read asks for once `len` bytes are held: 8192, or what is left
/// before one byte past the limit.
pub open spec fn chunk_wanted(len: nat) -> nat {
    if read_limit() - len < 8192 {
        (read_limit() - len) as nat
    } else {
        8192
    }
}

/// The size of the next read, as `chunk_wanted` says.
pub fn next_chunk(len: usize) -> (want: usize)
    requires
        len < read_limit(),
    ensures
        want == chunk_wanted(len as nat),
        0 < want <= 8192,
{
    let limit: usize = (MAX_WAV_BYTES + 1) as usize;
    let remaining = limit - len;
    if remaining < 8192 {
        remaining
    } else {
        8192
    }
}

/// Takes what one read gave: no bytes ends the input; otherwise they are appended, and reading
/// goes on while fewer bytes than one past the limit are held.
pub fn take_chunk(bytes: &mut Vec<u8>, chunk: &[u8]) -> (more: bool)
    requires
        old(bytes)@.len() < read_limit(),
        chunk@.len() <= chunk_wanted(old(bytes)@.len()),
    ensures
        chunk@.len() == 0 ==> !more && final(bytes)@ == old(bytes)@,
        chunk@.len() > 0 ==> final(bytes)@ == old(bytes)@ + chunk@ && more == (final(bytes)@.len() < read_limit()),
        final(bytes)@.len() <= read_limit(),
{
    if chunk.len() == 0 {
        return false;
    }
    extend_bytes(bytes, chunk);
    bytes.len() < (MAX_WAV_BYTES + 1) as usize
}

/// Reads the whole input, stopping after one byte more than [`MAX_WAV_BYTES`] so that an input
/// that keeps growing is still seen as too large without being read in full. Each read asks
/// for `next_chunk` bytes and its bytes go through `take_chunk`; a failed read ends with its
/// error.
pub fn read_bounded<R: std::io::Read>(reader: R) -> (bytes: Result<Vec<u8>, std::io::Error>)
    ensures
        bytes matches Ok(b) ==> b@.len() <= MAX_WAV_BYTES + 1,
{
    let mut reader = reader;
    let limit: usize = (MAX_WAV_BYTES + 1) as usize;
    let mut bytes: Vec<u8> = Vec::new();
    while bytes.len() < limit
        invariant
            limit == read_limit(),
            bytes@.len() <= limit,
        decreases limit - bytes@.len(),
    {
        let want = next_chunk(bytes.len());
        let mut chunk: Vec<u8> = vec![0u8; want];
        let read = read_some(&mut reader, &mut chunk);
        match read {
            Ok(n) => {
                let more = take_chunk(&mut bytes, &chunk.as_slice()[0..n]);
                if !more {
                    return Ok(bytes);
                }
            },
            Err(error) => {
                return Err(error);
            },
        }
    }
    Ok(bytes)
}

/// The little-endian `u16` at `at`.
pub open spec fn le_u16_at(s: Seq<u8>, at: int) -> int {
    s[at] + 256 * s[at + 1]
}

/// The little-endian `u32` at `at`.
pub open spec fn le_u32_at(s: Seq<u8>, at: int) -> int {
    s[at] + 256 * s[at + 1] + 65536 * s[at + 2] + 16777216 * s[at + 3]
}

pub open spec fn riff_id() -> Seq<u8> {
    seq![0x52u8, 0x49u8, 0x46u8, 0x46u8]
}

pub open spec fn wave_id() -> Seq<u8> {
    seq![0x57u8, 0x41u8, 0x56u8, 0x45u8]
}

pub open spec fn fmt_id() -> Seq<u8> {
    seq![0x66u8, 0x6Du8, 0x74u8, 0x20u8]
}

pub open spec fn data_id() -> Seq<u8> {
    seq![0x64u8, 0x61u8, 0x74u8, 0x61u8]
}

/// Walks the RIFF chunks from `cursor`, collecting the `fmt ` chunk as (payload start, size)
/// and the `data` chunk as (payload start, payload end).
pub open spec fn chunk_walk(
    b: Seq<u8>,
    cursor: int,
    format: Option<(int, int)>,
    data: Option<(int, int)>,
) -> Result<(Option<(int, int)>, Option<(int, int)>), Seq<char>>
    decreases b.len() - cursor,
{
    if cursor >= b.len() {
        Ok((format, data))
    } else if cursor + 8 > usize::MAX {
        Err("chunk offset overflow"@)
    } else if cursor + 8 > b.len() {
        Err("truncated WAV chunk header"@)
    } else {
        let size = le_u32_at(b, cursor + 4);
        let payload_end = cursor + 8 + size;
        if payload_end > usize::MAX {
            Err("chunk size overflow"@)
        } else if payload_end > b.len() {
            Err("WAV chunk extends beyond the RIFF data"@)
        } else {
            let id = b.subrange(cursor, cursor + 4);
            let step: Result<(Option<(int, int)>, Option<(int, int)>), Seq<char>> = if id
                == fmt_id() {
                if format is Some {
                    Err("contains more than one `fmt ` chunk"@)
                } else {
                    Ok((Some((cursor + 8, size)), data))
                }
            } else if id == data_id() {
                if data is Some {
                    Err("contains more than one `data` chunk"@)
                } else {
                    Ok((format, Some((cursor + 8, payload_end))))
                }
            } else {
                Ok((format, data))
            };
            match step {
                Err(e) => Err(e),
                Ok((f, d)) => {
                    let next = payload_end + size % 2;
                    if next > usize::MAX {
                        Err("chunk padding overflow"@)
                    } else if next > b.len() {
                        Err("truncated WAV chunk padding"@)
                    } else {
                        chunk_walk(b, next, f, d)
                    }
                },
            }
        }
    }
}

/// Checks of the `fmt ` chunk that starts at `start` and has `size` bytes.
pub open spec fn format_check(b: Seq<u8>, start: int, size: int) -> Option<Seq<char>> {
    if size < 16 {
        Some("`fmt ` chunk is shorter than 16 bytes"@)
    } else if le_u16_at(b, start) != 1 {
        Some("audio format must be uncompressed PCM (format 1)"@)
    } else if le_u16_at(b, start + 2) != 1 {
        Some("PCM must have exactly one channel"@)
    } else if le_u32_at(b, start + 4) != 48000 {
        Some("PCM sample rate must be 48000 Hz"@)
    } else if le_u32_at(b, start + 8) != 96000 || le_u16_at(b, start + 12) != 2 {
        Some("PCM byte rate and block alignment must match mono PCM16"@)
    } else if le_u16_at(b, start + 14) != 16 {
        Some("PCM samples must be 16-bit"@)
    } else {
        None
    }
}

/// What validating a WAV file gives: its PCM sample bytes or the reason it is refused.
pub open spec fn wav_validation(b: Seq<u8>) -> Result<Seq<u8>, Seq<char>> {
    if b.len() < 12 || b.subrange(0, 4) != riff_id() || b.subrange(8, 12) != wave_id() {
        Err("expected a RIFF/WAVE file"@)
    } else if le_u32_at(b, 4) + 8 != b.len() {
        Err("RIFF size does not match the file length"@)
    } else {
        match chunk_walk(b, 12, None, None) {
            Err(e) => Err(e),
            Ok((format, data)) => match format {
                None => Err("missing `fmt ` chunk"@),
                Some((format_start, format_size)) => match format_check(
                    b,
                    format_start,
                    format_size,
                ) {
                    Some(e) => Err(e),
                    None => match data {
                        None => Err("missing `data` chunk"@),
                        Some((start, end)) => {
                            let len = end - start;
                            if len == 0 {
                                Err("PCM data must contain at least one sample"@)
                            } else if len % 2 != 0 {
                                Err("PCM data length must be a whole number of 16-bit samples"@)
                            } else if len / 2 > MAX_SAMPLES {
                                Err("decoded audio exceeds the 180 second duration limit"@)
                            } else {
                                Ok(b.subrange(start, end))
                            }
                        },
                    },
                },
            },
        }
    }
}

pub fn little_u16(bytes: &[u8], offset: usize) -> (value: Result<u16, &'static str>)
    requires
        offset + 2 <= usize::MAX,
    ensures
        value is Ok <==> offset + 2 <= bytes@.len(),
        value matches Ok(v) ==> v == le_u16_at(bytes@, offset as int),
        value matches Err(e) ==> e@ == "truncated WAV integer"@,
{
    if offset + 2 > bytes.len() {
        return Err("truncated WAV integer");
    }
    Ok(bytes[offset] as u16 + 256 * (bytes[offset + 1] as u16))
}

pub fn little_u32(bytes: &[u8], offset: usize) -> (value: Result<u32, &'static str>)
    requires
        offset + 4 <= usize::MAX,
    ensures
        value is Ok <==> offset + 4 <= bytes@.len(),
        value matches Ok(v) ==> v == le_u32_at(bytes@, offset as int),
        value matches Err(e) ==> e@ == "truncated WAV integer"@,
{
    if offset + 4 > bytes.len() {
        return Err("truncated WAV integer");
    }
    Ok(bytes[offset] as u32 + 256 * (bytes[offset + 1] as u32) + 65536 * (bytes[offset + 2] as u32)
        + 16777216 * (bytes[offset + 3] as u32))
}

/// A pair of offsets as integers.
pub open spec fn pair_view(o: Option<(usize, usize)>) -> Option<(int, int)> {
    match o {
        Some((x, y)) => Some((x as int, y as int)),
        None => None,
    }
}

/// Validates a mono 48 kHz PCM16 WAV file and returns its sample bytes.
pub fn validate(bytes: &[u8]) -> (samples: Result<Vec<u8>, &'static str>)
    ensures
        match (samples, wav_validation(bytes@)) {
            (Ok(v), Ok(s)) => v@ == s,
            (Err(e), Err(m)) => e@ == m,
            _ => false,
        },
{
    let riff: [u8; 4] = [0x52u8, 0x49u8, 0x46u8, 0x46u8];
    let wave: [u8; 4] = [0x57u8, 0x41u8, 0x56u8, 0x45u8];
    let fmt: [u8; 4] = [0x66u8, 0x6Du8, 0x74u8, 0x20u8];
    let data_tag: [u8; 4] = [0x64u8, 0x61u8, 0x74u8, 0x61u8];
    assert(riff@ == riff_id() && wave@ == wave_id() && fmt@ == fmt_id() && data_tag@ == data_id());
    if bytes.len() < 12 || !bytes_equal(&bytes[0..4], &riff) || !bytes_equal(&bytes[8..12], &wave) {
        return Err("expected a RIFF/WAVE file");
    }
    let riff_size = little_u32(bytes, 4)? as usize;
    if riff_size > usize::MAX - 8 || riff_size + 8 != bytes.len() {
        return Err("RIFF size does not match the file length");
    }
    let mut cursor: usize = 12;
    let mut format: Option<(usize, usize)> = None;
    let mut data: Option<(usize, usize)> = None;
    while cursor < bytes.len()
        invariant
            12 <= cursor,
            bytes@.len() >= 12,
            bytes@.subrange(0, 4) == riff_id(),
            bytes@.subrange(8, 12) == wave_id(),
            le_u32_at(bytes@, 4) + 8 == bytes@.len(),
            fmt@ == fmt_id(),
            data_tag@ == data_id(),
            chunk_walk(bytes@, 12, None, None) == chunk_walk(
                bytes@,
                cursor as int,
                pair_view(format),
                pair_view(data),
            ),
            format matches Some((s, z)) ==> s + z <= bytes@.len() && s >= 8,
            data matches Some((s, e)) ==> s <= e <= bytes@.len(),
        decreases bytes.len() - cursor,
    {
        proof {
            reveal_with_fuel(chunk_walk, 2);
        }
        if cursor > usize::MAX - 8 {
            assert(chunk_walk(bytes@, cursor as int, pair_view(format), pair_view(data)) == Err::<
                (Option<(int, int)>, Option<(int, int)>),
                Seq<char>,
            >("chunk offset overflow"@));
            return Err("chunk offset overflow");
        }
        let header_end = cursor + 8;
        if header_end > bytes.len() {
            assert(chunk_walk(bytes@, cursor as int, pair_view(format), pair_view(data)) == Err::<
                (Option<(int, int)>, Option<(int, int)>),
                Seq<char>,
            >("truncated WAV chunk header"@));
            return Err("truncated WAV chunk header");
        }
        let size = little_u32(bytes, cursor + 4)? as usize;
        let ghost f0 = pair_view(format);
        let ghost d0 = pair_view(data);
        let ghost c0 = cursor as int;
        assert(size == le_u32_at(bytes@, c0 + 4));
        if size > usize::MAX - header_end {
            return Err("chunk size overflow");
        }
        let payload_end = header_end + size;
        if payload_end > bytes.len() {
            return Err("WAV chunk extends beyond the RIFF data");
        }
        let id: &[u8] = &bytes[cursor..cursor + 4];
        assert(id@ == bytes@.subrange(c0, c0 + 4));
        if bytes_equal(id, &fmt) {
            if format.is_some() {
                assert(chunk_walk(bytes@, c0, f0, d0) == Err::<
                    (Option<(int, int)>, Option<(int, int)>),
                    Seq<char>,
                >("contains more than one `fmt ` chunk"@));
                return Err("contains more than one `fmt ` chunk");
            }
            format = Some((header_end, size));
        } else if bytes_equal(id, &data_tag) {
            if data.is_some() {
                assert(chunk_walk(bytes@, c0, f0, d0) == Err::<
                    (Option<(int, int)>, Option<(int, int)>),
                    Seq<char>,
                >("contains more than one `data` chunk"@));
                return Err("contains more than one `data` chunk");
            }
            data = Some((header_end, payload_end));
        }
        assert(pair_view(format) == (if id@ == fmt_id() { Some((c0 + 8, size as int)) } else { f0 }));
        assert(pair_view(data) == (if id@ != fmt_id() && id@ == data_id() {
            Some((c0 + 8, payload_end as int))
        } else {
            d0
        }));
        let padding = size % 2;
        if padding > usize::MAX - payload_end {
            assert(chunk_walk(bytes@, c0, f0, d0) == Err::<
                (Option<(int, int)>, Option<(int, int)>),
                Seq<char>,
            >("chunk padding overflow"@));
            return Err("chunk padding overflow");
        }
        cursor = payload_end + padding;
        if cursor > bytes.len() {
            assert(chunk_walk(bytes@, c0, f0, d0) == Err::<
                (Option<(int, int)>, Option<(int, int)>),
                Seq<char>,
            >("truncated WAV chunk padding"@));
            return Err("truncated WAV chunk padding");
        }
        assert(chunk_walk(bytes@, c0, f0, d0) == chunk_walk(
            bytes@,
            cursor as int,
            pair_view(format),
            pair_view(data),
        ));
    }
    let (format_start, format_size) = match format {
        Some(f) => f,
        None => {
            return Err("missing `fmt ` chunk");
        },
    };
    if format_size < 16 {
        return Err("`fmt ` chunk is shorter than 16 bytes");
    }
    if little_u16(bytes, format_start)? != 1 {
        return Err("audio format must be uncompressed PCM (format 1)");
    }
    if little_u16(bytes, format_start + 2)? != 1 {
        return Err("PCM must have exactly one channel");
    }
    if little_u32(bytes, format_start + 4)? != 48000 {
        return Err("PCM sample rate must be 48000 Hz");
    }
    if little_u32(bytes, format_start + 8)? != 96000 || little_u16(bytes, format_start + 12)? != 2 {
        return Err("PCM byte rate and block alignment must match mono PCM16");
    }
    if little_u16(bytes, format_start + 14)? != 16 {
        return Err("PCM samples must be 16-bit");
    }
    let (data_start, data_end) = match data {
        Some(d) => d,
        None => {
            return Err("missing `data` chunk");
        },
    };
    let data_len = data_end - data_start;
    if data_len == 0 {
        return Err("PCM data must contain at least one sample");
    }
    if data_len % 2 != 0 {
        return Err("PCM data length must be a whole number of 16-bit samples");
    }
    if data_len / 2 > MAX_SAMPLES {
        return Err("decoded audio exceeds the 180 second duration limit");
    }
    let mut samples: Vec<u8> = Vec::new();
    extend_bytes(&mut samples, &bytes[data_start..data_end]);
    Ok(samples)
}


/// A chunk whose id is neither `fmt ` nor `data` is skipped: walking the chunks from its start
/// gives exactly what walking from its end (after its padding byte) gives.
pub proof fn lemma_other_chunks_are_skipped(
    b: Seq<u8>,
    cursor: int,
    format: Option<(int, int)>,
    data: Option<(int, int)>,
)
    requires
        0 <= cursor,
        cursor + 8 <= b.len() <= usize::MAX,
        b.subrange(cursor, cursor + 4) != fmt_id(),
        b.subrange(cursor, cursor + 4) != data_id(),
        cursor + 8 + le_u32_at(b, cursor + 4) + le_u32_at(b, cursor + 4) % 2 <= b.len(),
    ensures
        chunk_walk(b, cursor, format, data) == chunk_walk(
            b,
            cursor + 8 + le_u32_at(b, cursor + 4) + le_u32_at(b, cursor + 4) % 2,
            format,
            data,
        ),
{
}


/// Whether `c` is one whole chunk whose id is neither `fmt ` nor `data`: an id, a size, that
/// many payload bytes, and a padding byte when the size is odd.
pub open spec fn other_chunk(c: Seq<u8>) -> bool {
    &&& c.len() >= 8
    &&& c.subrange(0, 4) != fmt_id()
    &&& c.subrange(0, 4) != data_id()
    &&& c.len() == 8 + le_u32_at(c, 4) + le_u32_at(c, 4) % 2
}

/// Whether the chunk walk's findings lie inside the first `len` bytes, after the RIFF header.
pub open spec fn found_within(format: Option<(int, int)>, data: Option<(int, int)>, len: int) -> bool {
    &&& format matches Some((s, z)) ==> 20 <= s && 0 <= z && s + z <= len
    &&& data matches Some((s, e)) ==> 20 <= s <= e <= len
}

proof fn lemma_walk_within(b: Seq<u8>, cursor: int, format: Option<(int, int)>, data: Option<(int, int)>)
    requires
        12 <= cursor,
        found_within(format, data, b.len() as int),
    ensures
        chunk_walk(b, cursor, format, data) matches Ok((f, d)) ==> found_within(f, d, b.len() as int),
    decreases b.len() - cursor,
{
    if cursor < b.len() && cursor + 8 <= usize::MAX && cursor + 8 <= b.len() {
        let size = le_u32_at(b, cursor + 4);
        let payload_end = cursor + 8 + size;
        let next = payload_end + size % 2;
        if payload_end <= usize::MAX && payload_end <= b.len() && next <= usize::MAX && next <= b.len() {
            let id = b.subrange(cursor, cursor + 4);
            if id == fmt_id() {
                if format is None {
                    lemma_walk_within(b, next, Some((cursor + 8, size)), data);
                }
            } else if id == data_id() {
                if data is None {
                    lemma_walk_within(b, next, format, Some((cursor + 8, payload_end)));
                }
            } else {
                lemma_walk_within(b, next, format, data);
            }
        }
    }
}

/// A walk over `b` that succeeds takes the same steps over a longer `g` that has the same bytes
/// from the RIFF header's end up to `b`'s end, and arrives at `b`'s end with the same findings.
proof fn lemma_walk_extends(
    b: Seq<u8>,
    g: Seq<u8>,
    cursor: int,
    format: Option<(int, int)>,
    data: Option<(int, int)>,
)
    requires
        12 <= cursor <= b.len() <= g.len() <= usize::MAX,
        forall|i: int| 12 <= i < b.len() ==> g[i] == b[i],
        chunk_walk(b, cursor, format, data) is Ok,
    ensures
        chunk_walk(g, cursor, format, data) == chunk_walk(
            g,
            b.len() as int,
            chunk_walk(b, cursor, format, data)->Ok_0.0,
            chunk_walk(b, cursor, format, data)->Ok_0.1,
        ),
    decreases b.len() - cursor,
{
    if cursor < b.len() {
        let size = le_u32_at(b, cursor + 4);
        assert(le_u32_at(g, cursor + 4) == size);
        assert(g.subrange(cursor, cursor + 4) =~= b.subrange(cursor, cursor + 4));
        let payload_end = cursor + 8 + size;
        let next = payload_end + size % 2;
        let id = b.subrange(cursor, cursor + 4);
        if id == fmt_id() {
            lemma_walk_extends(b, g, next, Some((cursor + 8, size)), data);
        } else if id == data_id() {
            lemma_walk_extends(b, g, next, format, Some((cursor + 8, payload_end)));
        } else {
            lemma_walk_extends(b, g, next, format, data);
        }
    }
}

/// Inserting, at the end of a WAV file, a whole chunk whose id is neither `fmt ` nor `data`
/// (and growing the RIFF size by its length) leaves what validating the file gives unchanged.
pub proof fn lemma_other_chunk_leaves_validation(b: Seq<u8>, g: Seq<u8>, c: Seq<u8>)
    requires
        wav_validation(b) is Ok,
        other_chunk(c),
        g.len() == b.len() + c.len(),
        g.len() <= usize::MAX,
        g.subrange(0, 4) == b.subrange(0, 4),
        g.subrange(8, b.len() as int) == b.subrange(8, b.len() as int),
        g.subrange(b.len() as int, g.len() as int) == c,
        le_u32_at(g, 4) + 8 == g.len(),
    ensures
        wav_validation(g) == wav_validation(b),
{
    let n = b.len() as int;
    assert(g.subrange(8, 12) =~= b.subrange(8, 12)) by {
        assert forall|i: int| 0 <= i < 4 implies g.subrange(8, 12)[i] == b.subrange(8, 12)[i] by {
            assert(g.subrange(8, n)[i] == b.subrange(8, n)[i]);
        }
    }
    assert forall|i: int| 12 <= i < n implies g[i] == b[i] by {
        assert(g.subrange(8, n)[i - 8] == b.subrange(8, n)[i - 8]);
    }
    assert forall|i: int| 0 <= i < c.len() implies g[n + i] == c[i] by {
        assert(g.subrange(n, g.len() as int)[i] == c[i]);
    }
    lemma_walk_within(b, 12, None, None);
    lemma_walk_extends(b, g, 12, None, None);
    let found = chunk_walk(b, 12, None, None)->Ok_0;
    assert(g.subrange(n, n + 4) =~= c.subrange(0, 4));
    assert(le_u32_at(g, n + 4) == le_u32_at(c, 4));
    lemma_other_chunks_are_skipped(g, n, found.0, found.1);
    assert(chunk_walk(g, 12, None, None) == Ok::<(Option<(int, int)>, Option<(int, int)>), Seq<char>>(found));
    match found.0 {
        Some((start, size)) => {
            if size >= 16 {
                assert(le_u16_at(g, start) == le_u16_at(b, start));
                assert(le_u16_at(g, start + 2) == le_u16_at(b, start + 2));
                assert(le_u32_at(g, start + 4) == le_u32_at(b, start + 4));
                assert(le_u32_at(g, start + 8) == le_u32_at(b, start + 8));
                assert(le_u16_at(g, start + 12) == le_u16_at(b, start + 12));
                assert(le_u16_at(g, start + 14) == le_u16_at(b, start + 14));
            }
        },
        None => {},
    }
    match found.1 {
        Some((start, end)) => {
            assert(g.subrange(start, end) =~= b.subrange(start, end));
        },
        None => {},
    }
}

} // verus!
