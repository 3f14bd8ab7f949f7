use speck::audio_assets::{next_chunk, take_chunk};
use speck::audio_assets::{little_u16, little_u32, read_bounded, validate, MAX_SAMPLES, MAX_WAV_BYTES};

fn wav(samples: &[i16]) -> Vec<u8> {
    let data_len = u32::try_from(samples.len() * 2).unwrap();
    let mut bytes = Vec::new();
    bytes.extend_from_slice(b"RIFF");
    bytes.extend_from_slice(&(36 + data_len).to_le_bytes());
    bytes.extend_from_slice(b"WAVEfmt ");
    bytes.extend_from_slice(&16u32.to_le_bytes());
    bytes.extend_from_slice(&1u16.to_le_bytes());
    bytes.extend_from_slice(&1u16.to_le_bytes());
    bytes.extend_from_slice(&48_000u32.to_le_bytes());
    bytes.extend_from_slice(&96_000u32.to_le_bytes());
    bytes.extend_from_slice(&2u16.to_le_bytes());
    bytes.extend_from_slice(&16u16.to_le_bytes());
    bytes.extend_from_slice(b"data");
    bytes.extend_from_slice(&data_len.to_le_bytes());
    for sample in samples {
        bytes.extend_from_slice(&sample.to_le_bytes());
    }
    bytes
}

#[test]
fn encoded_read_stops_at_the_limit_even_when_the_input_keeps_growing() {
    let bytes = read_bounded(std::io::repeat(0)).unwrap();
    assert_eq!(bytes.len() as u64, MAX_WAV_BYTES + 1);
}

#[test]
fn validates_the_bounded_pcm_subset_and_extracts_samples() {
    let bytes = wav(&[-32768, 0, 32767]);
    assert_eq!(validate(&bytes).unwrap(), bytes[44..]);
    let mut wrong_rate = bytes.clone();
    wrong_rate[24..28].copy_from_slice(&44_100u32.to_le_bytes());
    assert_eq!(validate(&wrong_rate), Err("PCM sample rate must be 48000 Hz"));
    let mut truncated = bytes;
    truncated.pop();
    assert_eq!(validate(&truncated), Err("RIFF size does not match the file length"));
}

#[test]
fn rejects_decoded_audio_beyond_three_minutes() {
    let samples = vec![0; MAX_SAMPLES + 1];
    assert_eq!(
        validate(&wav(&samples)),
        Err("decoded audio exceeds the 180 second duration limit")
    );
}

#[test]
fn short_reads_return_the_whole_input() {
    let input: Vec<u8> = (0..1000u32).map(|i| (i % 7) as u8).collect();
    let bytes = read_bounded(std::io::Cursor::new(input.clone())).unwrap();
    assert_eq!(bytes, input);
}

#[test]
fn three_minutes_exactly_is_accepted() {
    let samples = vec![1; MAX_SAMPLES];
    let bytes = wav(&samples);
    assert_eq!(validate(&bytes).unwrap().len(), MAX_SAMPLES * 2);
}

#[test]
fn each_refusal_names_its_reason() {
    assert_eq!(validate(b"RIFX"), Err("expected a RIFF/WAVE file"));
    let good = wav(&[5]);
    let mut stereo = good.clone();
    stereo[22..24].copy_from_slice(&2u16.to_le_bytes());
    assert_eq!(validate(&stereo), Err("PCM must have exactly one channel"));
    let mut compressed = good.clone();
    compressed[20..22].copy_from_slice(&3u16.to_le_bytes());
    assert_eq!(validate(&compressed), Err("audio format must be uncompressed PCM (format 1)"));
    let mut eight_bit = good.clone();
    eight_bit[34..36].copy_from_slice(&8u16.to_le_bytes());
    assert_eq!(validate(&eight_bit), Err("PCM samples must be 16-bit"));
    let mut wrong_rate = good.clone();
    wrong_rate[28..32].copy_from_slice(&1u32.to_le_bytes());
    assert_eq!(
        validate(&wrong_rate),
        Err("PCM byte rate and block alignment must match mono PCM16")
    );
    assert_eq!(validate(&wav(&[])), Err("PCM data must contain at least one sample"));
}

#[test]
fn missing_chunks_are_reported() {
    let mut no_data = Vec::new();
    no_data.extend_from_slice(b"RIFF");
    no_data.extend_from_slice(&28u32.to_le_bytes());
    no_data.extend_from_slice(b"WAVEfmt ");
    no_data.extend_from_slice(&16u32.to_le_bytes());
    no_data.extend_from_slice(&1u16.to_le_bytes());
    no_data.extend_from_slice(&1u16.to_le_bytes());
    no_data.extend_from_slice(&48_000u32.to_le_bytes());
    no_data.extend_from_slice(&96_000u32.to_le_bytes());
    no_data.extend_from_slice(&2u16.to_le_bytes());
    no_data.extend_from_slice(&16u16.to_le_bytes());
    assert_eq!(validate(&no_data), Err("missing `data` chunk"));
}

#[test]
fn little_endian_integers_read_in_place() {
    let bytes = [0x34u8, 0x12, 0x78, 0x56];
    assert_eq!(little_u16(&bytes, 0), Ok(0x1234));
    assert_eq!(little_u32(&bytes, 0), Ok(0x5678_1234));
    assert_eq!(little_u16(&bytes, 3), Err("truncated WAV integer"));
    assert_eq!(little_u32(&bytes, 1), Err("truncated WAV integer"));
}

#[test]
fn bounded_reads_take_chunks_up_to_one_past_the_limit() {
    assert_eq!(next_chunk(0), 8192);
    let limit = MAX_WAV_BYTES as usize + 1;
    assert_eq!(next_chunk(limit - 100), 100);
    let mut bytes = vec![1u8, 2];
    assert!(take_chunk(&mut bytes, &[3, 4]));
    assert_eq!(bytes, vec![1, 2, 3, 4]);
    assert!(!take_chunk(&mut bytes, &[]));
    assert_eq!(bytes, vec![1, 2, 3, 4]);
    let mut full = vec![0u8; limit - 2];
    assert!(!take_chunk(&mut full, &[9, 9]));
    assert_eq!(full.len(), limit);
}
