use chronicle_data_api::audio::chunk_listing;
use chronicle_data_api::audio::{assemble_chunks, chunk_seq_from_key, encode_wav, legacy_chunk_key, mix_s16le, CHUNK_SIZE};

#[test]
fn wav_header_layout() {
    let pcm = [1u8, 2, 3, 4];
    let wav = encode_wav(&pcm, 48_000, 2, 16);
    assert_eq!(wav.len(), 48);
    assert_eq!(&wav[0..4], b"RIFF");
    assert_eq!(&wav[4..8], &40u32.to_le_bytes());
    assert_eq!(&wav[8..12], b"WAVE");
    assert_eq!(&wav[12..16], b"fmt ");
    assert_eq!(&wav[16..20], &16u32.to_le_bytes());
    assert_eq!(&wav[20..22], &1u16.to_le_bytes());
    assert_eq!(&wav[22..24], &2u16.to_le_bytes());
    assert_eq!(&wav[24..28], &48_000u32.to_le_bytes());
    assert_eq!(&wav[28..32], &192_000u32.to_le_bytes());
    assert_eq!(&wav[32..34], &4u16.to_le_bytes());
    assert_eq!(&wav[34..36], &16u16.to_le_bytes());
    assert_eq!(&wav[36..40], b"data");
    assert_eq!(&wav[40..44], &4u32.to_le_bytes());
    assert_eq!(&wav[44..], &pcm);
}

#[test]
fn wav_of_empty_pcm_is_header_only() {
    let wav = encode_wav(&[], 8_000, 1, 8);
    assert_eq!(wav.len(), 44);
    assert_eq!(&wav[28..32], &8_000u32.to_le_bytes());
    assert_eq!(&wav[32..34], &1u16.to_le_bytes());
}

fn samples(xs: &[i16]) -> Vec<u8> {
    xs.iter().flat_map(|x| x.to_le_bytes()).collect()
}

#[test]
fn mixing_adds_with_saturation() {
    let a = samples(&[100, 30_000, -30_000, -1]);
    let b = samples(&[-50, 10_000, -10_000, 1]);
    let out = mix_s16le(&vec![a, b], 0, 8);
    assert_eq!(out, samples(&[50, 32_767, -32_768, 0]));
}

#[test]
fn mixing_saturates_after_each_speaker() {
    // 30000 + 30000 saturates to 32767, then -30000 brings it to 2767.
    let bufs = vec![samples(&[30_000]), samples(&[30_000]), samples(&[-30_000])];
    assert_eq!(mix_s16le(&bufs, 0, 2), samples(&[2_767]));
}

#[test]
fn mixing_window_and_odd_length() {
    let a = samples(&[1, 2, 3]);
    // from byte 2, five bytes: two whole samples, the odd byte dropped
    assert_eq!(mix_s16le(&vec![a], 2, 5), samples(&[2, 3]));
    assert!(mix_s16le(&vec![], 0, 4) == samples(&[0, 0]));
}

#[test]
fn chunks_are_laid_end_to_end() {
    let chunks = vec![Some(vec![1u8, 2, 3]), None, Some(vec![9u8])];
    let buf = assemble_chunks(&chunks);
    assert_eq!(buf.len(), 3 * CHUNK_SIZE);
    assert_eq!(&buf[0..4], &[1, 2, 3, 0]);
    assert!(buf[CHUNK_SIZE..2 * CHUNK_SIZE].iter().all(|b| *b == 0));
    assert_eq!(buf[2 * CHUNK_SIZE], 9);
    assert_eq!(buf[2 * CHUNK_SIZE + 1], 0);
}

#[test]
fn legacy_keys_round_trip() {
    let k = legacy_chunk_key("pfx", "speaker", 12);
    assert_eq!(k, "sessions/pfx/audio/speaker/chunk_0012.pcm");
    assert_eq!(chunk_seq_from_key(&k), Some(12));
    assert_eq!(chunk_seq_from_key("a/b/chunk_123456.pcm"), Some(123_456));
    assert_eq!(chunk_seq_from_key("chunk_+7.pcm"), Some(7));
    assert_eq!(chunk_seq_from_key("a/chunk_.pcm"), None);
    assert_eq!(chunk_seq_from_key("a/chunk_x.pcm"), None);
    assert_eq!(chunk_seq_from_key("a/chunk_5.wav"), None);
    assert_eq!(chunk_seq_from_key("a/chunk_4294967296.pcm"), None);
    assert_eq!(chunk_seq_from_key("chunk_4294967295.pcm"), Some(u32::MAX));
    assert_eq!(chunk_seq_from_key("a/chunk_5.pcm/"), None);
    assert_eq!(chunk_seq_from_key("x/mix_5.pcm"), None);
}

#[test]
fn listing_sorts_by_seq_stably() {
    let objs = vec![
        (Some("s/a/chunk_0003.pcm".to_string()), Some(30)),
        (Some("s/a/notes.txt".to_string()), Some(1)),
        (None, Some(5)),
        (Some("s/a/chunk_0001.pcm".to_string()), None),
        (Some("s/b/chunk_3.pcm".to_string()), Some(33)),
        (Some("s/a/chunk_0002.pcm".to_string()), Some(20)),
    ];
    let out = chunk_listing(&objs);
    let got: Vec<(String, u32, i64)> = out.into_iter().map(|c| (c.key, c.seq, c.size)).collect();
    assert_eq!(
        got,
        vec![
            ("s/a/chunk_0001.pcm".to_string(), 1, 0),
            ("s/a/chunk_0002.pcm".to_string(), 2, 20),
            ("s/a/chunk_0003.pcm".to_string(), 3, 30),
            ("s/b/chunk_3.pcm".to_string(), 3, 33),
        ]
    );
    assert!(chunk_listing(&vec![]).is_empty());
}

#[test]
fn single_speaker_mix_is_identity() {
    let a = vec![1u8, 2, 3, 4, 5, 6, 7];
    assert_eq!(mix_s16le(&vec![a.clone()], 1, 6), a[1..7].to_vec());
    assert_eq!(mix_s16le(&vec![a.clone()], 0, 7), a[0..6].to_vec());
}
