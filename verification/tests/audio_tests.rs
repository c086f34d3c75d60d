use rimay_type::audio::{convert_to_mono, encode_wav, scale_sample, SAMPLE_UNIT};

#[test]
fn short_clip_is_rejected_regardless_of_content() {
    // Anything under half a second of samples is "too short".
    let silence = vec![0i64; 7999];
    assert!(encode_wav(&silence, 16000, 1).is_none());
    let loud = vec![SAMPLE_UNIT; 7999];
    assert!(encode_wav(&loud, 16000, 1).is_none());
    let empty: Vec<i64> = Vec::new();
    assert!(encode_wav(&empty, 16000, 1).is_none());
    // One sample below the threshold at a tiny rate.
    assert!(encode_wav(&vec![0i64; 1], 3, 1).is_none());
}

#[test]
fn long_clip_declares_mono_at_the_input_rate() {
    let samples = vec![SAMPLE_UNIT / 2; 8000];
    let bytes = encode_wav(&samples, 16000, 1).unwrap();
    assert!(!bytes.is_empty());
    assert_eq!(bytes.len(), 44 + 2 * 8000);
    // Channel count (offset 22) is 1, sample rate (offset 24) is the input's.
    assert_eq!(&bytes[22..24], &1u16.to_le_bytes());
    assert_eq!(&bytes[24..28], &16000u32.to_le_bytes());
}

#[test]
fn stereo_clip_is_downmixed_before_encoding() {
    let samples = vec![SAMPLE_UNIT; 16000];
    let bytes = encode_wav(&samples, 16000, 2).unwrap();
    // 16000 interleaved samples make 8000 mono frames.
    assert_eq!(bytes.len(), 44 + 2 * 8000);
    assert_eq!(&bytes[22..24], &1u16.to_le_bytes());
    assert_eq!(&bytes[40..44], &((2 * 8000) as u32).to_le_bytes());
}

#[test]
fn exact_wav_bytes_for_a_tiny_clip() {
    // Two full-scale samples at a rate of 2: both survive the threshold.
    let bytes = encode_wav(&vec![SAMPLE_UNIT, -SAMPLE_UNIT], 2, 1).unwrap();
    let mut expected: Vec<u8> = Vec::new();
    expected.extend_from_slice(b"RIFF");
    expected.extend_from_slice(&40u32.to_le_bytes()); // 36 + data size
    expected.extend_from_slice(b"WAVE");
    expected.extend_from_slice(b"fmt ");
    expected.extend_from_slice(&16u32.to_le_bytes()); // fmt chunk size
    expected.extend_from_slice(&1u16.to_le_bytes()); // PCM
    expected.extend_from_slice(&1u16.to_le_bytes()); // channels
    expected.extend_from_slice(&2u32.to_le_bytes()); // sample rate
    expected.extend_from_slice(&4u32.to_le_bytes()); // byte rate
    expected.extend_from_slice(&2u16.to_le_bytes()); // block align
    expected.extend_from_slice(&16u16.to_le_bytes()); // bits per sample
    expected.extend_from_slice(b"data");
    expected.extend_from_slice(&4u32.to_le_bytes()); // data size
    expected.extend_from_slice(&32767i16.to_le_bytes());
    expected.extend_from_slice(&(-32767i16).to_le_bytes());
    assert_eq!(bytes, expected);
}

#[test]
fn downmix_averages_each_frame() {
    // Frames of two: (1.0, 0.0) -> 0.5, (0.5, 0.5) -> 0.5.
    let mixed = convert_to_mono(&vec![SAMPLE_UNIT, 0, SAMPLE_UNIT / 2, SAMPLE_UNIT / 2], 2);
    assert_eq!(mixed, vec![SAMPLE_UNIT / 2, SAMPLE_UNIT / 2]);
    // Mean of three channels.
    let mixed3 = convert_to_mono(&vec![3, 6, 9], 3);
    assert_eq!(mixed3, vec![6]);
    // A trailing partial frame is still divided by the channel count.
    let partial = convert_to_mono(&vec![4, 4, 4], 2);
    assert_eq!(partial, vec![4, 2]);
}

#[test]
fn downmix_of_one_channel_is_the_identity() {
    let samples = vec![17, -5, 0, SAMPLE_UNIT, -SAMPLE_UNIT];
    assert_eq!(convert_to_mono(&samples, 1), samples);
}

#[test]
fn scaling_clamps_at_both_boundaries() {
    // 1.5 and 1.0 both hit the positive boundary; no wraparound.
    let one_and_a_half = SAMPLE_UNIT + SAMPLE_UNIT / 2;
    assert_eq!(scale_sample(one_and_a_half), 32767);
    assert_eq!(scale_sample(SAMPLE_UNIT), 32767);
    // -1.5 hits the negative boundary; -1.0 scales to -32767 exactly.
    assert_eq!(scale_sample(-one_and_a_half), -32768);
    assert_eq!(scale_sample(-SAMPLE_UNIT), -32767);
    assert_eq!(scale_sample(0), 0);
    assert_eq!(scale_sample(SAMPLE_UNIT / 2), 16383);
}

#[test]
fn scaling_is_monotonic_on_a_sweep() {
    let mut previous = i16::MIN;
    let mut s = -3 * SAMPLE_UNIT;
    while s <= 3 * SAMPLE_UNIT {
        let scaled = scale_sample(s);
        assert!(scaled >= previous, "scale went down at {s}");
        previous = scaled;
        s += 997;
    }
}
