use awsm_audio::wav::encode_wav_pcm16;

/// Independent little-endian encoder, fed with float samples as the player
/// produces them.
fn reference(channels: &[Vec<f32>], sample_rate: u32) -> Vec<u8> {
    let num_ch = channels.len().max(1) as u16;
    let frames = channels.iter().map(Vec::len).max().unwrap_or(0);
    let block_align = num_ch as usize * 2;
    let data_len = frames * block_align;
    let mut w = Vec::new();
    w.extend_from_slice(b"RIFF");
    w.extend_from_slice(&((36 + data_len) as u32).to_le_bytes());
    w.extend_from_slice(b"WAVEfmt ");
    w.extend_from_slice(&16u32.to_le_bytes());
    w.extend_from_slice(&1u16.to_le_bytes());
    w.extend_from_slice(&num_ch.to_le_bytes());
    w.extend_from_slice(&sample_rate.to_le_bytes());
    w.extend_from_slice(&((sample_rate as usize * block_align) as u32).to_le_bytes());
    w.extend_from_slice(&(block_align as u16).to_le_bytes());
    w.extend_from_slice(&16u16.to_le_bytes());
    w.extend_from_slice(b"data");
    w.extend_from_slice(&(data_len as u32).to_le_bytes());
    for i in 0..frames {
        for ch in channels {
            let s = ch.get(i).copied().unwrap_or(0.0).clamp(-1.0, 1.0);
            w.extend_from_slice(&((s * 32767.0) as i16).to_le_bytes());
        }
    }
    w
}

fn quantize(channels: &[Vec<f32>]) -> Vec<Vec<i16>> {
    channels.iter().map(|c| c.iter().map(|s| (s.clamp(-1.0, 1.0) * 32767.0) as i16).collect()).collect()
}

#[test]
fn stereo_with_uneven_lengths() {
    let chans = vec![vec![0.0, 0.5, -1.0], vec![1.0, -0.25]];
    let bytes = encode_wav_pcm16(&quantize(&chans), 48_000);
    assert_eq!(bytes, reference(&chans, 48_000));
    assert_eq!(bytes.len(), 44 + 3 * 2 * 2);
    assert_eq!(&bytes[0..4], b"RIFF");
    assert_eq!(&bytes[8..16], b"WAVEfmt ");
    // Frame 2 of the right channel is silence.
    assert_eq!(&bytes[54..56], &[0, 0]);
    // -1.0 encodes as -32767.
    assert_eq!(&bytes[52..54], &(-32767i16).to_le_bytes());
}

#[test]
fn no_channels_is_a_mono_header_with_no_data() {
    let bytes = encode_wav_pcm16(&Vec::new(), 44_100);
    assert_eq!(bytes, reference(&[], 44_100));
    assert_eq!(bytes.len(), 44);
    assert_eq!(u16::from_le_bytes([bytes[22], bytes[23]]), 1);
}

#[test]
fn header_fields() {
    let bytes = encode_wav_pcm16(&vec![vec![1i16, 2, 3, 4]], 8_000);
    assert_eq!(u32::from_le_bytes([bytes[4], bytes[5], bytes[6], bytes[7]]), 36 + 8);
    assert_eq!(u32::from_le_bytes([bytes[24], bytes[25], bytes[26], bytes[27]]), 8_000);
    assert_eq!(u32::from_le_bytes([bytes[28], bytes[29], bytes[30], bytes[31]]), 16_000);
    assert_eq!(u16::from_le_bytes([bytes[32], bytes[33]]), 2);
    assert_eq!(u32::from_le_bytes([bytes[40], bytes[41], bytes[42], bytes[43]]), 8);
    assert_eq!(&bytes[44..], &[1, 0, 2, 0, 3, 0, 4, 0]);
}
