use ghost::wav::{make_wav_file, make_wav_header, wav_header};

fn number32(h: &[u8], at: usize) -> u32 {
    u32::from_le_bytes([h[at], h[at + 1], h[at + 2], h[at + 3]])
}

fn number16(h: &[u8], at: usize) -> u16 {
    u16::from_le_bytes([h[at], h[at + 1]])
}

#[test]
fn the_header_of_integer_samples() {
    let h = make_wav_header(16000, 1, 3000);
    let mut expected: Vec<u8> = Vec::new();
    expected.extend_from_slice(b"RIFF");
    expected.extend_from_slice(&3036u32.to_le_bytes());
    expected.extend_from_slice(b"WAVEfmt ");
    expected.extend_from_slice(&16u32.to_le_bytes());
    expected.extend_from_slice(&1u16.to_le_bytes());
    expected.extend_from_slice(&1u16.to_le_bytes());
    expected.extend_from_slice(&16000u32.to_le_bytes());
    expected.extend_from_slice(&32000u32.to_le_bytes());
    expected.extend_from_slice(&2u16.to_le_bytes());
    expected.extend_from_slice(&16u16.to_le_bytes());
    expected.extend_from_slice(b"data");
    expected.extend_from_slice(&3000u32.to_le_bytes());
    assert_eq!(h, expected);
}

#[test]
fn the_header_of_floating_point_samples() {
    let h = wav_header(48000, 2, 100);
    assert_eq!(h.len(), 44);
    assert_eq!(number32(&h, 4), 836);
    assert_eq!(number16(&h, 20), 3);
    assert_eq!(number16(&h, 22), 2);
    assert_eq!(number32(&h, 24), 48000);
    assert_eq!(number32(&h, 28), 384000);
    assert_eq!(number16(&h, 32), 8);
    assert_eq!(number16(&h, 34), 32);
    assert_eq!(number32(&h, 40), 800);
}

#[test]
fn a_file_is_read_back() {
    let samples: Vec<i16> = vec![0, 1, -1, i16::MAX, i16::MIN];
    let file = make_wav_file(16000, 1, &samples);
    assert_eq!(number32(&file, 4) as usize, file.len() - 8);
    assert_eq!(number32(&file, 40) as usize, 2 * samples.len());
    for (i, s) in samples.iter().enumerate() {
        assert_eq!(number16(&file, 44 + 2 * i) as i16, *s);
    }
}
