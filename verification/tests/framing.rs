use hybrid_phi::framing::le_bytes_to_words;
use hybrid_phi::framing::words_to_le_bytes;

#[test]
fn test_frame_single_word() {
    let words = vec![0x0102030405060708u64];
    let bytes = words_to_le_bytes(&words);
    assert_eq!(bytes, vec![0x08, 0x07, 0x06, 0x05, 0x04, 0x03, 0x02, 0x01]);
}

#[test]
fn test_frame_then_unframe() {
    let words = vec![0u64, 1, u64::MAX, 0xdead_beef_cafe_f00d];
    let bytes = words_to_le_bytes(&words);
    assert_eq!(bytes.len(), 8 * words.len());
    assert_eq!(le_bytes_to_words(&bytes), words);
}

#[test]
fn test_unframe_drops_trailing_bytes() {
    let mut bytes = words_to_le_bytes(&vec![7u64]);
    bytes.push(0xff);
    assert_eq!(le_bytes_to_words(&bytes), vec![7u64]);
    let short = vec![1u8, 2, 3, 4, 5, 6, 7];
    assert_eq!(le_bytes_to_words(&short), Vec::<u64>::new());
}

#[test]
fn test_frame_recovers_doubles_exactly() {
    // The framing carries doubles as their bit patterns: the store writes a
    // sequence this way and reads it back without loss.
    let original = vec![-1.0f64, 0.0, 0.5, 1.0, 123.456];
    let words: Vec<u64> = original.iter().map(|v| v.to_bits()).collect();
    let bytes = words_to_le_bytes(&words);
    let loaded: Vec<f64> = le_bytes_to_words(&bytes)
        .iter()
        .map(|w| f64::from_bits(*w))
        .collect();
    assert_eq!(original.len(), loaded.len());
    for (a, b) in original.iter().zip(loaded.iter()) {
        assert!((a - b).abs() < 1e-12, "a = {}, b = {}", a, b);
    }
}
