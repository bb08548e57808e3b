use channels_plot::codec::decode;
use channels_plot::ChartError;

#[test]
fn test_read_file_wasm() {
    // The first six bytes of the recorded sample file: 44 09 F3 06 D1 05.
    let bytes = vec![0x44u8, 0x09, 0xF3, 0x06, 0xD1, 0x05];
    let result = decode(&bytes).unwrap();
    assert_eq!(result[..3], vec![0x944, 0x6f3, 0x5d1]);
}

#[test]
fn decode_concrete_little_endian_words() {
    let bytes = vec![0x44u8, 0x09, 0xF3, 0x06, 0xD1, 0x05];
    let result = decode(&bytes).unwrap();
    assert_eq!(result, vec![2372u16, 1779, 1489]);
}

#[test]
fn decode_round_trip() {
    let values: Vec<u16> = vec![0, 1, 255, 256, 0xFF00, 0xABCD, 0xFFFF];
    let mut bytes: Vec<u8> = Vec::new();
    for v in &values {
        bytes.push((v % 256) as u8);
        bytes.push((v / 256) as u8);
    }
    let result = decode(&bytes).unwrap();
    assert_eq!(result, values);
}

#[test]
fn decode_odd_length_matches_even_prefix() {
    let odd = vec![7u8, 1, 9, 2, 11, 3, 13];
    let even = vec![7u8, 1, 9, 2, 11, 3];
    assert_eq!(decode(&odd).unwrap(), decode(&even).unwrap());
}

#[test]
fn decode_empty_buffer_is_decode_error() {
    let bytes: Vec<u8> = Vec::new();
    assert_eq!(decode(&bytes), Err(ChartError::DecodeError));
}

#[test]
fn decode_single_byte_is_decode_error() {
    let bytes = vec![42u8];
    assert_eq!(decode(&bytes), Err(ChartError::DecodeError));
}
