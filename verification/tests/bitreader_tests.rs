use xtrans_codec::bitreader::BitReader;

#[test]
fn read_bits() {
    let data: Vec<u8> = hex::decode("7775626261206C756262612064756220647562").unwrap();
    let mut reader = BitReader::new(data);
    let mut rb = |count| reader.read_bits(count).unwrap();
    assert_eq!(rb(4), 0x7);
    assert_eq!(rb(4), 0x7);
    assert_eq!(rb(4), 0x7);
    assert_eq!(rb(4), 0x5);
    assert_eq!(rb(4), 0x6);
    assert_eq!(rb(4), 0x2);
    assert_eq!(rb(4), 0x6);
    // Should be at pos 28 by now, i.e. close to a boundary
    assert_eq!(rb(8), 0x26);
    assert_eq!(rb(8), 0x12);
    assert_eq!(rb(8), 0x06);
    assert_eq!(rb(8), 0xC7);
    assert_eq!(rb(8), 0x56);
}

#[test]
fn read_bits_test_end() {
    let data: Vec<u8> = hex::decode("00000000777562").unwrap();
    let mut reader = BitReader::new(data);
    let mut rb = |count| reader.read_bits(count).unwrap();
    assert_eq!(rb(30), 0x0);
    assert_eq!(rb(2), 0x0);
    assert_eq!(rb(12), 0x777);
    assert_eq!(rb(12), 0x562);
}

#[test]
fn count_continuous_1s() {
    let data: Vec<u8> = hex::decode("00000000FFF0100FF800").unwrap();
    let mut reader = BitReader::new(data);
    assert_eq!(reader.read_bits(30).unwrap(), 0x0);
    assert_eq!(reader.read_bits(2).unwrap(), 0x0);
    assert_eq!(reader.count_continuous_1s().unwrap(), 12);
    assert_eq!(reader.read_bits(6).unwrap(), 0x00);
    assert_eq!(reader.count_continuous_1s().unwrap(), 1);
    assert_eq!(reader.read_bits(7).unwrap(), 0x00);
    // This crosses the 32-bit boundary, should be 4 before + 5 after
    assert_eq!(reader.count_continuous_1s().unwrap(), 9);
    // The last 11 bytes should be zeros
    assert_eq!(reader.read_bits(10).unwrap(), 0);
}

#[test]
fn count_continuous_0s_and_1s() {
    let data: Vec<u8> = hex::decode("03FFF0E00FF800").unwrap();
    let mut reader = BitReader::new(data);
    assert_eq!(reader.count_continuous_0s().unwrap(), 6);
    assert_eq!(reader.count_continuous_1s().unwrap(), 13);
    assert_eq!(reader.count_continuous_0s().unwrap(), 3);
    assert_eq!(reader.count_continuous_1s().unwrap(), 2);
    // This one crosses boundaries
    assert_eq!(reader.count_continuous_0s().unwrap(), 8);
    assert_eq!(reader.read_bits(8).unwrap(), 0xFF);
}

#[test]
fn count_41_0s_across_3_bytes() {
    let data: Vec<u8> = hex::decode("FFFFFFE00000000007").unwrap();
    let mut reader = BitReader::new(data);
    assert_eq!(reader.count_continuous_1s().unwrap(), 27);
    // There's a zero read off from the previous thing
    assert_eq!(reader.count_continuous_0s().unwrap(), 41);
    assert_eq!(reader.read_bits(2).unwrap(), 0x3);
}

use xtrans_codec::CodecError;

#[test]
fn reading_past_the_end_is_an_error() {
    let mut reader = BitReader::new(vec![0xAB]);
    assert_eq!(reader.read_bits(8).unwrap(), 0xAB);
    assert_eq!(reader.read_bits(1), Err(CodecError::UnexpectedEndOfInput));
    // A zero run that reaches the end has no terminating one-bit.
    let mut reader2 = BitReader::new(vec![0x00]);
    assert_eq!(reader2.count_continuous_0s(), Err(CodecError::UnexpectedEndOfInput));
}
