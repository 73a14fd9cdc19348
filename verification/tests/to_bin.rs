use std::path::PathBuf;
use xmltree::to_bin::{BinDecodeError, Decoder, Encoder, ToBinHandler};

#[test]
fn test_bool_encoding_decoding() {
    let mut encoder = Encoder::new();
    true.write(&mut encoder).unwrap();
    false.write(&mut encoder).unwrap();

    let buffer = encoder.into_inner();
    let mut decoder = Decoder::new(buffer.as_slice());
    assert!(bool::read(&mut decoder).unwrap());
    assert!(!bool::read(&mut decoder).unwrap());
}

#[test]
fn test_u8_encoding_decoding() {
    let mut encoder = Encoder::new();
    42u8.write(&mut encoder).unwrap();

    let buffer = encoder.into_inner();
    let mut decoder = Decoder::new(buffer.as_slice());
    assert_eq!(u8::read(&mut decoder).unwrap(), 42u8);
}

#[test]
fn test_usize_encoding_decoding() {
    let mut encoder = Encoder::new();
    12345usize.write(&mut encoder).unwrap();

    let buffer = encoder.into_inner();
    let mut decoder = Decoder::new(buffer.as_slice());
    assert_eq!(usize::read(&mut decoder).unwrap(), 12345usize);
}

#[test]
fn test_string_encoding_decoding() {
    let mut encoder = Encoder::new();
    let input = String::from("Hello, world!");
    input.write(&mut encoder).unwrap();

    let buffer = encoder.into_inner();
    let mut decoder = Decoder::new(buffer.as_slice());
    assert_eq!(String::read(&mut decoder).unwrap(), input);
}

#[test]
fn test_vec_encoding_decoding() {
    let mut encoder = Encoder::new();
    let input = vec![1u8, 2, 3, 4, 5];
    input.write(&mut encoder).unwrap();

    let buffer = encoder.into_inner();
    let mut decoder = Decoder::new(buffer.as_slice());
    assert_eq!(Vec::<u8>::read(&mut decoder).unwrap(), input);
}

#[test]
fn test_option_encoding_decoding() {
    let mut encoder = Encoder::new();
    let some_value: Option<u8> = Some(42);
    let none_value: Option<u8> = None;
    some_value.write(&mut encoder).unwrap();
    none_value.write(&mut encoder).unwrap();

    let buffer = encoder.into_inner();
    let mut decoder = Decoder::new(buffer.as_slice());
    assert_eq!(Option::<u8>::read(&mut decoder).unwrap(), some_value);
    assert_eq!(Option::<u8>::read(&mut decoder).unwrap(), none_value);
}

#[test]
fn test_tuple_encoding_decoding() {
    let mut encoder = Encoder::new();
    let input = (42u8, String::from("Hello"));
    input.write(&mut encoder).unwrap();

    let buffer = encoder.into_inner();
    let mut decoder = Decoder::new(buffer.as_slice());
    assert_eq!(<(u8, String)>::read(&mut decoder).unwrap(), input);
}

#[test]
fn test_pathbuf_encoding_decoding() {
    let mut encoder = Encoder::new();
    let input = PathBuf::from("/some/path");
    input.write(&mut encoder).unwrap();

    let buffer = encoder.into_inner();
    let mut decoder = Decoder::new(buffer.as_slice());
    assert_eq!(PathBuf::read(&mut decoder).unwrap(), input);
}

#[test]
fn count_is_eight_bytes_least_significant_first() {
    let mut encoder = Encoder::new();
    0x0102_0304usize.write(&mut encoder).unwrap();
    assert_eq!(encoder.len(), 8);
    assert_eq!(encoder.into_inner(), vec![4, 3, 2, 1, 0, 0, 0, 0]);
}

#[test]
fn text_is_its_length_and_its_bytes() {
    let mut encoder = Encoder::new();
    "hé".write(&mut encoder).unwrap();
    assert_eq!(encoder.into_inner(), vec![3, 0, 0, 0, 0, 0, 0, 0, b'h', 0xC3, 0xA9]);
}

#[test]
fn sequence_is_its_count_and_its_items() {
    let mut encoder = Encoder::new();
    vec![true, false].write(&mut encoder).unwrap();
    assert_eq!(encoder.into_inner(), vec![2, 0, 0, 0, 0, 0, 0, 0, 1, 0]);
}

#[test]
fn optional_value_is_a_flag_and_the_value() {
    let mut encoder = Encoder::new();
    Some(7u8).write(&mut encoder).unwrap();
    Option::<u8>::None.write(&mut encoder).unwrap();
    assert_eq!(encoder.into_inner(), vec![1, 7, 0]);
}

#[test]
fn any_byte_but_zero_reads_as_true() {
    let bytes = [2u8, 0u8, 255u8];
    let mut decoder = Decoder::new(&bytes);
    assert!(bool::read(&mut decoder).unwrap());
    assert!(!bool::read(&mut decoder).unwrap());
    assert_eq!(Option::<u8>::read(&mut decoder).unwrap_err().message(), "End of file; expected more data");
}

#[test]
fn read_past_the_end_is_unexpected_eof() {
    let bytes = [1u8, 2, 3];
    let mut decoder = Decoder::new(&bytes);
    assert!(matches!(usize::read(&mut decoder), Err(BinDecodeError::UnexpectedEof)));
    assert_eq!(decoder.cursor(), 0);
    assert!(matches!(decoder.read_all(4), Err(BinDecodeError::UnexpectedEof)));
    assert_eq!(decoder.read_all(3).unwrap(), &[1u8, 2, 3]);
    assert!(matches!(decoder.read(), Err(BinDecodeError::UnexpectedEof)));
}

#[test]
fn text_that_is_not_utf8_is_invalid_utf8() {
    let bytes = [2u8, 0, 0, 0, 0, 0, 0, 0, 0xC3, 0x28];
    let mut decoder = Decoder::new(&bytes);
    assert!(matches!(<&str>::read(&mut decoder), Err(BinDecodeError::InvalidUtf8)));
    let mut decoder = Decoder::new(&bytes);
    assert!(matches!(String::read(&mut decoder), Err(BinDecodeError::InvalidUtf8)));
}

#[test]
fn text_longer_than_the_stream_is_unexpected_eof() {
    let bytes = [9u8, 0, 0, 0, 0, 0, 0, 0, b'a'];
    let mut decoder = Decoder::new(&bytes);
    assert!(matches!(<&str>::read(&mut decoder), Err(BinDecodeError::UnexpectedEof)));
}

#[test]
fn sequence_longer_than_the_stream_fails() {
    let bytes = [3u8, 0, 0, 0, 0, 0, 0, 0, 1, 2];
    let mut decoder = Decoder::new(&bytes);
    assert!(matches!(Vec::<u8>::read(&mut decoder), Err(BinDecodeError::UnexpectedEof)));
}

#[test]
fn sequence_with_an_impossible_count_fails_without_panic() {
    let bytes = [255u8, 255, 255, 255, 255, 255, 255, 127];
    let mut decoder = Decoder::new(&bytes);
    let error = Vec::<usize>::read(&mut decoder).unwrap_err();
    assert!(matches!(error, BinDecodeError::TryReserveError(_)));
    assert!(error.message().starts_with("Memory allocation error: "));
}

#[test]
fn encoder_reports_its_state() {
    let mut encoder = Encoder::default();
    assert!(encoder.is_empty());
    assert!(!encoder.has_source_header());
    encoder.with_source_header();
    assert!(encoder.has_source_header());
    encoder.write_all(&[1, 2, 3]).unwrap();
    assert_eq!(encoder.len(), 3);
    assert!(!encoder.is_empty());
    assert_eq!(encoder.into_inner(), vec![1, 2, 3]);
}

#[test]
fn decoder_keeps_its_source() {
    let bytes = [0u8];
    let mut decoder = Decoder::new(&bytes);
    assert!(decoder.source().is_none());
    decoder.with_source("abc");
    assert_eq!(decoder.source(), Some("abc"));
}

#[test]
fn decode_errors_have_their_words() {
    assert_eq!(BinDecodeError::UnexpectedEof.message(), "End of file; expected more data");
    assert_eq!(BinDecodeError::InvalidUtf8.message(), "Invalid UTF-8 string");
    assert_eq!(BinDecodeError::InvalidEnumVariant.message(), "Invalid enum variant");
    assert_eq!(BinDecodeError::InvalidHeader.message(), "Data did not have a valid header");
}

#[test]
fn read_exact_fills_the_buffer_or_leaves_all_as_it_is() {
    let bytes = [1u8, 2, 3, 4, 5];
    let mut decoder = Decoder::new(&bytes);
    let mut two = [0u8; 2];
    decoder.read_exact(&mut two).unwrap();
    assert_eq!(two, [1, 2]);
    assert_eq!(decoder.cursor(), 2);
    let mut four = [9u8; 4];
    assert!(matches!(decoder.read_exact(&mut four), Err(BinDecodeError::UnexpectedEof)));
    assert_eq!(four, [9, 9, 9, 9]);
    assert_eq!(decoder.cursor(), 2);
    let mut three = [0u8; 3];
    decoder.read_exact(&mut three).unwrap();
    assert_eq!(three, [3, 4, 5]);
    let mut none: [u8; 0] = [];
    decoder.read_exact(&mut none).unwrap();
}
