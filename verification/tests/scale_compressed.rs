use parity_scale_codec::{Decode, Encode};
use pdu::scale_compressed::{
    frame, inflate, pack, unpack, ScaleCompressed, UnpackError, DECOMPRESSED_LIMIT,
};
use std::fmt::Debug;

fn test_works<T: Encode + Decode + Clone + PartialEq + Debug>(original: T) {
    let compressed = ScaleCompressed::new(original.clone());
    let encoded = pack(&compressed.0.encode()).unwrap();
    let unpacked = unpack(&encoded).unwrap();
    let decoded = ScaleCompressed::new(T::decode(&mut &unpacked[..]).unwrap());
    assert_eq!(original, decoded.0);
}

#[test]
fn test_encode_decode() {
    test_works(vec![0; 0]);
    test_works(vec![1, 2, 3, 4, 5]);

    test_works(None::<u8>);
    test_works(Some(1));
    test_works(Some(vec![1, 2, 3, 4, 5]));
    test_works(Some(vec![0; 0]));

    test_works(1);
    test_works(1u8);
    test_works(1u16);
    test_works(1u32);
    test_works(1u64);
    test_works(1u128);

    test_works(true);
    test_works(false);

    test_works("hey".to_string());
}

#[test]
fn the_wrapper_holds_what_it_was_given() {
    let wrapped = ScaleCompressed::new(vec![1u8, 2, 3]);
    assert_eq!(wrapped.0, vec![1, 2, 3]);
    assert_eq!(wrapped.clone(), wrapped);
    assert_ne!(wrapped, ScaleCompressed::new(vec![1u8, 2]));
    assert_eq!(format!("{:?}", ScaleCompressed::new(5u8)), "ScaleCompressed(5)");
}

#[test]
fn packed_data_is_the_framed_deflate_stream() {
    let encoded = vec![7u8; 5000];
    let packed = pack(&encoded).unwrap();
    let stream = miniz_oxide::deflate::compress_to_vec(&encoded, 6);
    assert_eq!(packed, stream.encode());
    assert!(packed.len() < encoded.len());
    assert_eq!(frame(&[1, 2, 3]), vec![12, 1, 2, 3]);
    assert_eq!(frame(&[]), vec![0]);
    assert_eq!(frame(&[9; 64]).len(), 66);
    assert_eq!(unpack(&packed), Ok(encoded));
}

#[test]
fn what_follows_the_packed_data_is_not_looked_at() {
    let mut packed = pack(&[1, 2, 3, 4]).unwrap();
    packed.extend_from_slice(&[0xff, 0xee]);
    assert_eq!(unpack(&packed), Ok(vec![1, 2, 3, 4]));
}

#[test]
fn input_that_is_no_run_of_bytes_is_malformed() {
    assert_eq!(unpack(&[]), Err(UnpackError::Malformed));
    assert_eq!(unpack(&[12, 1, 2]), Err(UnpackError::Malformed));
    assert_eq!(unpack(&[0xff, 0xff, 0xff, 0xff, 0xff]), Err(UnpackError::Malformed));
    assert_eq!(UnpackError::Corrupted.message(), "Data corrupted");
}

#[test]
fn bytes_that_are_no_deflate_stream_are_corrupted() {
    assert_eq!(unpack(&frame(&[0xff, 0xff, 0xff])), Err(UnpackError::Corrupted));
    assert_eq!(unpack(&[0]), Err(UnpackError::Corrupted));
    assert_eq!(inflate(&[0xff, 0xff, 0xff]), Err(UnpackError::Corrupted));
    let stream = miniz_oxide::deflate::compress_to_vec(b"hello", 6);
    assert_eq!(inflate(&stream), Ok(b"hello".to_vec()));
    assert_eq!(inflate(&stream[0..stream.len() - 1]), Err(UnpackError::Corrupted));
}

#[test]
fn more_than_the_limit_is_not_decompressed() {
    assert_eq!(DECOMPRESSED_LIMIT, 4 * 1024 * 1024);
    let most = vec![0u8; DECOMPRESSED_LIMIT];
    assert_eq!(unpack(&pack(&most).unwrap()).map(|data| data.len()), Ok(DECOMPRESSED_LIMIT));
    let more = vec![0u8; DECOMPRESSED_LIMIT + 1];
    assert_eq!(unpack(&pack(&more).unwrap()), Err(UnpackError::Corrupted));
}
