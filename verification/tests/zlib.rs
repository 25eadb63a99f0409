use rand::random;
use ttcore::error::CoreError;
use ttcore::zlib::{decode, encode};

#[test]
fn it_works() {
    (0..(10 + random::<u8>() % 20))
        .map(|i| (0..i).map(|_| random::<u8>()).collect::<Vec<_>>())
        .for_each(|sample| {
            assert_eq!(sample, decode(&encode(&sample).unwrap()).unwrap());
        });
}

#[test]
fn encode_produces_zlib_stream() {
    let data = b"hello hello hello hello".to_vec();
    let stream = encode(&data).unwrap();
    assert_ne!(stream, data);
    // zlib header with the default compression level
    assert_eq!(stream[0], 0x78);
    assert_eq!(decode(&stream).unwrap(), data);
}

#[test]
fn encode_empty_roundtrips() {
    let stream = encode(&[]).unwrap();
    assert!(!stream.is_empty());
    assert_eq!(decode(&stream).unwrap(), Vec::<u8>::new());
}

#[test]
fn decode_rejects_garbage() {
    assert_eq!(decode(b"not a zlib stream"), Err(CoreError::Zlib));
}
