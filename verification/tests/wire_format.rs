use mempool::crypto::{Digest, PublicKey};
use mempool::endian::{get_uint, put_uint};
use mempool::messages::{
    serialize_batch, serialize_batch_request, DecodeError, MempoolMessage,
};

fn sample_batch() -> Vec<Vec<u8>> {
    vec![vec![1, 2, 3], vec![], vec![0xff; 5]]
}

#[test]
fn put_uint_writes_little_endian() {
    let mut out = vec![0xaa];
    put_uint(&mut out, 0x0102_0304_0506_0708, 8);
    assert_eq!(out, vec![0xaa, 8, 7, 6, 5, 4, 3, 2, 1]);
    let mut short = Vec::new();
    put_uint(&mut short, 1, 4);
    assert_eq!(short, vec![1, 0, 0, 0]);
}

#[test]
fn put_uint_keeps_low_digits_only() {
    let mut out = Vec::new();
    put_uint(&mut out, 0x1ff, 1);
    assert_eq!(out, vec![0xff]);
    let mut nothing = Vec::new();
    put_uint(&mut nothing, 77, 0);
    assert!(nothing.is_empty());
}

#[test]
fn get_uint_reads_little_endian() {
    let bytes = [0u8, 8, 7, 6, 5, 4, 3, 2, 1, 9];
    assert_eq!(get_uint(&bytes, 1, 8), 0x0102_0304_0506_0708);
    assert_eq!(get_uint(&bytes, 1, 4), 0x0506_0708);
    assert_eq!(get_uint(&bytes, 9, 1), 9);
    assert_eq!(get_uint(&bytes, 3, 0), 0);
    assert_eq!(get_uint(&[0xff; 8], 0, 8), u64::MAX);
}

#[test]
fn get_uint_undoes_put_uint() {
    for value in [0u64, 1, 255, 256, 65_535, 1 << 40, u64::MAX] {
        let mut out = Vec::new();
        put_uint(&mut out, value, 8);
        assert_eq!(get_uint(&out, 0, 8), value);
    }
}

#[test]
fn batch_wire_form_is_exact() {
    let bytes = serialize_batch(&vec![vec![1, 2, 3], vec![]]);
    let mut expected = vec![0u8, 0, 0, 0];
    expected.extend_from_slice(&[2, 0, 0, 0, 0, 0, 0, 0]);
    expected.extend_from_slice(&[3, 0, 0, 0, 0, 0, 0, 0]);
    expected.extend_from_slice(&[1, 2, 3]);
    expected.extend_from_slice(&[0, 0, 0, 0, 0, 0, 0, 0]);
    assert_eq!(bytes, expected);
}

#[test]
fn empty_batch_wire_form_is_exact() {
    assert_eq!(serialize_batch(&Vec::new()), vec![0u8; 12]);
}

#[test]
fn batch_request_wire_form_is_exact() {
    let digests = vec![Digest([1; 32]), Digest([2; 32])];
    let bytes = serialize_batch_request(&digests, &PublicKey([9; 32]));
    let mut expected = vec![1u8, 0, 0, 0];
    expected.extend_from_slice(&[2, 0, 0, 0, 0, 0, 0, 0]);
    expected.extend_from_slice(&[1; 32]);
    expected.extend_from_slice(&[2; 32]);
    expected.extend_from_slice(&[9; 32]);
    assert_eq!(bytes, expected);
}

#[test]
fn batch_wire_form_is_that_of_bincode() {
    let batch = sample_batch();
    let expected = bincode::serialize(&(0u32, &batch)).unwrap();
    assert_eq!(serialize_batch(&batch), expected);
    assert_eq!(MempoolMessage::Batch(batch).serialize(), expected);
}

#[test]
fn batch_request_wire_form_is_that_of_bincode() {
    let raw: Vec<[u8; 32]> = vec![[7; 32], [8; 32], [0; 32]];
    let expected = bincode::serialize(&(1u32, &raw, [5u8; 32])).unwrap();
    let digests: Vec<Digest> = raw.iter().map(|bytes| Digest(*bytes)).collect();
    let message = MempoolMessage::BatchRequest(digests, PublicKey([5; 32]));
    assert_eq!(message.serialize(), expected);
}

#[test]
fn deserialize_undoes_serialize_for_a_batch() {
    let batch = sample_batch();
    let bytes = serialize_batch(&batch);
    match MempoolMessage::deserialize(&bytes) {
        Ok(MempoolMessage::Batch(decoded)) => assert_eq!(decoded, batch),
        other => panic!("unexpected {:?}", other),
    }
}

#[test]
fn deserialize_undoes_serialize_for_a_request() {
    let digests = vec![Digest([3; 32]), Digest([4; 32])];
    let origin = PublicKey([6; 32]);
    let bytes = serialize_batch_request(&digests, &origin);
    match MempoolMessage::deserialize(&bytes) {
        Ok(MempoolMessage::BatchRequest(decoded, from)) => {
            assert_eq!(decoded, digests);
            assert_eq!(from, origin);
        },
        other => panic!("unexpected {:?}", other),
    }
}

#[test]
fn serialize_deserialize_serialize_is_identical() {
    let first = MempoolMessage::Batch(sample_batch()).serialize();
    let again = MempoolMessage::deserialize(&first).unwrap().serialize();
    assert_eq!(again, first);
    let request =
        MempoolMessage::BatchRequest(vec![Digest([1; 32])], PublicKey([2; 32])).serialize();
    let again = MempoolMessage::deserialize(&request).unwrap().serialize();
    assert_eq!(again, request);
}

#[test]
fn trailing_bytes_are_ignored() {
    let batch = sample_batch();
    let mut bytes = serialize_batch(&batch);
    bytes.extend_from_slice(&[1, 2, 3, 4]);
    match MempoolMessage::deserialize(&bytes) {
        Ok(MempoolMessage::Batch(decoded)) => assert_eq!(decoded, batch),
        other => panic!("unexpected {:?}", other),
    }
    let (tag, decoded): (u32, Vec<Vec<u8>>) = bincode::deserialize(&bytes).unwrap();
    assert_eq!(tag, 0);
    assert_eq!(decoded, batch);
}

#[test]
fn truncated_frames_are_rejected() {
    let bytes = serialize_batch(&sample_batch());
    for len in 0..bytes.len() {
        match MempoolMessage::deserialize(&bytes[..len]) {
            Err(DecodeError::UnexpectedEnd) => {},
            other => panic!("length {}: unexpected {:?}", len, other),
        }
        if len >= 4 {
            assert!(bincode::deserialize::<(u32, Vec<Vec<u8>>)>(&bytes[..len]).is_err());
        }
    }
    let request = serialize_batch_request(&vec![Digest([1; 32])], &PublicKey([2; 32]));
    for len in 0..request.len() {
        match MempoolMessage::deserialize(&request[..len]) {
            Err(DecodeError::UnexpectedEnd) => {},
            other => panic!("length {}: unexpected {:?}", len, other),
        }
    }
}

#[test]
fn unknown_variant_is_rejected() {
    let mut bytes = serialize_batch(&sample_batch());
    bytes[0] = 2;
    assert!(matches!(MempoolMessage::deserialize(&bytes), Err(DecodeError::UnknownVariant)));
    assert!(matches!(
        MempoolMessage::deserialize(&[0, 1, 0, 0]),
        Err(DecodeError::UnknownVariant)
    ));
    assert!(matches!(MempoolMessage::deserialize(&[2, 0, 0]), Err(DecodeError::UnexpectedEnd)));
}

#[test]
fn oversized_length_is_rejected() {
    let mut frame = vec![0u8, 0, 0, 0];
    frame.extend_from_slice(&u64::MAX.to_le_bytes());
    frame.extend_from_slice(&[0u8; 64]);
    assert!(matches!(MempoolMessage::deserialize(&frame), Err(DecodeError::UnexpectedEnd)));
    let mut blob = vec![0u8, 0, 0, 0];
    blob.extend_from_slice(&1u64.to_le_bytes());
    blob.extend_from_slice(&u64::MAX.to_le_bytes());
    blob.extend_from_slice(&[0u8; 16]);
    assert!(matches!(MempoolMessage::deserialize(&blob), Err(DecodeError::UnexpectedEnd)));
}
