use meow::store::{
    blob_from, decode_rows, decode_vector, encode_vector, to_row, EmbeddingRecord, StorageError,
};

fn bits(v: &[f32]) -> Vec<u32> {
    v.iter().map(|x| x.to_bits()).collect()
}

#[test]
fn encoding_is_length_then_words_least_significant_byte_first() {
    assert_eq!(
        encode_vector(&vec![1, 0x0403_0201, 0xffff_ffff]).unwrap(),
        vec![3, 0, 0, 0, 0, 0, 0, 0, 1, 0, 0, 0, 1, 2, 3, 4, 255, 255, 255, 255]
    );
    assert_eq!(encode_vector(&Vec::new()).unwrap(), vec![0, 0, 0, 0, 0, 0, 0, 0]);
}

#[test]
fn encoding_is_that_of_the_numbers_themselves() {
    let v: Vec<f32> = vec![0.0, -0.0, 1.0, -1.5, 0.1, f32::MAX, f32::MIN_POSITIVE, f32::INFINITY];
    assert_eq!(encode_vector(&bits(&v)).unwrap(), bincode::serialize(&v).unwrap());
    let back: Vec<f32> =
        bincode::deserialize(&encode_vector(&bits(&v)).unwrap()).unwrap();
    assert_eq!(bits(&back), bits(&v));
}

#[test]
fn round_trip_is_exact() {
    let v = bits(&[0.25, -3.5, 1e-30, 123456.79, f32::NAN, -0.0]);
    let blob = encode_vector(&v).unwrap();
    assert_eq!(decode_vector(&blob).unwrap(), v);
    let long: Vec<u32> = (0..1000u32).map(|i| i.wrapping_mul(2654435761)).collect();
    assert_eq!(decode_vector(&encode_vector(&long).unwrap()).unwrap(), long);
    assert_eq!(decode_vector(&encode_vector(&Vec::new()).unwrap()).unwrap(), Vec::<u32>::new());
}

#[test]
fn decoding_reads_exact_words() {
    assert_eq!(
        decode_vector(&vec![2, 0, 0, 0, 0, 0, 0, 0, 0x78, 0x56, 0x34, 0x12, 1, 0, 0, 0x80]).unwrap(),
        vec![0x1234_5678, 0x8000_0001]
    );
}

#[test]
fn trailing_bytes_are_left_unread() {
    let mut blob = encode_vector(&vec![7, 8]).unwrap();
    blob.extend_from_slice(&[9, 9, 9]);
    assert_eq!(decode_vector(&blob).unwrap(), vec![7, 8]);
}

#[test]
fn short_bytes_do_not_decode() {
    assert_eq!(decode_vector(&Vec::new()), Err(StorageError::Deserialization));
    assert_eq!(decode_vector(&vec![1, 0, 0, 0, 0, 0, 0]), Err(StorageError::Deserialization));
    assert_eq!(decode_vector(&vec![1, 0, 0, 0, 0, 0, 0, 0]), Err(StorageError::Deserialization));
    assert_eq!(
        decode_vector(&vec![2, 0, 0, 0, 0, 0, 0, 0, 1, 2, 3, 4, 5, 6, 7]),
        Err(StorageError::Deserialization)
    );
    assert_eq!(
        decode_vector(&vec![255, 255, 255, 255, 255, 255, 255, 255, 1, 2, 3, 4]),
        Err(StorageError::Deserialization)
    );
    assert_eq!(
        decode_vector(&vec![0, 0, 0, 0, 0, 0, 0, 0x40, 1, 2, 3, 4]),
        Err(StorageError::Deserialization)
    );
}

#[test]
fn serializer_failure_becomes_a_storage_error() {
    let failure: bincode::Error = Box::new(bincode::ErrorKind::SizeLimit);
    assert_eq!(blob_from(Err(failure)), Err(StorageError::Serialization));
    assert_eq!(blob_from(Ok(vec![1, 2, 3])), Ok(vec![1, 2, 3]));
}

#[test]
fn row_keeps_path_and_time() {
    let record = EmbeddingRecord {
        path: "/home/u/a.txt".to_string(),
        vector: bits(&[0.5, 0.25]),
        modified: 1_700_000_000,
    };
    let row = to_row(&record).unwrap();
    assert_eq!(row.path, "/home/u/a.txt");
    assert_eq!(row.modified, 1_700_000_000);
    assert_eq!(row.blob, bincode::serialize(&vec![0.5f32, 0.25f32]).unwrap());
}

#[test]
fn upsert_then_load_returns_the_vector() {
    let v = bits(&[0.1, 0.2, 0.3]);
    let record = EmbeddingRecord { path: "p".to_string(), vector: v.clone(), modified: 5 };
    let row = to_row(&record).unwrap();
    let loaded = decode_rows(&vec![(row.path, row.blob)]).unwrap();
    assert_eq!(loaded.len(), 1);
    assert_eq!(loaded[0].path, "p");
    assert_eq!(loaded[0].vector, v);
}

#[test]
fn scan_keeps_row_order() {
    let rows = vec![
        ("b".to_string(), encode_vector(&vec![2]).unwrap()),
        ("a".to_string(), encode_vector(&vec![1, 1]).unwrap()),
        ("c".to_string(), encode_vector(&Vec::new()).unwrap()),
    ];
    let loaded = decode_rows(&rows).unwrap();
    assert_eq!(loaded.iter().map(|v| v.path.as_str()).collect::<Vec<_>>(), vec!["b", "a", "c"]);
    assert_eq!(loaded[0].vector, vec![2]);
    assert_eq!(loaded[1].vector, vec![1, 1]);
    assert!(loaded[2].vector.is_empty());
    assert!(decode_rows(&Vec::new()).unwrap().is_empty());
}

#[test]
fn one_bad_row_fails_the_scan() {
    let rows = vec![
        ("good".to_string(), encode_vector(&vec![2]).unwrap()),
        ("bad".to_string(), vec![1, 2, 3]),
    ];
    assert!(matches!(decode_rows(&rows), Err(StorageError::Deserialization)));
}

#[test]
fn every_vector_has_its_bytes() {
    for n in [0usize, 1, 2, 7, 384, 4096] {
        let v: Vec<u32> = (0..n as u32).collect();
        let bytes = encode_vector(&v).unwrap();
        assert_eq!(bytes.len(), 8 + 4 * n);
        let record = EmbeddingRecord { path: format!("/p{}", n), vector: v, modified: -1 };
        assert!(to_row(&record).is_ok());
    }
}
