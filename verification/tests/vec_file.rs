use file_pipeline_core::vec_file::{decode_vec, encode_vec, VecFileError};

// The file's bytes are held in memory: what `save` would write, `load` reads.
fn save(embedding: &[f32]) -> Vec<u8> {
    let bits: Vec<u32> = embedding.iter().map(|v| v.to_bits()).collect();
    encode_vec(&bits)
}

fn load(data: &[u8]) -> Result<Vec<f32>, VecFileError> {
    let bits = decode_vec(data)?;
    Ok(bits.into_iter().map(f32::from_bits).collect())
}

#[test]
fn roundtrip() {
    let embedding = vec![1.0_f32, -0.5, 0.0, 3.15, f32::MIN, f32::MAX];
    let file = save(&embedding);
    let loaded = load(&file).expect("load");
    assert_eq!(embedding, loaded);
}

#[test]
fn empty_vec() {
    let embedding: Vec<f32> = vec![];
    let file = save(&embedding);
    let loaded = load(&file).expect("load");
    assert!(loaded.is_empty());
}

#[test]
fn bad_magic() {
    assert!(load(b"BAD1\x00\x00\x00\x00").is_err());
}

#[test]
fn truncated_file() {
    // magic + dim=2 but only 1 float
    let mut data = Vec::new();
    data.extend_from_slice(b"VEC1");
    data.extend_from_slice(&2u32.to_le_bytes());
    data.extend_from_slice(&1.0f32.to_le_bytes());
    assert!(load(&data).is_err());
}

#[test]
fn encoding_is_magic_dimension_then_little_endian_values() {
    assert_eq!(encode_vec(&vec![0x0403_0201, 7]), vec![b'V', b'E', b'C', b'1', 2, 0, 0, 0, 1, 2, 3, 4, 7, 0, 0, 0]);
    assert_eq!(decode_vec(&[b'V', b'E', b'C', b'1', 1, 0, 0, 0, 1, 2, 3, 4]), Ok(vec![0x0403_0201]));
}

#[test]
fn each_refusal_has_its_error() {
    assert_eq!(decode_vec(b"VEC1\x00\x00\x00"), Err(VecFileError::TooShort));
    assert_eq!(decode_vec(b"BAD1\x00\x00\x00\x00"), Err(VecFileError::BadMagic));
    assert_eq!(
        decode_vec(b"VEC1\x02\x00\x00\x00\x00\x00\x80\x3f"),
        Err(VecFileError::SizeMismatch { expected: 16, actual: 12, dim: 2 })
    );
}
