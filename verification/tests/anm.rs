use qfg5reenigne::qfg5resource::error::DecodeError;
use qfg5reenigne::qfg5resource::qfg5anm::{AnmBlock, AnmDecoder};

fn anm_header(magic: u32, header_size: u32, name: &[u8; 16], anims: u32, blocks: u32, delay: u32) -> Vec<u8> {
    let mut v = Vec::new();
    v.extend_from_slice(&magic.to_le_bytes());
    v.extend_from_slice(&header_size.to_le_bytes());
    v.extend_from_slice(name);
    v.extend_from_slice(&anims.to_le_bytes());
    v.extend_from_slice(&blocks.to_le_bytes());
    v.extend_from_slice(&delay.to_le_bytes());
    v
}

fn anm_block(a: u32, b: u32, first: f32) -> Vec<u8> {
    let mut v = Vec::new();
    v.extend_from_slice(&a.to_le_bytes());
    v.extend_from_slice(&b.to_le_bytes());
    for k in 0..12 {
        v.extend_from_slice(&(first + k as f32).to_le_bytes());
    }
    v
}

#[test]
fn anm_decodes_two_anims_of_one_block() {
    let mut data = anm_header(0x564f5838, 36, b"walk\0\0\0\0\0\0\0\0\0\0\0\0", 2, 1, 7);
    data.extend(anm_block(1, 0, 1.0));
    data.extend(anm_block(1, 0, 100.0));
    let anm = AnmDecoder::new(&data).unwrap();
    assert_eq!(anm.name, "walk\0\0\0\0\0\0\0\0\0\0\0\0");
    assert_eq!(anm.delay, 7);
    assert_eq!(anm.anims.len(), 2);
    assert_eq!(anm.anims[0].blocks.len(), 1);
    let b: AnmBlock = anm.anims[1].blocks[0];
    assert_eq!(f32::from_bits(b.translation[0]), 100.0);
    assert_eq!(f32::from_bits(b.translation[2]), 102.0);
    assert_eq!(f32::from_bits(b.rotation[0]), 103.0);
    assert_eq!(f32::from_bits(b.rotation[8]), 111.0);
}

#[test]
fn anm_accepts_second_magic() {
    let data = anm_header(0x5452494d, 36, b"0123456789abcdef", 0, 5, 0);
    let anm = AnmDecoder::new(&data).unwrap();
    assert_eq!(anm.name, "0123456789abcdef");
    assert!(anm.anims.is_empty());
}

#[test]
fn anm_rejects_bad_magic() {
    let data = anm_header(0x12345678, 36, b"0123456789abcdef", 0, 0, 0);
    assert_eq!(
        AnmDecoder::new(&data),
        Err(DecodeError::MagicMismatch { field: "magic", expected: 0x564f5838, actual: 0x12345678 })
    );
}

#[test]
fn anm_rejects_bad_header_size() {
    let data = anm_header(0x564f5838, 40, b"0123456789abcdef", 0, 0, 0);
    assert_eq!(
        AnmDecoder::new(&data),
        Err(DecodeError::StructuralCrossCheckFailed { field: "header size", expected: 36, actual: 40 })
    );
}

#[test]
fn anm_rejects_bad_guard_words() {
    let mut data = anm_header(0x564f5838, 36, b"0123456789abcdef", 1, 1, 0);
    data.extend(anm_block(2, 0, 0.0));
    assert_eq!(
        AnmDecoder::new(&data),
        Err(DecodeError::MagicMismatch { field: "block guard a", expected: 1, actual: 2 })
    );
    let mut data = anm_header(0x564f5838, 36, b"0123456789abcdef", 1, 1, 0);
    data.extend(anm_block(1, 9, 0.0));
    assert_eq!(
        AnmDecoder::new(&data),
        Err(DecodeError::MagicMismatch { field: "block guard b", expected: 0, actual: 9 })
    );
}

#[test]
fn anm_rejects_trailing_bytes() {
    let mut data = anm_header(0x564f5838, 36, b"0123456789abcdef", 1, 1, 0);
    data.extend(anm_block(1, 0, 0.0));
    data.push(0);
    assert_eq!(
        AnmDecoder::new(&data),
        Err(DecodeError::TrailingDataError { consumed: 92, length: 93 })
    );
}

#[test]
fn anm_rejects_truncated_block() {
    let mut data = anm_header(0x564f5838, 36, b"0123456789abcdef", 1, 1, 0);
    data.extend(anm_block(1, 0, 0.0));
    data.truncate(90);
    assert_eq!(
        AnmDecoder::new(&data),
        Err(DecodeError::TruncatedInput { offset: 88, needed: 4, length: 90 })
    );
}

#[test]
fn anm_rejects_name_that_is_not_utf8() {
    let data = anm_header(0x564f5838, 36, b"\xff123456789abcdef", 0, 0, 0);
    assert_eq!(AnmDecoder::new(&data), Err(DecodeError::TextDecodeFailed { offset: 8 }));
}
