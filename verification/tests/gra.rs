use qfg5reenigne::qfg5resource::error::DecodeError;
use qfg5reenigne::qfg5resource::qfg5gra::{decode_rgb555_palette, GraDecoder};

fn gra(mode: u32, width: u32, height: u32, frames: &[&[u8]]) -> Vec<u8> {
    let mut data = Vec::new();
    data.extend_from_slice(&mode.to_le_bytes());
    data.extend_from_slice(&1u32.to_le_bytes());
    let mut palette = [0u8; 512];
    palette[2..4].copy_from_slice(&0x7fffu16.to_le_bytes());
    palette[4..6].copy_from_slice(&0x7c00u16.to_le_bytes());
    palette[6..8].copy_from_slice(&0x0210u16.to_le_bytes());
    data.extend_from_slice(&palette);
    data.extend_from_slice(&524u32.to_le_bytes());
    assert_eq!(data.len(), 524);
    for v in [11u32, 22, width, height, frames.len() as u32, 5, 0] {
        data.extend_from_slice(&v.to_le_bytes());
    }
    let mut offset = 28 + 4 * frames.len() as u32;
    for f in frames {
        data.extend_from_slice(&offset.to_le_bytes());
        offset += f.len() as u32;
    }
    for f in frames {
        data.extend_from_slice(f);
    }
    data
}

#[test]
fn gra_decodes_one_raw_frame() {
    let data = gra(0, 2, 2, &[&[1, 2, 3, 4]]);
    let gra = GraDecoder::new(&data).unwrap();
    assert_eq!(gra.sprite_collections.len(), 1);
    let c = &gra.sprite_collections[0];
    assert_eq!((c.x_position, c.y_position, c.width, c.height, c.frame_delay), (11, 22, 2, 2, 5));
    assert_eq!(c.sprites.len(), 1);
    assert_eq!(c.sprites[0].pixels, vec![1, 2, 3, 4]);
    assert_eq!(gra.palette.len(), 256);
    assert_eq!(gra.palette[0], (0, 0, 0));
    assert_eq!(gra.palette[1], (255, 255, 255));
    assert_eq!(gra.palette[2], (255, 0, 0));
    assert_eq!(gra.palette[3], (0, 131, 131));
}

#[test]
fn gra_decodes_rle_frames() {
    let data = gra(2, 3, 1, &[&[3, 7], &[253, 1, 2, 3]]);
    let gra = GraDecoder::new(&data).unwrap();
    let c = &gra.sprite_collections[0];
    assert_eq!(c.sprites.len(), 2);
    assert_eq!(c.sprites[0].pixels, vec![7, 7, 7]);
    assert_eq!(c.sprites[1].pixels, vec![1, 2, 3]);
}

#[test]
fn gra_rejects_unknown_mode() {
    let data = gra(1, 2, 2, &[&[1, 2, 3, 4]]);
    assert_eq!(
        GraDecoder::new(&data),
        Err(DecodeError::UnsupportedVariant { field: "colour mode", actual: 1 })
    );
}

#[test]
fn gra_unknown_mode_without_frames_is_accepted() {
    let data = gra(9, 2, 2, &[]);
    let gra = GraDecoder::new(&data).unwrap();
    assert!(gra.sprite_collections[0].sprites.is_empty());
}

#[test]
fn gra_rejects_truncated_raw_frame() {
    let mut data = gra(0, 2, 2, &[&[1, 2, 3, 4]]);
    data.pop();
    assert_eq!(
        GraDecoder::new(&data),
        Err(DecodeError::TruncatedInput { offset: 556, needed: 4, length: 559 })
    );
}

#[test]
fn gra_rejects_truncated_header() {
    assert_eq!(
        GraDecoder::new(&[0u8; 100]),
        Err(DecodeError::TruncatedInput { offset: 8, needed: 512, length: 100 })
    );
}

#[test]
fn rgb555_scales_like_floats() {
    for c in 0..32u32 {
        let expected = ((255.0f32 / 31.0) * c as f32) as u8;
        let mut packed = [0u8; 512];
        packed[0..2].copy_from_slice(&(((c << 10) | (c << 5) | c) as u16).to_le_bytes());
        packed[2..4].copy_from_slice(&((c << 5) as u16).to_le_bytes());
        let palette = decode_rgb555_palette(&packed);
        assert_eq!(palette[0], (expected, expected, expected));
        assert_eq!(palette[1], (0, expected, 0));
    }
}

#[test]
fn rgb555_ignores_top_bit() {
    let mut packed = [0u8; 512];
    packed[0..2].copy_from_slice(&0x8000u16.to_le_bytes());
    packed[510..512].copy_from_slice(&0xffffu16.to_le_bytes());
    let palette = decode_rgb555_palette(&packed);
    assert_eq!(palette[0], (0, 0, 0));
    assert_eq!(palette[255], (255, 255, 255));
}
