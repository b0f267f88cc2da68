use qfg5reenigne::qfg5resource::error::DecodeError;
use qfg5reenigne::qfg5resource::qfg5qgf::QgfDecoder;

fn qgf(char_height: u32, flag_3d: u32, glyphs: &[(u8, &[u8])]) -> Vec<u8> {
    let mut data = Vec::new();
    for v in [13u32, char_height, 1, 0, flag_3d, 0] {
        data.extend_from_slice(&v.to_le_bytes());
    }
    let mut widths = [0u8; 512];
    for (n, (w, _)) in glyphs.iter().enumerate() {
        widths[n] = *w;
    }
    data.extend_from_slice(&widths);
    let mut offset = 24 + 512 + 2048u32;
    for n in 0..512 {
        data.extend_from_slice(&offset.to_le_bytes());
        if n < glyphs.len() {
            offset += glyphs[n].1.len() as u32;
        }
    }
    for (_, bytes) in glyphs {
        data.extend_from_slice(bytes);
    }
    data
}

#[test]
fn qgf_decodes_literals_and_skips() {
    let data = qgf(2, 1, &[(2, &[5, 0xaa, 0xfe, 0xbb, 7, 0xcc]), (1, &[0xff, 0, 3, 0])]);
    let font = QgfDecoder::new(&data).unwrap();
    assert_eq!(font.max_char_width, 13);
    assert_eq!(font.char_height, 2);
    assert!(font.is_3d);
    assert_eq!(font.chars.len(), 512);
    assert_eq!(font.chars[0].width, 2);
    assert_eq!(font.chars[0].data, vec![5, 0, 0, 7]);
    assert_eq!(font.chars[1].width, 1);
    assert_eq!(font.chars[1].data, vec![0, 3]);
    assert_eq!(font.chars[2].width, 0);
    assert!(font.chars[2].data.is_empty());
    assert!(font.chars[511].data.is_empty());
}

#[test]
fn qgf_skip_may_pass_the_end() {
    // 0x80 stands for 128 background pixels, of which only 3 fit.
    let data = qgf(4, 0, &[(1, &[1, 0, 0x80, 0])]);
    let font = QgfDecoder::new(&data).unwrap();
    assert!(!font.is_3d);
    assert_eq!(font.chars[0].data, vec![1, 0, 0, 0]);
}

#[test]
fn qgf_rejects_truncated_glyph() {
    let data = qgf(2, 0, &[(1, &[1, 0, 2])]);
    assert_eq!(
        QgfDecoder::new(&data),
        Err(DecodeError::TruncatedInput { offset: 2587, needed: 1, length: 2587 })
    );
}

#[test]
fn qgf_rejects_truncated_tables() {
    assert_eq!(
        QgfDecoder::new(&[0u8; 23]),
        Err(DecodeError::TruncatedInput { offset: 20, needed: 4, length: 23 })
    );
    assert_eq!(
        QgfDecoder::new(&[0u8; 100]),
        Err(DecodeError::TruncatedInput { offset: 24, needed: 512, length: 100 })
    );
}
