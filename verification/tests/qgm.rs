use qfg5reenigne::qfg5resource::cursor::Cursor;
use qfg5reenigne::qfg5resource::error::DecodeError;
use qfg5reenigne::qfg5resource::qfg5qgm::{
    decode_digit_base_36, demangle_text, encode_base_36, encode_digit_base_36, QgmDecoder,
    QgmLabel, QgmMessage,
};

#[test]
fn test_encode_digit_base_36() {
    assert_eq!(encode_digit_base_36(0), Some('0'));
    assert_eq!(encode_digit_base_36(9), Some('9'));
    assert_eq!(encode_digit_base_36(10), Some('A'));
    assert_eq!(encode_digit_base_36(35), Some('Z'));
    assert!(encode_digit_base_36(36).is_none())
}

#[test]
fn test_encode_base_36() {
    assert_eq!(encode_base_36(0, 0), Some("".to_string()));
    assert_eq!(encode_base_36(0, 5), Some("00000".to_string()));
    assert_eq!(encode_base_36(36, 2), Some("10".to_string()));
    assert_eq!(encode_base_36(46655, 3), Some("ZZZ".to_string()));
    assert_eq!(encode_base_36(415, 3), Some("0BJ".to_string()));
    assert!(encode_base_36(36, 1).is_none());
}

#[test]
fn base_36_digits_round_trip() {
    for v in 0..36u16 {
        let c = encode_digit_base_36(v).unwrap();
        assert_eq!(decode_digit_base_36(c), Some(v));
    }
    assert_eq!(decode_digit_base_36('a'), None);
    assert_eq!(decode_digit_base_36('/'), None);
    assert_eq!(decode_digit_base_36(':'), None);
    assert_eq!(decode_digit_base_36('@'), None);
    assert_eq!(decode_digit_base_36('['), None);
}

#[test]
fn base_36_fits_exactly_below_the_power() {
    assert_eq!(encode_base_36(35, 1), Some("Z".to_string()));
    assert_eq!(encode_base_36(1295, 2), Some("ZZ".to_string()));
    assert!(encode_base_36(1296, 2).is_none());
    assert!(encode_base_36(46656, 3).is_none());
    assert!(encode_base_36(1, 0).is_none());
    assert_eq!(encode_base_36(65535, 4), Some("1EKF".to_string()));
    assert_eq!(encode_base_36(65535, 6), Some("001EKF".to_string()));
}

fn mangle(text: &[u8]) -> Vec<u8> {
    let mut out = Vec::new();
    let whole = text.len() / 4 * 4;
    for chunk in text[..whole].chunks(4) {
        let w = u32::from_le_bytes([chunk[0], chunk[1], chunk[2], chunk[3]]);
        let m = w.rotate_left(15) ^ 0xf1acc1d;
        out.extend_from_slice(&m.to_le_bytes());
    }
    for b in &text[whole..] {
        out.push(!b);
    }
    out
}

#[test]
fn demangle_undoes_mangle_on_whole_words() {
    let text = b"Hail, hero! Welcome to Silmaria.";
    assert_eq!(text.len() % 4, 0);
    assert_eq!(demangle_text(&mangle(text)), "Hail, hero! Welcome to Silmaria.");
}

#[test]
fn demangle_inverts_trailing_bytes() {
    assert_eq!(demangle_text(&mangle(b"abcdefg")), "abcdefg");
    assert_eq!(demangle_text(&[0x9e, 0x9d]), "ab");
    assert_eq!(demangle_text(&[]), "");
}

#[test]
fn demangle_known_word() {
    // 0x0f1acc1d ^ key = 0, which any rotation leaves 0.
    assert_eq!(demangle_text(&[0x1d, 0xcc, 0x1a, 0x0f]), "\0\0\0\0");
    // (key ^ 0x8000) rotates right by 15 to 1.
    assert_eq!(demangle_text(&[0x1d, 0x4c, 0x1a, 0x0f]), "\u{1}\0\0\0");
}

#[test]
fn demangle_maps_high_bytes_to_latin_1() {
    // The trailing byte 0x16 inverts to 0xe9.
    assert_eq!(demangle_text(&[0x16]), "\u{e9}");
}

fn qgm_header(num_messages: u32, file_id: u16) -> Vec<u8> {
    let mut v = Vec::new();
    v.extend_from_slice(&0x51474d20u32.to_le_bytes());
    v.extend_from_slice(&1u32.to_le_bytes());
    v.extend_from_slice(&num_messages.to_le_bytes());
    v.extend_from_slice(&0u16.to_le_bytes());
    v.extend_from_slice(&file_id.to_le_bytes());
    v
}

fn qgm_record(ids: [u16; 4], speaker: u16, options: u16, flags: u16, msg_id: u16, len: u16, label: u16) -> Vec<u8> {
    let fields: [u16; 16] = [
        ids[0], ids[1], ids[2], ids[3], speaker, 0, 0, 0, options, flags, 0, msg_id, len, 0, label, 0,
    ];
    let mut v = Vec::new();
    for f in fields {
        v.extend_from_slice(&f.to_le_bytes());
    }
    v
}

#[test]
fn qgm_decodes_plain_and_mangled_messages() {
    let mut data = qgm_header(2, 415);
    data.extend(qgm_record([1, 2, 3, 4], 9, 2, 0, 77, 5, 1));
    data.extend_from_slice(b"LABEL0000001\0");
    data.extend_from_slice(b"OPTION00000A\0");
    data.extend_from_slice(b"OPTION00000B\0");
    data.extend_from_slice(b"hello");
    data.extend_from_slice(&[0xaa; 4]);
    let secret = mangle(b"secret!");
    data.extend(qgm_record([5, 6, 7, 8], 10, 0, 4, 78, secret.len() as u16, 0));
    data.extend_from_slice(&secret);
    data.extend_from_slice(&[0; 4]);

    let qgm = QgmDecoder::new(&data).unwrap();
    assert_eq!(qgm.file_id, 415);
    assert_eq!(qgm.messages.len(), 2);
    let m = &qgm.messages[0];
    assert_eq!(m.id, [1, 2, 3, 4]);
    assert_eq!(m.speaker_id, 9);
    assert_eq!(m.msg_id, 77);
    assert_eq!(m.message_label.unwrap().to_string(), "LABEL0000001");
    assert_eq!(m.dialog_options.len(), 2);
    assert_eq!(m.dialog_options[0].to_string(), "OPTION00000A");
    assert_eq!(m.dialog_options[1].to_string(), "OPTION00000B");
    assert_eq!(m.text, "hello");
    let m = &qgm.messages[1];
    assert_eq!(m.id, [5, 6, 7, 8]);
    assert!(m.message_label.is_none());
    assert!(m.dialog_options.is_empty());
    assert_eq!(m.text, "secret!");
    assert_eq!(QgmLabel::encode(&qgm, m), Some("0BJ0506.078".to_string()));
}

#[test]
fn qgm_rejects_bad_magic() {
    let mut data = qgm_header(0, 0);
    data[0] = 0x21;
    assert_eq!(
        QgmDecoder::new(&data),
        Err(DecodeError::MagicMismatch { field: "magic", expected: 0x51474d20, actual: 0x51474d21 })
    );
}

#[test]
fn qgm_rejects_label_without_terminator() {
    let mut data = qgm_header(1, 0);
    data.extend(qgm_record([0; 4], 0, 0, 0, 0, 0, 1));
    data.extend_from_slice(b"LABEL0000001X");
    data.extend_from_slice(&[0; 4]);
    assert_eq!(
        QgmDecoder::new(&data),
        Err(DecodeError::UnsupportedVariant { field: "label terminator", actual: b'X' as u64 })
    );
}

#[test]
fn qgm_rejects_plain_text_that_is_not_utf8() {
    let mut data = qgm_header(1, 0);
    data.extend(qgm_record([0; 4], 0, 0, 0, 0, 2, 0));
    data.extend_from_slice(&[0xff, 0xfe]);
    data.extend_from_slice(&[0; 4]);
    assert_eq!(QgmDecoder::new(&data), Err(DecodeError::TextDecodeFailed { offset: 48 }));
}

#[test]
fn qgm_rejects_truncated_input() {
    let data = qgm_header(1, 0);
    assert_eq!(
        QgmDecoder::new(&data),
        Err(DecodeError::TruncatedInput { offset: 16, needed: 32, length: 16 })
    );
    let mut data = qgm_header(1, 0);
    data.extend(qgm_record([0; 4], 0, 0, 0, 0, 3, 0));
    data.extend_from_slice(b"abc");
    assert_eq!(
        QgmDecoder::new(&data),
        Err(DecodeError::TruncatedInput { offset: 51, needed: 4, length: 51 })
    );
    assert_eq!(
        QgmDecoder::new(&[0x20, 0x4d]),
        Err(DecodeError::TruncatedInput { offset: 0, needed: 4, length: 2 })
    );
}

#[test]
fn qgm_ignores_bytes_behind_the_last_message() {
    let mut data = qgm_header(0, 7);
    data.extend_from_slice(b"trailing");
    let qgm = QgmDecoder::new(&data).unwrap();
    assert_eq!(qgm.file_id, 7);
    assert!(qgm.messages.is_empty());
}

#[test]
fn label_reads_thirteen_bytes() {
    let data = b"ABCDEFGHIJKL\0rest";
    let mut cursor = Cursor::new(data);
    let label = QgmLabel::new(&mut cursor).unwrap();
    assert_eq!(label.to_string(), "ABCDEFGHIJKL");
    assert_eq!(cursor.position(), 13);
    assert_eq!(
        QgmLabel::new(&mut cursor),
        Err(DecodeError::TruncatedInput { offset: 13, needed: 13, length: 17 })
    );
}

#[test]
fn label_renders_bytes_as_code_points() {
    let data = [0xe9, b'b', 0, b'd', b'e', b'f', b'g', b'h', b'i', b'j', b'k', b'l', 0];
    let mut cursor = Cursor::new(&data);
    let label = QgmLabel::new(&mut cursor).unwrap();
    assert_eq!(label.to_string(), "\u{e9}b\0defghijkl");
}

fn message(id: [u16; 4]) -> QgmMessage {
    QgmMessage {
        id,
        speaker_id: 0,
        msg_id: 0,
        message_label: None,
        dialog_options: Vec::new(),
        text: String::new(),
    }
}

#[test]
fn label_code_has_dotted_form() {
    let qgm = QgmDecoder { file_id: 46655, messages: Vec::new() };
    assert_eq!(QgmLabel::encode(&qgm, &message([0, 36, 1295, 35])), Some("ZZZ0010.ZZZ".to_string()));
    let qgm = QgmDecoder { file_id: 0, messages: Vec::new() };
    assert_eq!(QgmLabel::encode(&qgm, &message([0, 0, 0, 0])), Some("0000000.000".to_string()));
}

#[test]
fn label_code_fails_where_a_value_does_not_fit() {
    let small = QgmDecoder { file_id: 0, messages: Vec::new() };
    let large = QgmDecoder { file_id: 46656, messages: Vec::new() };
    assert_eq!(QgmLabel::encode(&large, &message([0, 0, 0, 0])), None);
    assert_eq!(QgmLabel::encode(&small, &message([1296, 0, 0, 0])), None);
    assert_eq!(QgmLabel::encode(&small, &message([0, 1296, 0, 0])), None);
    assert_eq!(QgmLabel::encode(&small, &message([0, 0, 1296, 0])), None);
    assert_eq!(QgmLabel::encode(&small, &message([0, 0, 0, 36])), None);
}
