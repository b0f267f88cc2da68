use qfg5reenigne::qfg5resource::cursor::Cursor;
use qfg5reenigne::qfg5resource::error::{expect_computed, expect_magic, DecodeError};
use qfg5reenigne::qfg5resource::qfg5mdl::Qfg5TexCoord;
use qfg5reenigne::qfg5resource::record::read_records;

#[test]
fn cursor_reads_little_endian() {
    let data = [0x01u8, 0x02, 0x03, 0x04, 0x05, 0x06, 0x07, 0x08, 0x09, 0x0a, 0x0b, 0x0c, 0x0d, 0x0e, 0x0f];
    let mut c = Cursor::new(&data);
    assert_eq!(c.position(), 0);
    assert_eq!(c.read_u8(), Ok(0x01));
    assert_eq!(c.read_u16(), Ok(0x0302));
    assert_eq!(c.read_u32(), Ok(0x07060504));
    assert_eq!(c.position(), 7);
    assert_eq!(c.read_u64(), Ok(0x0f0e0d0c0b0a0908));
    assert_eq!(c.position(), 15);
    assert_eq!(c.read_u8(), Err(DecodeError::TruncatedInput { offset: 15, needed: 1, length: 15 }));
}

#[test]
fn cursor_failed_read_keeps_position() {
    let data = [1u8, 2, 3];
    let mut c = Cursor::new(&data);
    assert_eq!(c.read_u32(), Err(DecodeError::TruncatedInput { offset: 0, needed: 4, length: 3 }));
    assert_eq!(c.position(), 0);
    assert_eq!(c.read_u64(), Err(DecodeError::TruncatedInput { offset: 0, needed: 8, length: 3 }));
    assert_eq!(c.read_u16(), Ok(0x0201));
    assert_eq!(c.read_u16(), Err(DecodeError::TruncatedInput { offset: 2, needed: 2, length: 3 }));
    assert_eq!(c.position(), 2);
}

#[test]
fn cursor_seeks_anywhere_and_fails_when_reading_beyond() {
    let data = [1u8, 2, 3, 4];
    let mut c = Cursor::new(&data);
    c.seek(2);
    assert_eq!(c.read_u8(), Ok(3));
    c.seek(100);
    assert_eq!(c.position(), 100);
    assert_eq!(c.read_u8(), Err(DecodeError::TruncatedInput { offset: 100, needed: 1, length: 4 }));
    assert_eq!(c.read_slice(0), Err(DecodeError::TruncatedInput { offset: 100, needed: 0, length: 4 }));
    c.seek(4);
    assert_eq!(c.read_slice(0), Ok(&data[4..]));
}

#[test]
fn cursor_slices_bytes_and_skips() {
    let data = [1u8, 2, 3, 4, 5, 6];
    let mut c = Cursor::new(&data);
    assert_eq!(c.skip(1), Ok(()));
    assert_eq!(c.read_slice(2), Ok(&data[1..3]));
    assert_eq!(c.read_bytes(2), Ok(vec![4, 5]));
    assert_eq!(c.skip(2), Err(DecodeError::TruncatedInput { offset: 5, needed: 2, length: 6 }));
    assert_eq!(c.position(), 5);
    assert_eq!(
        c.read_bytes(u64::MAX),
        Err(DecodeError::TruncatedInput { offset: 5, needed: u64::MAX, length: 6 })
    );
    assert_eq!(c.skip(1), Ok(()));
    assert_eq!(c.position(), 6);
}

#[test]
fn cursor_reads_runs_of_words() {
    let data = [1u8, 0, 0, 0, 2, 0, 0, 0, 3, 0];
    let mut c = Cursor::new(&data);
    assert_eq!(c.read_words(0), Ok(vec![]));
    assert_eq!(c.read_words(2), Ok(vec![1, 2]));
    assert_eq!(c.position(), 8);
    c.seek(0);
    assert_eq!(c.read_words(3), Err(DecodeError::TruncatedInput { offset: 8, needed: 4, length: 10 }));
}

#[test]
fn records_are_read_one_after_the_other() {
    let mut data = Vec::new();
    for v in [1u32, 2, 3, 4, 5] {
        data.extend_from_slice(&v.to_le_bytes());
    }
    let mut c = Cursor::new(&data);
    assert_eq!(
        read_records::<Qfg5TexCoord>(&mut c, 2),
        Ok(vec![Qfg5TexCoord { u: 1, v: 2 }, Qfg5TexCoord { u: 3, v: 4 }])
    );
    assert_eq!(c.position(), 16);
    assert_eq!(
        read_records::<Qfg5TexCoord>(&mut c, 1),
        Err(DecodeError::TruncatedInput { offset: 20, needed: 4, length: 20 })
    );
}

#[test]
fn expectations_report_both_values() {
    assert_eq!(expect_magic("m", 7, 7), Ok(()));
    assert_eq!(
        expect_magic("m", 7, 8),
        Err(DecodeError::MagicMismatch { field: "m", expected: 7, actual: 8 })
    );
    assert_eq!(expect_computed("c", 1, 1), Ok(()));
    assert_eq!(
        expect_computed("c", 1, 0),
        Err(DecodeError::StructuralCrossCheckFailed { field: "c", expected: 1, actual: 0 })
    );
}
