use qfg5reenigne::qfg5resource::error::DecodeError;
use qfg5reenigne::qfg5resource::qfg5spk::{parse_directory, SpkArchive, SpkItem, SpkTrailer};

struct Entry<'a> {
    name: &'a [u8],
    data: &'a [u8],
    compressed: u32,
}

fn entry<'a>(name: &'a [u8], data: &'a [u8]) -> Entry<'a> {
    Entry { name, data, compressed: data.len() as u32 }
}

fn trailer(count: u16, dup: u16, a: u32, b: u32) -> Vec<u8> {
    let mut t = Vec::new();
    t.extend_from_slice(&0x4b50u16.to_le_bytes());
    t.extend_from_slice(&0x0705u16.to_le_bytes());
    t.extend_from_slice(&[0; 4]);
    t.extend_from_slice(&count.to_le_bytes());
    t.extend_from_slice(&dup.to_le_bytes());
    t.extend_from_slice(&a.to_le_bytes());
    t.extend_from_slice(&b.to_le_bytes());
    t.extend_from_slice(&[0; 2]);
    t
}

// A file made of `lead` leading bytes, the entries, their directory and the trailer.
fn spk(lead: usize, entries: &[Entry]) -> Vec<u8> {
    let mut local = Vec::new();
    let mut directory = Vec::new();
    for e in entries {
        let location = local.len() as u32;
        local.extend_from_slice(&[0xee; 0x42]);
        local.extend_from_slice(e.name);
        local.extend_from_slice(e.data);
        directory.extend_from_slice(&[0; 20]);
        directory.extend_from_slice(&e.compressed.to_le_bytes());
        directory.extend_from_slice(&(e.data.len() as u32).to_le_bytes());
        directory.extend_from_slice(&(e.name.len() as u32).to_le_bytes());
        directory.extend_from_slice(&[0; 10]);
        directory.extend_from_slice(&location.to_le_bytes());
        directory.extend_from_slice(e.name);
    }
    let mut file = vec![0x11u8; lead];
    file.extend_from_slice(&local);
    file.extend_from_slice(&directory);
    file.extend(trailer(
        entries.len() as u16,
        entries.len() as u16,
        directory.len() as u32,
        local.len() as u32,
    ));
    file
}

#[test]
fn spk_lists_entries_and_reads_them() {
    let file = spk(5, &[entry(b"DATA/A.IMG", b"first"), entry(b"B.NOD", b""), entry(b"C", b"third!")]);
    let archive = SpkArchive::new(&file).unwrap();
    let items = archive.get_items();
    assert_eq!(items.len(), 3);
    assert_eq!(items[0].filename, "DATA/A.IMG");
    assert_eq!(items[0].offset, 5 + 0x42 + 10);
    assert_eq!(items[0].length, 5);
    assert_eq!(items[1].filename, "B.NOD");
    assert_eq!(items[1].offset, 5 + (0x42 + 10 + 5) + 0x42 + 5);
    assert_eq!(items[1].length, 0);
    assert_eq!(items[2].filename, "C");
    assert_eq!(items[2].length, 6);
    assert_eq!(archive.read_item(&items[0]).unwrap(), b"first");
    assert_eq!(archive.read_item(&items[1]).unwrap(), b"");
    assert_eq!(archive.read_item(&items[2]).unwrap(), b"third!");
}

#[test]
fn spk_empty_archive() {
    let file = spk(0, &[]);
    assert_eq!(file.len(), 22);
    let archive = SpkArchive::new(&file).unwrap();
    assert!(archive.get_items().is_empty());
}

#[test]
fn spk_names_entries_that_are_not_utf8() {
    let mut entries = Vec::new();
    for _ in 0..12 {
        entries.push(entry(b"ok", b"x"));
    }
    entries[0] = entry(b"\xff\xfe", b"x");
    entries[11] = entry(b"\xc3", b"x");
    let file = spk(0, &entries);
    let archive = SpkArchive::new(&file).unwrap();
    let items = archive.get_items();
    assert_eq!(items[0].filename, "<corrupt-0>");
    assert_eq!(items[1].filename, "ok");
    assert_eq!(items[11].filename, "<corrupt-11>");
}

#[test]
fn spk_trailer_gives_offsets() {
    let t = SpkTrailer::parse(&trailer(7, 7, 100, 1000), 5000).unwrap();
    assert_eq!(t.num_files, 7);
    assert_eq!(t.central_directory_offset, 5000 - 100 - 22);
    assert_eq!(t.local_file_start, 5000 - 100 - 1000 - 22);
    assert_eq!(t.file_len, 5000);
}

#[test]
fn spk_rejects_bad_signature() {
    let mut t = trailer(0, 0, 0, 0);
    t[0] = 0x51;
    assert_eq!(
        SpkTrailer::parse(&t, 22),
        Err(DecodeError::MagicMismatch { field: "pk", expected: 0x4b50, actual: 0x4b51 })
    );
    let mut t = trailer(0, 0, 0, 0);
    t[3] = 0x06;
    assert_eq!(
        SpkTrailer::parse(&t, 22),
        Err(DecodeError::MagicMismatch { field: "id", expected: 0x0705, actual: 0x0605 })
    );
}

#[test]
fn spk_rejects_counts_that_differ() {
    assert_eq!(
        SpkTrailer::parse(&trailer(3, 4, 0, 0), 22),
        Err(DecodeError::StructuralCrossCheckFailed { field: "file count", expected: 3, actual: 4 })
    );
}

#[test]
fn spk_rejects_sizes_beyond_the_file() {
    assert_eq!(
        SpkTrailer::parse(&trailer(0, 0, 10, 20), 51),
        Err(DecodeError::TruncatedInput { offset: 0, needed: 52, length: 51 })
    );
    assert!(SpkTrailer::parse(&trailer(0, 0, 10, 20), 52).is_ok());
    assert_eq!(
        SpkTrailer::parse(&trailer(0, 0, u32::MAX, u32::MAX), u64::MAX).unwrap().local_file_start,
        u64::MAX - 2 * (u32::MAX as u64) - 22
    );
}

#[test]
fn spk_rejects_compressed_entries() {
    let mut e = entry(b"A", b"data");
    e.compressed = 3;
    let file = spk(0, &[e]);
    assert_eq!(
        SpkArchive::new(&file),
        Err(DecodeError::UnsupportedVariant { field: "compressed entry", actual: 3 })
    );
}

#[test]
fn spk_rejects_short_files() {
    assert_eq!(
        SpkArchive::new(&[0u8; 21]),
        Err(DecodeError::TruncatedInput { offset: 0, needed: 22, length: 21 })
    );
    assert_eq!(
        SpkTrailer::parse(&[0x50, 0x4b, 0x05], 22),
        Err(DecodeError::TruncatedInput { offset: 2, needed: 2, length: 3 })
    );
}

#[test]
fn spk_rejects_truncated_directory() {
    let t = SpkTrailer { num_files: 1, central_directory_offset: 0, local_file_start: 0, file_len: 100 };
    assert_eq!(
        parse_directory(&[0u8; 19], &t),
        Err(DecodeError::TruncatedInput { offset: 0, needed: 20, length: 19 })
    );
    let mut record = vec![0u8; 46];
    record[28] = 4;
    record.extend_from_slice(b"abc");
    assert_eq!(
        parse_directory(&record, &t),
        Err(DecodeError::TruncatedInput { offset: 46, needed: 4, length: 49 })
    );
}

#[test]
fn spk_directory_alone_gives_entries() {
    let t = SpkTrailer { num_files: 1, central_directory_offset: 500, local_file_start: 100, file_len: 1000 };
    let mut record = vec![0u8; 20];
    record.extend_from_slice(&9u32.to_le_bytes());
    record.extend_from_slice(&9u32.to_le_bytes());
    record.extend_from_slice(&3u32.to_le_bytes());
    record.extend_from_slice(&[0; 10]);
    record.extend_from_slice(&40u32.to_le_bytes());
    record.extend_from_slice(b"abc");
    record.extend_from_slice(b"whatever follows");
    let items = parse_directory(&record, &t).unwrap();
    assert_eq!(
        items,
        vec![SpkItem { filename: "abc".to_string(), offset: 100 + 40 + 0x42 + 3, length: 9 }]
    );
}

#[test]
fn spk_read_item_rejects_ranges_outside_the_file() {
    let file = spk(0, &[entry(b"A", b"data")]);
    let archive = SpkArchive::new(&file).unwrap();
    let item = SpkItem { filename: String::new(), offset: file.len() as u64 - 1, length: 2 };
    assert_eq!(
        archive.read_item(&item),
        Err(DecodeError::TruncatedInput {
            offset: file.len() as u64 - 1,
            needed: 2,
            length: file.len() as u64
        })
    );
    let item = SpkItem { filename: String::new(), offset: file.len() as u64, length: 0 };
    assert_eq!(archive.read_item(&item).unwrap(), b"");
}
