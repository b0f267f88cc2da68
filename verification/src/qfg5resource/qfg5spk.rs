//! SPK: an archive of uncompressed entries with its directory at the end.
//!
//! The archive is decoded in two steps, so that a caller with a file need
//! not hold all of it: the 22-byte trailer gives the place of the directory,
//! and the directory gives the entries. [`SpkArchive`] does both on a buffer
//! that holds the whole file.
use crate::qfg5resource::bytes::{
    lemma_u16_at_bytes, lemma_u32_at_bytes, u16_at, u16_bytes, u32_at, u32_bytes,
};
use crate::qfg5resource::cursor::{fits, short, Cursor};
use crate::qfg5resource::decode::zeros;
use crate::qfg5resource::error::{expect_computed, expect_magic, DecodeError};
use crate::qfg5resource::parse::{lemma_views_push, views};
use crate::qfg5resource::text::{string_from_utf8, string_push};
use vstd::prelude::*;
use vstd::slice::{slice_subrange, slice_to_vec};
use vstd::utf8::{decode_utf8, valid_utf8};

verus! {

/// The length of the trailer.
pub const SPK_TRAILER_SIZE: usize = 22;

/// The two parts of the signature.
pub const SPK_MAGIC_PK: u16 = 0x4b50;

pub const SPK_MAGIC_ID: u16 = 0x0705;

/// The length of the header in front of each entry's bytes, without the
/// file name that it repeats.
pub const SPK_LOCAL_HEADER_SIZE: u64 = 0x42;

/// What the trailer says of a file of `file_len` bytes.
#[derive(Debug, Clone, Copy, PartialEq, Eq)]
pub struct SpkTrailer {
    pub num_files: u16,
    pub central_directory_offset: u64,
    pub local_file_start: u64,
    pub file_len: u64,
}

/// One entry: its name and where its bytes lie in the file.
#[derive(Debug, Clone, PartialEq, Eq)]
pub struct SpkItem {
    pub filename: String,
    pub offset: u64,
    pub length: usize,
}

/// The mathematical content of an [`SpkItem`].
pub struct SpkEntry {
    pub filename: Seq<char>,
    pub offset: u64,
    pub length: usize,
}

impl View for SpkItem {
    type V = SpkEntry;

    open spec fn view(&self) -> SpkEntry {
        SpkEntry { filename: self.filename@, offset: self.offset, length: self.length }
    }
}

/// An archive over a buffer that holds the whole file.
#[derive(Debug, Clone, PartialEq, Eq)]
pub struct SpkArchive<'a> {
    data: &'a [u8],
    items: Vec<SpkItem>,
}

/// The mathematical content of an [`SpkArchive`].
pub struct Archive {
    pub data: Seq<u8>,
    pub items: Seq<SpkEntry>,
}

impl<'a> View for SpkArchive<'a> {
    type V = Archive;

    closed spec fn view(&self) -> Archive {
        Archive { data: self.data@, items: views(self.items@) }
    }
}

/// What the trailer `trailer` of a file of `file_len` bytes says: the two
/// signature words, four unused bytes, the number of entries twice, and the
/// sizes `a` and `b`. The directory starts `a + 22` bytes before the end of
/// the file, the entries `b` bytes before the directory.
pub open spec fn trailer_at(trailer: Seq<u8>, file_len: u64) -> Result<SpkTrailer, DecodeError> {
    let a = u32_at(trailer, 12);
    let b = u32_at(trailer, 16);
    if !fits(trailer, 0, 2) {
        Err(short(trailer, 0, 2))
    } else if u16_at(trailer, 0) != SPK_MAGIC_PK {
        Err(
            DecodeError::MagicMismatch {
                field: "pk",
                expected: SPK_MAGIC_PK as u64,
                actual: u16_at(trailer, 0) as u64,
            },
        )
    } else if !fits(trailer, 2, 2) {
        Err(short(trailer, 2, 2))
    } else if u16_at(trailer, 2) != SPK_MAGIC_ID {
        Err(
            DecodeError::MagicMismatch {
                field: "id",
                expected: SPK_MAGIC_ID as u64,
                actual: u16_at(trailer, 2) as u64,
            },
        )
    } else if !fits(trailer, 4, 4) {
        Err(short(trailer, 4, 4))
    } else if !fits(trailer, 8, 2) {
        Err(short(trailer, 8, 2))
    } else if !fits(trailer, 10, 2) {
        Err(short(trailer, 10, 2))
    } else if u16_at(trailer, 8) != u16_at(trailer, 10) {
        Err(
            DecodeError::StructuralCrossCheckFailed {
                field: "file count",
                expected: u16_at(trailer, 8) as u64,
                actual: u16_at(trailer, 10) as u64,
            },
        )
    } else if !fits(trailer, 12, 4) {
        Err(short(trailer, 12, 4))
    } else if !fits(trailer, 16, 4) {
        Err(short(trailer, 16, 4))
    } else if a + b + SPK_TRAILER_SIZE > file_len {
        Err(
            DecodeError::TruncatedInput {
                offset: 0,
                needed: (a + b + SPK_TRAILER_SIZE) as u64,
                length: file_len,
            },
        )
    } else {
        Ok(
            SpkTrailer {
                num_files: u16_at(trailer, 8),
                central_directory_offset: (file_len - a - SPK_TRAILER_SIZE) as u64,
                local_file_start: (file_len - a - b - SPK_TRAILER_SIZE) as u64,
                file_len,
            },
        )
    }
}

/// The decimal digit of `v`, which is below 10.
pub open spec fn decimal_digit(v: int) -> char {
    (0x30 + v) as char
}

/// `n` in decimal, without leading zeros.
pub open spec fn decimal(n: nat) -> Seq<char>
    decreases n,
{
    if n < 10 {
        seq![decimal_digit(n as int)]
    } else {
        decimal(n / 10).push(decimal_digit((n % 10) as int))
    }
}

/// The name given to the entry number `index` whose stored name is not
/// UTF-8.
pub open spec fn corrupt_name(index: nat) -> Seq<char> {
    "<corrupt-"@ + decimal(index) + seq!['>']
}

/// The name that the stored bytes `raw` give the entry number `index`.
pub open spec fn entry_name(raw: Seq<u8>, index: nat) -> Seq<char> {
    if valid_utf8(raw) {
        decode_utf8(raw)
    } else {
        corrupt_name(index)
    }
}

/// The directory record number `index`, stored at `pos`: 20 unused bytes,
/// the compressed and the uncompressed size, which must agree, the length of
/// the name, 10 unused bytes, the place of the entry counted from the start
/// of the entries, and the name. The bytes of the entry lie behind a header
/// of `0x42` bytes and a copy of the name.
pub open spec fn entry_at(directory: Seq<u8>, pos: int, index: nat, t: SpkTrailer) -> Result<
    (SpkEntry, int),
    DecodeError,
> {
    let compr_size = u32_at(directory, pos + 20);
    let decompr_size = u32_at(directory, pos + 24);
    let fname_len = u32_at(directory, pos + 28);
    let item_location = u32_at(directory, pos + 42);
    let offset = t.local_file_start + item_location + SPK_LOCAL_HEADER_SIZE + fname_len;
    if !fits(directory, pos, 20) {
        Err(short(directory, pos, 20))
    } else if !fits(directory, pos + 20, 4) {
        Err(short(directory, pos + 20, 4))
    } else if !fits(directory, pos + 24, 4) {
        Err(short(directory, pos + 24, 4))
    } else if compr_size != decompr_size {
        Err(DecodeError::UnsupportedVariant { field: "compressed entry", actual: compr_size as u64 })
    } else if !fits(directory, pos + 28, 4) {
        Err(short(directory, pos + 28, 4))
    } else if !fits(directory, pos + 32, 10) {
        Err(short(directory, pos + 32, 10))
    } else if !fits(directory, pos + 42, 4) {
        Err(short(directory, pos + 42, 4))
    } else if offset > u64::MAX {
        Err(
            DecodeError::TruncatedInput {
                offset: t.local_file_start,
                needed: (item_location + SPK_LOCAL_HEADER_SIZE + fname_len) as u64,
                length: t.file_len,
            },
        )
    } else if !fits(directory, pos + 46, fname_len as int) {
        Err(short(directory, pos + 46, fname_len as int))
    } else {
        Ok(
            (
                SpkEntry {
                    filename: entry_name(directory.subrange(pos + 46, pos + 46 + fname_len), index),
                    offset: offset as u64,
                    length: decompr_size as usize,
                },
                pos + 46 + fname_len,
            ),
        )
    }
}

/// The first `n` records of the directory, which starts at the start of
/// `directory`, and the position behind them; or the error of the first
/// record that fails.
pub open spec fn entries_at(directory: Seq<u8>, t: SpkTrailer, n: nat) -> Result<
    (Seq<SpkEntry>, int),
    DecodeError,
>
    decreases n,
{
    if n == 0 {
        Ok((Seq::empty(), 0))
    } else {
        match entries_at(directory, t, (n - 1) as nat) {
            Err(e) => Err(e),
            Ok((entries, pos)) => match entry_at(directory, pos, (n - 1) as nat, t) {
                Err(e) => Err(e),
                Ok((entry, end)) => Ok((entries.push(entry), end)),
            },
        }
    }
}

/// Once a record fails, every longer run fails with the same error.
pub proof fn lemma_entries_fail(directory: Seq<u8>, t: SpkTrailer, k: nat, n: nat)
    requires
        k <= n,
        entries_at(directory, t, k) is Err,
    ensures
        entries_at(directory, t, n) == entries_at(directory, t, k),
    decreases n,
{
    if k < n {
        lemma_entries_fail(directory, t, k, (n - 1) as nat);
    }
}

/// The entries of a directory.
pub open spec fn directory_entries(directory: Seq<u8>, t: SpkTrailer) -> Result<
    Seq<SpkEntry>,
    DecodeError,
> {
    match entries_at(directory, t, t.num_files as nat) {
        Err(e) => Err(e),
        Ok((entries, _)) => Ok(entries),
    }
}

/// What a buffer that holds a whole SPK file decodes to.
pub open spec fn parse_spk(data: Seq<u8>) -> Result<Archive, DecodeError> {
    if !fits(data, 0, SPK_TRAILER_SIZE as int) {
        Err(short(data, 0, SPK_TRAILER_SIZE as int))
    } else {
        match trailer_at(data.skip(data.len() - SPK_TRAILER_SIZE), data.len() as u64) {
            Err(e) => Err(e),
            Ok(t) => match directory_entries(data.skip(t.central_directory_offset as int), t) {
                Err(e) => Err(e),
                Ok(items) => Ok(Archive { data, items }),
            },
        }
    }
}

/// The bytes of the entry at `offset` of `length` bytes, in a file that
/// holds `data`.
pub open spec fn item_bytes(data: Seq<u8>, offset: u64, length: usize) -> Result<
    Seq<u8>,
    DecodeError,
> {
    if fits(data, offset as int, length as int) {
        Ok(data.subrange(offset as int, offset + length))
    } else {
        Err(short(data, offset as int, length as int))
    }
}

impl SpkTrailer {
    /// Decodes the trailer, the last 22 bytes of a file of `file_len` bytes.
    /// Offsets in errors count from the start of the trailer.
    pub fn parse(trailer: &[u8], file_len: u64) -> (r: Result<SpkTrailer, DecodeError>)
        ensures
            match r {
                Ok(t) => trailer_at(trailer@, file_len) == Ok::<_, DecodeError>(t)
                    && t.local_file_start <= t.central_directory_offset
                    && t.central_directory_offset + SPK_TRAILER_SIZE <= file_len,
                Err(e) => trailer_at(trailer@, file_len) == Err::<SpkTrailer, _>(e),
            },
    {
        let mut cursor = Cursor::new(trailer);
        let pk = cursor.read_u16()?;
        expect_magic("pk", SPK_MAGIC_PK as u64, pk as u64)?;
        let id = cursor.read_u16()?;
        expect_magic("id", SPK_MAGIC_ID as u64, id as u64)?;
        cursor.skip(4)?;
        let num_files = cursor.read_u16()?;
        let num_files_dup = cursor.read_u16()?;
        expect_computed("file count", num_files as u64, num_files_dup as u64)?;
        let a = cursor.read_u32()?;
        let b = cursor.read_u32()?;
        let needed: u64 = a as u64 + b as u64 + SPK_TRAILER_SIZE as u64;
        if needed > file_len {
            return Err(DecodeError::TruncatedInput { offset: 0, needed, length: file_len });
        }
        let local_file_start = file_len - a as u64 - b as u64 - SPK_TRAILER_SIZE as u64;
        let central_directory_offset = file_len - a as u64 - SPK_TRAILER_SIZE as u64;
        Ok(SpkTrailer { num_files, central_directory_offset, local_file_start, file_len })
    }
}

/// Appends `n` in decimal.
fn push_decimal(s: &mut String, n: u16)
    ensures
        final(s)@ == old(s)@ + decimal(n as nat),
{
    let mut digits: Vec<char> = Vec::new();
    let mut rest = n;
    // The digits come out last first.
    while rest >= 10
        invariant
            forall|front: Seq<char>| #![trigger front + decimal(rest as nat)]
                front + decimal(n as nat) == front + decimal(rest as nat) + digits@.reverse(),
        decreases rest,
    {
        let digit = (0x30 + (rest % 10) as u8) as char;
        let ghost before = digits@;
        digits.push(digit);
        assert forall|front: Seq<char>| #![trigger front + decimal((rest / 10) as nat)]
            front + decimal(n as nat) == front + decimal((rest / 10) as nat)
                + digits@.reverse() by {
            assert(digits@.reverse() =~= seq![digit] + before.reverse());
            assert(front + decimal(n as nat) == front + decimal(rest as nat) + before.reverse());
            assert(front + decimal((rest / 10) as nat).push(digit) + before.reverse() =~= front
                + decimal((rest / 10) as nat) + (seq![digit] + before.reverse()));
        }
        rest = rest / 10;
    }
    string_push(s, (0x30 + rest as u8) as char);
    let ghost first = s@;
    assert(first =~= old(s)@ + decimal(rest as nat));
    let mut i: usize = digits.len();
    assert(digits@.reverse().take(0) =~= Seq::<char>::empty());
    assert(first + Seq::<char>::empty() =~= first);
    while i > 0
        invariant
            i <= digits@.len(),
            s@ == first + digits@.reverse().take(digits@.len() - i),
        decreases i,
    {
        i -= 1;
        string_push(s, digits[i]);
        assert(s@ =~= first + digits@.reverse().take(digits@.len() - i));
    }
    assert(digits@.reverse().take(digits@.len() as int) =~= digits@.reverse());
    assert(old(s)@ + decimal(n as nat) == old(s)@ + decimal(rest as nat) + digits@.reverse());
}

/// The name of the entry number `index` whose stored name is `raw`.
fn make_entry_name(raw: &[u8], index: u16) -> (name: String)
    ensures
        name@ == entry_name(raw@, index as nat),
{
    match string_from_utf8(slice_to_vec(raw)) {
        Some(name) => name,
        None => {
            let mut name = "<corrupt-".to_owned();
            push_decimal(&mut name, index);
            string_push(&mut name, '>');
            name
        },
    }
}

fn read_entry(cursor: &mut Cursor, index: u16, t: &SpkTrailer) -> (r: Result<SpkItem, DecodeError>)
    ensures
        final(cursor).data == old(cursor).data,
        match r {
            Ok(item) => entry_at(old(cursor).data@, old(cursor).pos as int, index as nat, *t)
                == Ok::<_, DecodeError>((item@, final(cursor).pos as int)),
            Err(e) => entry_at(old(cursor).data@, old(cursor).pos as int, index as nat, *t) == Err::<
                (SpkEntry, int),
                _,
            >(e),
        },
{
    cursor.skip(20)?;
    let compr_size = cursor.read_u32()?;
    let decompr_size = cursor.read_u32()?;
    if compr_size != decompr_size {
        return Err(
            DecodeError::UnsupportedVariant { field: "compressed entry", actual: compr_size as u64 },
        );
    }
    let fname_len = cursor.read_u32()?;
    cursor.skip(10)?;
    let item_location = cursor.read_u32()?;
    // All entries are prefixed by a local file header, which can be skipped.
    let header: u64 = item_location as u64 + SPK_LOCAL_HEADER_SIZE + fname_len as u64;
    if header > u64::MAX - t.local_file_start {
        return Err(
            DecodeError::TruncatedInput {
                offset: t.local_file_start,
                needed: header,
                length: t.file_len,
            },
        );
    }
    let offset = t.local_file_start + header;
    let fname = cursor.read_slice(fname_len as usize)?;
    let filename = make_entry_name(fname, index);
    Ok(SpkItem { filename, length: decompr_size as usize, offset })
}

/// Decodes the directory, which starts at the start of `directory` and may
/// be followed by anything. Offsets in errors count from the start of the
/// directory. There are as many entries as the trailer says.
#[verifier::loop_isolation(false)]
pub fn parse_directory(directory: &[u8], t: &SpkTrailer) -> (r: Result<Vec<SpkItem>, DecodeError>)
    ensures
        match r {
            Ok(items) => directory_entries(directory@, *t) == Ok::<_, DecodeError>(views(items@))
                && items@.len() == t.num_files,
            Err(e) => directory_entries(directory@, *t) == Err::<Seq<SpkEntry>, _>(e),
        },
{
    let mut cursor = Cursor::new(directory);
    let mut items: Vec<SpkItem> = Vec::new();
    let mut n: u16 = 0;
    assert(views(items@) =~= Seq::empty());
    while n < t.num_files
        invariant
            n <= t.num_files,
            cursor.data@ == directory@,
            items@.len() == n,
            entries_at(directory@, *t, n as nat) == Ok::<_, DecodeError>(
                (views(items@), cursor.pos as int),
            ),
        decreases t.num_files - n,
    {
        match read_entry(&mut cursor, n, t) {
            Ok(item) => {
                proof {
                    lemma_views_push(items@, item);
                }
                items.push(item);
            },
            Err(e) => {
                proof {
                    lemma_entries_fail(directory@, *t, (n + 1) as nat, t.num_files as nat);
                }
                return Err(e);
            },
        }
        n = n + 1;
    }
    Ok(items)
}

impl<'a> SpkArchive<'a> {
    /// Opens the archive that `data`, a whole file, holds. The result has as
    /// many entries as the trailer says.
    pub fn new(data: &'a [u8]) -> (r: Result<SpkArchive<'a>, DecodeError>)
        ensures
            match r {
                Ok(archive) => parse_spk(data@) == Ok::<_, DecodeError>(archive@)
                    && archive@.items.len() == u16_at(data@, data@.len() - 14),
                Err(e) => parse_spk(data@) == Err::<Archive, _>(e),
            },
    {
        if data.len() < SPK_TRAILER_SIZE {
            return Err(
                DecodeError::TruncatedInput {
                    offset: 0,
                    needed: SPK_TRAILER_SIZE as u64,
                    length: data.len() as u64,
                },
            );
        }
        let trailer = slice_subrange(data, data.len() - SPK_TRAILER_SIZE, data.len());
        assert(trailer@ =~= data@.skip(data@.len() - SPK_TRAILER_SIZE));
        let t = SpkTrailer::parse(trailer, data.len() as u64)?;
        let directory = slice_subrange(data, t.central_directory_offset as usize, data.len());
        assert(directory@ =~= data@.skip(t.central_directory_offset as int));
        let items = parse_directory(directory, &t)?;
        Ok(SpkArchive { data, items })
    }

    /// The entries, in the order of the directory.
    pub fn get_items(&self) -> (items: &Vec<SpkItem>)
        ensures
            views(items@) == self@.items,
    {
        &self.items
    }

    /// The bytes of `item`: `item.length` bytes at `item.offset`.
    pub fn read_item(&self, item: &SpkItem) -> (r: Result<Vec<u8>, DecodeError>)
        ensures
            match r {
                Ok(bytes) => item_bytes(self@.data, item.offset, item.length) == Ok::<
                    _,
                    DecodeError,
                >(bytes@),
                Err(e) => item_bytes(self@.data, item.offset, item.length) == Err::<Seq<u8>, _>(e),
            },
    {
        let length = self.data.len();
        if item.offset > length as u64 || item.length > length - item.offset as usize {
            return Err(
                DecodeError::TruncatedInput {
                    offset: item.offset,
                    needed: item.length as u64,
                    length: length as u64,
                },
            );
        }
        let start = item.offset as usize;
        Ok(slice_to_vec(slice_subrange(self.data, start, start + item.length)))
    }
}

/// What a directory record is made from: the stored name, the place of the
/// entry counted from the start of the entries, and its size.
pub struct SpkRecord {
    pub name: Seq<u8>,
    pub location: u32,
    pub size: u32,
}

/// The directory record of an uncompressed entry, its unused bytes zero.
pub open spec fn record_bytes(r: SpkRecord) -> Seq<u8> {
    zeros(20) + u32_bytes(r.size) + u32_bytes(r.size) + u32_bytes(r.name.len() as u32) + zeros(10)
        + u32_bytes(r.location) + r.name
}

/// The directory made of one record for each of `records`.
pub open spec fn directory_bytes(records: Seq<SpkRecord>) -> Seq<u8>
    decreases records.len(),
{
    if records.len() == 0 {
        Seq::empty()
    } else {
        directory_bytes(records.drop_last()) + record_bytes(records.last())
    }
}

/// The trailer of an archive of `count` entries with the sizes `a` and `b`,
/// its unused bytes zero.
pub open spec fn trailer_bytes(count: u16, a: u32, b: u32) -> Seq<u8> {
    u16_bytes(SPK_MAGIC_PK) + u16_bytes(SPK_MAGIC_ID) + zeros(4) + u16_bytes(count) + u16_bytes(
        count,
    ) + u32_bytes(a) + u32_bytes(b) + zeros(2)
}

/// The entry that the record number `index` describes.
pub open spec fn record_entry(r: SpkRecord, index: nat, t: SpkTrailer) -> SpkEntry {
    SpkEntry {
        filename: entry_name(r.name, index),
        offset: (t.local_file_start + r.location + SPK_LOCAL_HEADER_SIZE + r.name.len()) as u64,
        length: r.size as usize,
    }
}

/// The entries that `records` describe.
pub open spec fn record_entries(records: Seq<SpkRecord>, t: SpkTrailer) -> Seq<SpkEntry> {
    Seq::new(records.len(), |i: int| record_entry(records[i], i as nat, t))
}

/// The records can be stored: every name length fits 32 bits and every
/// entry offset 64 bits.
pub open spec fn records_fit(records: Seq<SpkRecord>, t: SpkTrailer) -> bool {
    forall|i: int|
        0 <= i < records.len() ==> (#[trigger] records[i]).name.len() <= u32::MAX
            && t.local_file_start + records[i].location + SPK_LOCAL_HEADER_SIZE
            + records[i].name.len() <= u64::MAX
}

/// A trailer has 22 bytes.
pub proof fn lemma_trailer_len(count: u16, a: u32, b: u32)
    ensures
        trailer_bytes(count, a, b).len() == SPK_TRAILER_SIZE,
{
}

/// A trailer made from a count and two sizes decodes to them.
pub proof fn lemma_trailer_round_trip(count: u16, a: u32, b: u32, file_len: u64)
    requires
        a + b + SPK_TRAILER_SIZE <= file_len,
    ensures
        trailer_bytes(count, a, b).len() == SPK_TRAILER_SIZE,
        trailer_at(trailer_bytes(count, a, b), file_len) == Ok::<_, DecodeError>(
            SpkTrailer {
                num_files: count,
                central_directory_offset: (file_len - a - SPK_TRAILER_SIZE) as u64,
                local_file_start: (file_len - a - b - SPK_TRAILER_SIZE) as u64,
                file_len,
            },
        ),
{
    let t = trailer_bytes(count, a, b);
    assert(t.subrange(0, 2) =~= u16_bytes(SPK_MAGIC_PK));
    assert(t.subrange(2, 4) =~= u16_bytes(SPK_MAGIC_ID));
    assert(t.subrange(8, 10) =~= u16_bytes(count));
    assert(t.subrange(10, 12) =~= u16_bytes(count));
    assert(t.subrange(12, 16) =~= u32_bytes(a));
    assert(t.subrange(16, 20) =~= u32_bytes(b));
    lemma_u16_at_bytes(t, 0, SPK_MAGIC_PK);
    lemma_u16_at_bytes(t, 2, SPK_MAGIC_ID);
    lemma_u16_at_bytes(t, 8, count);
    lemma_u16_at_bytes(t, 10, count);
    lemma_u32_at_bytes(t, 12, a);
    lemma_u32_at_bytes(t, 16, b);
}

/// A record stored at `pos` decodes to the entry it describes.
pub proof fn lemma_record_round_trip(
    directory: Seq<u8>,
    pos: int,
    index: nat,
    t: SpkTrailer,
    r: SpkRecord,
)
    requires
        0 <= pos,
        pos + record_bytes(r).len() <= directory.len(),
        directory.subrange(pos, pos + record_bytes(r).len()) == record_bytes(r),
        r.name.len() <= u32::MAX,
        t.local_file_start + r.location + SPK_LOCAL_HEADER_SIZE + r.name.len() <= u64::MAX,
    ensures
        record_bytes(r).len() == 46 + r.name.len(),
        entry_at(directory, pos, index, t) == Ok::<_, DecodeError>(
            (record_entry(r, index, t), pos + 46 + r.name.len()),
        ),
{
    let bytes = record_bytes(r);
    let stored = directory.subrange(pos, pos + bytes.len());
    assert(directory.subrange(pos + 20, pos + 24) =~= stored.subrange(20, 24));
    assert(directory.subrange(pos + 24, pos + 28) =~= stored.subrange(24, 28));
    assert(directory.subrange(pos + 28, pos + 32) =~= stored.subrange(28, 32));
    assert(directory.subrange(pos + 42, pos + 46) =~= stored.subrange(42, 46));
    assert(directory.subrange(pos + 46, pos + 46 + r.name.len()) =~= stored.subrange(
        46,
        46 + r.name.len() as int,
    ));
    assert(bytes.subrange(20, 24) =~= u32_bytes(r.size));
    assert(bytes.subrange(24, 28) =~= u32_bytes(r.size));
    assert(bytes.subrange(28, 32) =~= u32_bytes(r.name.len() as u32));
    assert(bytes.subrange(42, 46) =~= u32_bytes(r.location));
    assert(bytes.subrange(46, 46 + r.name.len() as int) =~= r.name);
    lemma_u32_at_bytes(directory, pos + 20, r.size);
    lemma_u32_at_bytes(directory, pos + 24, r.size);
    lemma_u32_at_bytes(directory, pos + 28, r.name.len() as u32);
    lemma_u32_at_bytes(directory, pos + 42, r.location);
}

/// The first `k` records of a directory made from `records` decode to the
/// entries that they describe.
pub proof fn lemma_directory_prefix_round_trip(
    directory: Seq<u8>,
    records: Seq<SpkRecord>,
    t: SpkTrailer,
    k: nat,
)
    requires
        k <= records.len(),
        records_fit(records, t),
        directory_bytes(records.take(k as int)).len() <= directory.len(),
        directory.subrange(0, directory_bytes(records.take(k as int)).len() as int)
            == directory_bytes(records.take(k as int)),
    ensures
        entries_at(directory, t, k) == Ok::<_, DecodeError>(
            (
                record_entries(records.take(k as int), t),
                directory_bytes(records.take(k as int)).len() as int,
            ),
        ),
    decreases k,
{
    if k == 0 {
        assert(record_entries(records.take(0), t) =~= Seq::empty());
    } else {
        let r = records[k - 1];
        assert(records.take(k as int).drop_last() =~= records.take(k - 1));
        assert(records.take(k as int).last() == r);
        let before = directory_bytes(records.take(k - 1));
        let whole = directory_bytes(records.take(k as int));
        assert(whole == before + record_bytes(r));
        assert(directory.subrange(0, before.len() as int) =~= before) by {
            assert(whole.subrange(0, before.len() as int) =~= before);
            assert(directory.subrange(0, before.len() as int) =~= directory.subrange(
                0,
                whole.len() as int,
            ).subrange(0, before.len() as int));
        }
        lemma_directory_prefix_round_trip(directory, records, t, (k - 1) as nat);
        assert(directory.subrange(before.len() as int, (before.len() + record_bytes(r).len()) as int)
            =~= record_bytes(r)) by {
            assert(whole.subrange(before.len() as int, whole.len() as int) =~= record_bytes(r));
            assert(directory.subrange(before.len() as int, whole.len() as int)
                =~= directory.subrange(0, whole.len() as int).subrange(
                before.len() as int,
                whole.len() as int,
            ));
        }
        lemma_record_round_trip(directory, before.len() as int, (k - 1) as nat, t, r);
        assert(record_entries(records.take(k as int), t) =~= record_entries(
            records.take(k - 1),
            t,
        ).push(record_entry(r, (k - 1) as nat, t)));
    }
}

/// A directory made from `records`, whatever follows it, decodes to the
/// entries that they describe: as many, with the stored names, sizes and
/// places.
pub proof fn lemma_directory_round_trip(records: Seq<SpkRecord>, rest: Seq<u8>, t: SpkTrailer)
    requires
        records.len() == t.num_files,
        records_fit(records, t),
    ensures
        directory_entries(directory_bytes(records) + rest, t) == Ok::<_, DecodeError>(
            record_entries(records, t),
        ),
        record_entries(records, t).len() == records.len(),
{
    let directory = directory_bytes(records) + rest;
    assert(records.take(records.len() as int) =~= records);
    assert(directory.subrange(0, directory_bytes(records).len() as int) =~= directory_bytes(
        records,
    ));
    lemma_directory_prefix_round_trip(directory, records, t, records.len());
}

/// The file made of `body`, which holds the entries in its last `b` bytes,
/// the directory of `records` and the trailer.
pub open spec fn archive_bytes(body: Seq<u8>, records: Seq<SpkRecord>, b: u32) -> Seq<u8> {
    body + directory_bytes(records) + trailer_bytes(
        records.len() as u16,
        directory_bytes(records).len() as u32,
        b,
    )
}

/// The trailer of the file that [`archive_bytes`] makes.
pub open spec fn archive_trailer(body: Seq<u8>, records: Seq<SpkRecord>, b: u32) -> SpkTrailer {
    SpkTrailer {
        num_files: records.len() as u16,
        central_directory_offset: body.len() as u64,
        local_file_start: (body.len() - b) as u64,
        file_len: archive_bytes(body, records, b).len() as u64,
    }
}

/// A file whose trailer and directory decode opens to the entries of the
/// directory.
proof fn lemma_open_parts(file: Seq<u8>, t: SpkTrailer, items: Seq<SpkEntry>)
    requires
        fits(file, 0, SPK_TRAILER_SIZE as int),
        trailer_at(file.skip(file.len() - SPK_TRAILER_SIZE), file.len() as u64) == Ok::<
            _,
            DecodeError,
        >(t),
        directory_entries(file.skip(t.central_directory_offset as int), t) == Ok::<_, DecodeError>(
            items,
        ),
    ensures
        parse_spk(file) == Ok::<_, DecodeError>(Archive { data: file, items }),
{
}

/// An archive made from a body, records and a trailer opens to exactly the
/// entries that the records describe, over the bytes of the file.
pub proof fn lemma_archive_round_trip(body: Seq<u8>, records: Seq<SpkRecord>, b: u32)
    requires
        records.len() <= u16::MAX,
        directory_bytes(records).len() <= u32::MAX,
        b <= body.len(),
        archive_bytes(body, records, b).len() <= u64::MAX,
        records_fit(records, archive_trailer(body, records, b)),
    ensures
        parse_spk(archive_bytes(body, records, b)) == Ok::<_, DecodeError>(
            Archive {
                data: archive_bytes(body, records, b),
                items: record_entries(records, archive_trailer(body, records, b)),
            },
        ),
{
    let directory = directory_bytes(records);
    let a = directory.len() as u32;
    let count = records.len() as u16;
    let trailer = trailer_bytes(count, a, b);
    let file = body + directory + trailer;
    let t = archive_trailer(body, records, b);
    lemma_three_parts(body, directory, trailer);
    lemma_trailer_len(count, a, b);
    assert(trailer_at(trailer, file.len() as u64) == Ok::<_, DecodeError>(t)) by {
        lemma_trailer_round_trip(count, a, b, file.len() as u64);
    }
    assert(directory_entries(directory + trailer, t) == Ok::<_, DecodeError>(
        record_entries(records, t),
    )) by {
        lemma_directory_round_trip(records, trailer, t);
    }
    lemma_open_parts(file, t, record_entries(records, t));
}

/// Where the second and the third of three parts start.
proof fn lemma_three_parts(first: Seq<u8>, second: Seq<u8>, third: Seq<u8>)
    ensures
        (first + second + third).len() == first.len() + second.len() + third.len(),
        (first + second + third).skip(first.len() as int) == second + third,
        (first + second + third).skip((first.len() + second.len()) as int) == third,
{
    assert((first + second + third).skip(first.len() as int) =~= second + third);
    assert((first + second + third).skip((first.len() + second.len()) as int) =~= third);
}

} // verus!
