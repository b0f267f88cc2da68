//! RGD: the navigation graph of a scene: points, vectors, segments and
//! regions, found through a header of counts and offsets.
use crate::qfg5resource::bytes::{u32_at, u64_at};
use crate::qfg5resource::cursor::{fits, short, words_at, Cursor};
use crate::qfg5resource::error::{expect_computed, expect_magic, DecodeError};
use crate::qfg5resource::ieee::{double_bits_to_u64, double_to_u64};
use crate::qfg5resource::record::{read_records, records_at, Record};
use vstd::prelude::*;

verus! {

/// The only accepted value of the data start offset.
pub const RGD_DATA_START: u32 = 0x5c;

/// A point. Each coordinate is the bit pattern of an IEEE-754 double.
#[derive(Debug, Clone, Copy, PartialEq, Eq)]
pub struct RgdPoint {
    pub x: u64,
    pub y: u64,
}

/// A 3-D vector, as bit patterns of doubles.
#[derive(Debug, Clone, Copy, PartialEq, Eq)]
pub struct RgdVector {
    pub x: u64,
    pub y: u64,
    pub z: u64,
}

/// Two point indices and the offset of a list of region ids. The offset is
/// stored as a double and held here as its integer part.
#[derive(Debug, Clone, Copy, PartialEq, Eq)]
pub struct RgdSegment {
    pub point1: usize,
    pub point2: usize,
    pub regionid_offset: u64,
}

/// A vector index and the offset of a list of segment ids.
#[derive(Debug, Clone, Copy, PartialEq, Eq)]
pub struct RgdRegion {
    pub vector_index: usize,
    pub offset_segment_ids: u64,
}

/// The header fields behind the two version words, as stored. Only
/// `offset_data_start` is checked; the counts and offsets of points,
/// vectors, segments, region ids and regions locate what is decoded; of the
/// others nothing is interpreted.
#[derive(Debug, Clone, Copy, PartialEq, Eq)]
pub struct RgdHeader {
    pub num_regions: u32,
    pub offset_region_data: u32,
    pub offset_vector_index_lists: u32,
    pub ignored_offset: u32,
    pub offset_region_pos_info: u32,
    pub num_region_ids: u32,
    pub offset_region_ids: u32,
    pub total_region_ids: u32,
    pub offset_data_start: u32,
    pub num_segments: u32,
    pub offset_segment_data: u32,
    pub num_points: u32,
    pub offset_point_data: u32,
    pub num_vectors: u32,
    pub offset_vector_data: u32,
    pub flag: u32,
    pub num_special_regions: u32,
    pub connectivity_matrix1_offset: u32,
    pub connectivity_matrix2_offset: u32,
    pub offset_special_region_ids: u32,
}

/// A decoded navigation graph. The indices and offsets inside segments and
/// regions are stored as found; nothing here checks them.
#[derive(Debug, Clone, PartialEq, Eq)]
pub struct RgdDecoder {
    pub header: RgdHeader,
    pub points: Vec<RgdPoint>,
    pub vectors: Vec<RgdVector>,
    pub segments: Vec<RgdSegment>,
    pub region_ids: Vec<u32>,
    pub regions: Vec<RgdRegion>,
}

/// The mathematical content of an [`RgdDecoder`].
pub struct RegionGraph {
    pub header: RgdHeader,
    pub points: Seq<RgdPoint>,
    pub vectors: Seq<RgdVector>,
    pub segments: Seq<RgdSegment>,
    pub region_ids: Seq<u32>,
    pub regions: Seq<RgdRegion>,
}

impl View for RgdDecoder {
    type V = RegionGraph;

    open spec fn view(&self) -> RegionGraph {
        RegionGraph {
            header: self.header,
            points: self.points@,
            vectors: self.vectors@,
            segments: self.segments@,
            region_ids: self.region_ids@,
            regions: self.regions@,
        }
    }
}

impl Record for RgdPoint {
    /// Two doubles: x, y.
    open spec fn at(data: Seq<u8>, pos: int) -> Result<(Self, int), DecodeError> {
        if !fits(data, pos, 8) {
            Err(short(data, pos, 8))
        } else if !fits(data, pos + 8, 8) {
            Err(short(data, pos + 8, 8))
        } else {
            Ok((RgdPoint { x: u64_at(data, pos), y: u64_at(data, pos + 8) }, pos + 16))
        }
    }

    fn read(cursor: &mut Cursor) -> (r: Result<Self, DecodeError>) {
        let x = cursor.read_u64()?;
        let y = cursor.read_u64()?;
        Ok(RgdPoint { x, y })
    }
}

impl Record for RgdVector {
    /// Three doubles: x, y, z.
    open spec fn at(data: Seq<u8>, pos: int) -> Result<(Self, int), DecodeError> {
        if !fits(data, pos, 8) {
            Err(short(data, pos, 8))
        } else if !fits(data, pos + 8, 8) {
            Err(short(data, pos + 8, 8))
        } else if !fits(data, pos + 16, 8) {
            Err(short(data, pos + 16, 8))
        } else {
            Ok(
                (
                    RgdVector {
                        x: u64_at(data, pos),
                        y: u64_at(data, pos + 8),
                        z: u64_at(data, pos + 16),
                    },
                    pos + 24,
                ),
            )
        }
    }

    fn read(cursor: &mut Cursor) -> (r: Result<Self, DecodeError>) {
        let x = cursor.read_u64()?;
        let y = cursor.read_u64()?;
        let z = cursor.read_u64()?;
        Ok(RgdVector { x, y, z })
    }
}

impl Record for RgdSegment {
    /// Two words and a double.
    open spec fn at(data: Seq<u8>, pos: int) -> Result<(Self, int), DecodeError> {
        if !fits(data, pos, 4) {
            Err(short(data, pos, 4))
        } else if !fits(data, pos + 4, 4) {
            Err(short(data, pos + 4, 4))
        } else if !fits(data, pos + 8, 8) {
            Err(short(data, pos + 8, 8))
        } else {
            Ok(
                (
                    RgdSegment {
                        point1: u32_at(data, pos) as usize,
                        point2: u32_at(data, pos + 4) as usize,
                        regionid_offset: double_to_u64(u64_at(data, pos + 8)),
                    },
                    pos + 16,
                ),
            )
        }
    }

    fn read(cursor: &mut Cursor) -> (r: Result<Self, DecodeError>) {
        let point1 = cursor.read_u32()? as usize;
        let point2 = cursor.read_u32()? as usize;
        let regionid_offset = double_bits_to_u64(cursor.read_u64()?);
        Ok(RgdSegment { point1, point2, regionid_offset })
    }
}

impl Record for RgdRegion {
    /// Two words.
    open spec fn at(data: Seq<u8>, pos: int) -> Result<(Self, int), DecodeError> {
        if !fits(data, pos, 4) {
            Err(short(data, pos, 4))
        } else if !fits(data, pos + 4, 4) {
            Err(short(data, pos + 4, 4))
        } else {
            Ok(
                (
                    RgdRegion {
                        vector_index: u32_at(data, pos) as usize,
                        offset_segment_ids: u32_at(data, pos + 4) as u64,
                    },
                    pos + 8,
                ),
            )
        }
    }

    fn read(cursor: &mut Cursor) -> (r: Result<Self, DecodeError>) {
        let vector_index = cursor.read_u32()? as usize;
        let offset_segment_ids = cursor.read_u32()? as u64;
        Ok(RgdRegion { vector_index, offset_segment_ids })
    }
}

/// The header at the start of `data`: the version words 0 and 2, each
/// checked as soon as it is read, and twenty fields, of which the ninth, the
/// data start offset, must be `0x5c`.
pub open spec fn header_at(data: Seq<u8>) -> Result<RgdHeader, DecodeError> {
    if !fits(data, 0, 4) {
        Err(short(data, 0, 4))
    } else if u32_at(data, 0) != 0 {
        Err(
            DecodeError::MagicMismatch {
                field: "version a",
                expected: 0,
                actual: u32_at(data, 0) as u64,
            },
        )
    } else if !fits(data, 4, 4) {
        Err(short(data, 4, 4))
    } else if u32_at(data, 4) != 2 {
        Err(
            DecodeError::MagicMismatch {
                field: "version b",
                expected: 2,
                actual: u32_at(data, 4) as u64,
            },
        )
    } else {
        match words_at(data, 8, 9) {
            Err(e) => Err(e),
            Ok((a, _)) => if a[8] != RGD_DATA_START {
                Err(
                    DecodeError::StructuralCrossCheckFailed {
                        field: "data start offset",
                        expected: RGD_DATA_START as u64,
                        actual: a[8] as u64,
                    },
                )
            } else {
                match words_at(data, 44, 11) {
                    Err(e) => Err(e),
                    Ok((b, _)) => Ok(
                        RgdHeader {
                            num_regions: a[0],
                            offset_region_data: a[1],
                            offset_vector_index_lists: a[2],
                            ignored_offset: a[3],
                            offset_region_pos_info: a[4],
                            num_region_ids: a[5],
                            offset_region_ids: a[6],
                            total_region_ids: a[7],
                            offset_data_start: a[8],
                            num_segments: b[0],
                            offset_segment_data: b[1],
                            num_points: b[2],
                            offset_point_data: b[3],
                            num_vectors: b[4],
                            offset_vector_data: b[5],
                            flag: b[6],
                            num_special_regions: b[7],
                            connectivity_matrix1_offset: b[8],
                            connectivity_matrix2_offset: b[9],
                            offset_special_region_ids: b[10],
                        },
                    ),
                }
            },
        }
    }
}

/// The lists that the header `h` locates, read in the order points, vectors,
/// segments, region ids, regions.
pub open spec fn lists_at(data: Seq<u8>, h: RgdHeader) -> Result<RegionGraph, DecodeError> {
    match records_at::<RgdPoint>(data, h.offset_point_data as int, h.num_points as nat) {
        Err(e) => Err(e),
        Ok((points, _)) => match records_at::<RgdVector>(
            data,
            h.offset_vector_data as int,
            h.num_vectors as nat,
        ) {
            Err(e) => Err(e),
            Ok((vectors, _)) => match records_at::<RgdSegment>(
                data,
                h.offset_segment_data as int,
                h.num_segments as nat,
            ) {
                Err(e) => Err(e),
                Ok((segments, _)) => match words_at(
                    data,
                    h.offset_region_ids as int,
                    h.num_region_ids as nat,
                ) {
                    Err(e) => Err(e),
                    Ok((region_ids, _)) => match records_at::<RgdRegion>(
                        data,
                        h.offset_region_data as int,
                        h.num_regions as nat,
                    ) {
                        Err(e) => Err(e),
                        Ok((regions, _)) => Ok(
                            RegionGraph { header: h, points, vectors, segments, region_ids, regions },
                        ),
                    },
                },
            },
        },
    }
}

/// What an RGD buffer decodes to.
pub open spec fn parse_rgd(data: Seq<u8>) -> Result<RegionGraph, DecodeError> {
    match header_at(data) {
        Err(e) => Err(e),
        Ok(h) => lists_at(data, h),
    }
}

fn read_header(cursor: &mut Cursor) -> (r: Result<RgdHeader, DecodeError>)
    requires
        old(cursor).pos == 0,
    ensures
        final(cursor).data == old(cursor).data,
        match r {
            Ok(h) => header_at(old(cursor).data@) == Ok::<_, DecodeError>(h),
            Err(e) => header_at(old(cursor).data@) == Err::<RgdHeader, _>(e),
        },
{
    let a = cursor.read_u32()?;
    expect_magic("version a", 0, a as u64)?;
    let b = cursor.read_u32()?;
    expect_magic("version b", 2, b as u64)?;
    let a = cursor.read_words(9)?;
    expect_computed("data start offset", RGD_DATA_START as u64, a[8] as u64)?;
    let b = cursor.read_words(11)?;
    Ok(
        RgdHeader {
            num_regions: a[0],
            offset_region_data: a[1],
            offset_vector_index_lists: a[2],
            ignored_offset: a[3],
            offset_region_pos_info: a[4],
            num_region_ids: a[5],
            offset_region_ids: a[6],
            total_region_ids: a[7],
            offset_data_start: a[8],
            num_segments: b[0],
            offset_segment_data: b[1],
            num_points: b[2],
            offset_point_data: b[3],
            num_vectors: b[4],
            offset_vector_data: b[5],
            flag: b[6],
            num_special_regions: b[7],
            connectivity_matrix1_offset: b[8],
            connectivity_matrix2_offset: b[9],
            offset_special_region_ids: b[10],
        },
    )
}

impl RgdDecoder {
    /// Decodes an RGD buffer.
    pub fn new(rgd_data: &[u8]) -> (r: Result<RgdDecoder, DecodeError>)
        ensures
            match r {
                Ok(g) => parse_rgd(rgd_data@) == Ok::<_, DecodeError>(g@),
                Err(e) => parse_rgd(rgd_data@) == Err::<RegionGraph, _>(e),
            },
    {
        let mut cursor = Cursor::new(rgd_data);
        let header = read_header(&mut cursor)?;

        cursor.seek(header.offset_point_data as usize);
        let points = read_records::<RgdPoint>(&mut cursor, header.num_points as usize)?;

        cursor.seek(header.offset_vector_data as usize);
        let vectors = read_records::<RgdVector>(&mut cursor, header.num_vectors as usize)?;

        cursor.seek(header.offset_segment_data as usize);
        let segments = read_records::<RgdSegment>(&mut cursor, header.num_segments as usize)?;

        cursor.seek(header.offset_region_ids as usize);
        let region_ids = cursor.read_words(header.num_region_ids as usize)?;

        cursor.seek(header.offset_region_data as usize);
        let regions = read_records::<RgdRegion>(&mut cursor, header.num_regions as usize)?;
        Ok(RgdDecoder { header, points, vectors, segments, region_ids, regions })
    }
}

} // verus!
