//! MDL: a named 3D model of submeshes and power-of-two texture atlases.
use crate::qfg5resource::bytes::{u16_at, u32_at};
use crate::qfg5resource::cursor::{
    fits, lemma_words_at_agree, lemma_words_at_length_decides, lemma_words_at_values, short,
    words_at, Cursor,
};
use crate::qfg5resource::error::{expect_computed, DecodeError};
use crate::qfg5resource::ieee::{single_bits_to_u32, single_to_u32};
use crate::qfg5resource::parse::{
    lemma_each_fails, lemma_each_first_failure, lemma_each_items_ok, lemma_many_fails,
    lemma_views_push, parse_each, parse_many, views,
};
use crate::qfg5resource::record::{
    lemma_records_at_length_decides, read_records, records_at, PlainRecord, Record,
};
use crate::qfg5resource::text::string_from_utf8;
use vstd::arithmetic::power2::{lemma2_to64, lemma_pow2_strictly_increases, pow2};
use vstd::bits::lemma_u32_shl_is_mul;
use vstd::prelude::*;
use vstd::slice::slice_to_vec;
use vstd::utf8::{decode_utf8, valid_utf8};

verus! {

/// The length of the palette blob.
pub const MDL_PALETTE_SIZE: usize = 1019;

/// The offset of the vertex list within a submesh, which the `vlist_addr`
/// field must repeat.
pub const MDL_VERTEX_LIST_OFFSET: u32 = 0x7c;

/// A vertex position. Each coordinate is the bit pattern of an IEEE-754
/// single.
#[derive(Debug, Default, Clone, Copy, PartialEq, Eq)]
pub struct Qfg5Vertex {
    pub x: u32,
    pub y: u32,
    pub z: u32,
}

/// The lighting coefficients of one vertex, as bit patterns of singles.
#[derive(Debug, Default, Clone, Copy, PartialEq, Eq)]
pub struct Qfg5LightingVertex {
    pub a: u32,
    pub b: u32,
    pub c: u32,
    pub d: u32,
}

/// A texture coordinate, as bit patterns of singles.
#[derive(Debug, Default, Clone, Copy, PartialEq, Eq)]
pub struct Qfg5TexCoord {
    pub u: u32,
    pub v: u32,
}

/// A triangle: three vertex indices, three texture-coordinate indices, the
/// index of its texture atlas, and its normal as bit patterns of singles.
/// The indices are stored as found; nothing here checks them against the
/// submesh.
#[derive(Debug, Default, Clone, Copy, PartialEq, Eq)]
pub struct Qfg5Face {
    pub vertex1: usize,
    pub vertex2: usize,
    pub vertex3: usize,
    pub uv1: usize,
    pub uv2: usize,
    pub uv3: usize,
    pub subbitmap: usize,
    pub normal_x: u32,
    pub normal_y: u32,
    pub normal_z: u32,
}

#[derive(Debug, Default, Clone, PartialEq, Eq)]
pub struct SubMesh {
    pub name: String,
    pub vertices: Vec<Qfg5Vertex>,
    pub texcoords: Vec<Qfg5TexCoord>,
    pub faces: Vec<Qfg5Face>,
    pub lighting_vertices: Vec<Qfg5LightingVertex>,
}

/// A texture atlas of `width * height` palette indices.
#[derive(Debug, Default, Clone, PartialEq, Eq)]
pub struct SubBitmap {
    pub width: u32,
    pub height: u32,
    pub bitmap: Vec<u8>,
}

#[derive(Debug, Clone, PartialEq, Eq)]
pub struct Qfg5Model {
    pub name: String,
    pub palette: Vec<u8>,
    pub submeshes: Vec<SubMesh>,
    pub subbitmaps: Vec<SubBitmap>,
}

/// The mathematical content of a [`SubMesh`].
pub struct SubMeshView {
    pub name: Seq<char>,
    pub vertices: Seq<Qfg5Vertex>,
    pub texcoords: Seq<Qfg5TexCoord>,
    pub faces: Seq<Qfg5Face>,
    pub lighting_vertices: Seq<Qfg5LightingVertex>,
}

/// The mathematical content of a [`SubBitmap`].
pub struct SubBitmapView {
    pub width: u32,
    pub height: u32,
    pub bitmap: Seq<u8>,
}

/// The mathematical content of a [`Qfg5Model`].
pub struct ModelView {
    pub name: Seq<char>,
    pub palette: Seq<u8>,
    pub submeshes: Seq<SubMeshView>,
    pub subbitmaps: Seq<SubBitmapView>,
}

impl View for SubMesh {
    type V = SubMeshView;

    open spec fn view(&self) -> SubMeshView {
        SubMeshView {
            name: self.name@,
            vertices: self.vertices@,
            texcoords: self.texcoords@,
            faces: self.faces@,
            lighting_vertices: self.lighting_vertices@,
        }
    }
}

impl View for SubBitmap {
    type V = SubBitmapView;

    open spec fn view(&self) -> SubBitmapView {
        SubBitmapView { width: self.width, height: self.height, bitmap: self.bitmap@ }
    }
}

impl View for Qfg5Model {
    type V = ModelView;

    open spec fn view(&self) -> ModelView {
        ModelView {
            name: self.name@,
            palette: self.palette@,
            submeshes: views(self.submeshes@),
            subbitmaps: views(self.subbitmaps@),
        }
    }
}

impl SubMeshView {
    /// Every vertex has its lighting coefficients.
    pub open spec fn wf(self) -> bool {
        self.vertices.len() == self.lighting_vertices.len()
    }
}

impl SubBitmapView {
    /// Both sides are powers of two, and the buffer holds one index per
    /// pixel.
    pub open spec fn wf(self) -> bool {
        &&& exists|k: nat| k < 32 && pow2(k) == self.width
        &&& exists|k: nat| k < 32 && pow2(k) == self.height
        &&& self.bitmap.len() == self.width * self.height
    }
}

impl PlainRecord for Qfg5Vertex {
    proof fn lemma_length_decides(a: Seq<u8>, b: Seq<u8>, pos: int) {
        lemma_words_at_length_decides(a, b, pos, 3);
    }
}

impl Record for Qfg5Vertex {
    /// Three words: x, y, z.
    open spec fn at(data: Seq<u8>, pos: int) -> Result<(Self, int), DecodeError> {
        match words_at(data, pos, 3) {
            Err(e) => Err(e),
            Ok((w, end)) => Ok((Qfg5Vertex { x: w[0], y: w[1], z: w[2] }, end)),
        }
    }

    fn read(cursor: &mut Cursor) -> (r: Result<Self, DecodeError>) {
        let w = cursor.read_words(3)?;
        Ok(Qfg5Vertex { x: w[0], y: w[1], z: w[2] })
    }
}

impl PlainRecord for Qfg5TexCoord {
    proof fn lemma_length_decides(a: Seq<u8>, b: Seq<u8>, pos: int) {
        lemma_words_at_length_decides(a, b, pos, 2);
    }
}

impl Record for Qfg5TexCoord {
    /// Two words: u, v.
    open spec fn at(data: Seq<u8>, pos: int) -> Result<(Self, int), DecodeError> {
        match words_at(data, pos, 2) {
            Err(e) => Err(e),
            Ok((w, end)) => Ok((Qfg5TexCoord { u: w[0], v: w[1] }, end)),
        }
    }

    fn read(cursor: &mut Cursor) -> (r: Result<Self, DecodeError>) {
        let w = cursor.read_words(2)?;
        Ok(Qfg5TexCoord { u: w[0], v: w[1] })
    }
}

impl PlainRecord for Qfg5Face {
    proof fn lemma_length_decides(a: Seq<u8>, b: Seq<u8>, pos: int) {
        lemma_words_at_length_decides(a, b, pos, 10);
    }
}

impl Record for Qfg5Face {
    /// Ten words: the seven indices, then the normal.
    open spec fn at(data: Seq<u8>, pos: int) -> Result<(Self, int), DecodeError> {
        match words_at(data, pos, 10) {
            Err(e) => Err(e),
            Ok((w, end)) => Ok(
                (
                    Qfg5Face {
                        vertex1: w[0] as usize,
                        vertex2: w[1] as usize,
                        vertex3: w[2] as usize,
                        uv1: w[3] as usize,
                        uv2: w[4] as usize,
                        uv3: w[5] as usize,
                        subbitmap: w[6] as usize,
                        normal_x: w[7],
                        normal_y: w[8],
                        normal_z: w[9],
                    },
                    end,
                ),
            ),
        }
    }

    fn read(cursor: &mut Cursor) -> (r: Result<Self, DecodeError>) {
        let w = cursor.read_words(10)?;
        Ok(
            Qfg5Face {
                vertex1: w[0] as usize,
                vertex2: w[1] as usize,
                vertex3: w[2] as usize,
                uv1: w[3] as usize,
                uv2: w[4] as usize,
                uv3: w[5] as usize,
                subbitmap: w[6] as usize,
                normal_x: w[7],
                normal_y: w[8],
                normal_z: w[9],
            },
        )
    }
}

impl PlainRecord for Qfg5LightingVertex {
    proof fn lemma_length_decides(a: Seq<u8>, b: Seq<u8>, pos: int) {
        lemma_words_at_length_decides(a, b, pos, 4);
    }
}

impl Record for Qfg5LightingVertex {
    /// Four words: a, b, c, d.
    open spec fn at(data: Seq<u8>, pos: int) -> Result<(Self, int), DecodeError> {
        match words_at(data, pos, 4) {
            Err(e) => Err(e),
            Ok((w, end)) => Ok((Qfg5LightingVertex { a: w[0], b: w[1], c: w[2], d: w[3] }, end)),
        }
    }

    fn read(cursor: &mut Cursor) -> (r: Result<Self, DecodeError>) {
        let w = cursor.read_words(4)?;
        Ok(Qfg5LightingVertex { a: w[0], b: w[1], c: w[2], d: w[3] })
    }
}

/// The error of an offset field that disagrees with the value computed from
/// the counts.
pub open spec fn cross_check(field: &'static str, expected: int, actual: u32) -> DecodeError {
    DecodeError::StructuralCrossCheckFailed {
        field,
        expected: expected as u64,
        actual: actual as u64,
    }
}

/// The offset that `r1` must hold: behind the vertex list.
pub open spec fn expected_r1(num_vertices: u32) -> int {
    MDL_VERTEX_LIST_OFFSET + 12 * num_vertices
}

/// The offset that `r2` must hold: behind the texture coordinates.
pub open spec fn expected_r2(r1: u32, num_texcoords: u32) -> int {
    r1 + 8 * num_texcoords
}

/// The offset that `r3` must hold: behind the faces.
pub open spec fn expected_r3(r2: u32, num_faces: u32) -> int {
    r2 + 40 * num_faces
}

/// The lists of a submesh whose header, read at `pos`, passed its checks.
pub open spec fn submesh_lists_at(
    data: Seq<u8>,
    pos: int,
    num_vertices: nat,
    num_texcoords: nat,
    num_faces: nat,
) -> Result<SubMeshView, DecodeError> {
    match records_at::<Qfg5Vertex>(data, pos + 124, num_vertices) {
        Err(e) => Err(e),
        Ok((vertices, p1)) => match records_at::<Qfg5TexCoord>(data, p1, num_texcoords) {
            Err(e) => Err(e),
            Ok((texcoords, p2)) => match records_at::<Qfg5Face>(data, p2, num_faces) {
                Err(e) => Err(e),
                Ok((faces, p3)) => match records_at::<Qfg5LightingVertex>(data, p3, num_vertices) {
                    Err(e) => Err(e),
                    Ok((lighting_vertices, _)) => Ok(
                        SubMeshView {
                            name: decode_utf8(data.subrange(pos, pos + 16)),
                            vertices,
                            texcoords,
                            faces,
                            lighting_vertices,
                        },
                    ),
                },
            },
        },
    }
}

/// The submesh stored at `pos`: a 16-byte name, twenty unused words, the
/// three counts, the four offsets that must agree with the counts, and the
/// four lists. Each field is read, and each offset checked, in this order.
pub open spec fn submesh_at(data: Seq<u8>, pos: int) -> Result<SubMeshView, DecodeError> {
    let num_vertices = u32_at(data, pos + 96);
    let num_texcoords = u32_at(data, pos + 100);
    let num_faces = u32_at(data, pos + 104);
    let vlist_addr = u32_at(data, pos + 108);
    let r1 = u32_at(data, pos + 112);
    let r2 = u32_at(data, pos + 116);
    let r3 = u32_at(data, pos + 120);
    if !fits(data, pos, 16) {
        Err(short(data, pos, 16))
    } else if !valid_utf8(data.subrange(pos, pos + 16)) {
        Err(DecodeError::TextDecodeFailed { offset: pos as u64 })
    } else if words_at(data, pos + 16, 20) is Err {
        Err(words_at(data, pos + 16, 20)->Err_0)
    } else if !fits(data, pos + 96, 4) {
        Err(short(data, pos + 96, 4))
    } else if !fits(data, pos + 100, 4) {
        Err(short(data, pos + 100, 4))
    } else if !fits(data, pos + 104, 4) {
        Err(short(data, pos + 104, 4))
    } else if !fits(data, pos + 108, 4) {
        Err(short(data, pos + 108, 4))
    } else if vlist_addr != MDL_VERTEX_LIST_OFFSET {
        Err(cross_check("vlist_addr", MDL_VERTEX_LIST_OFFSET as int, vlist_addr))
    } else if !fits(data, pos + 112, 4) {
        Err(short(data, pos + 112, 4))
    } else if r1 != expected_r1(num_vertices) {
        Err(cross_check("r1", expected_r1(num_vertices), r1))
    } else if !fits(data, pos + 116, 4) {
        Err(short(data, pos + 116, 4))
    } else if r2 != expected_r2(r1, num_texcoords) {
        Err(cross_check("r2", expected_r2(r1, num_texcoords), r2))
    } else if !fits(data, pos + 120, 4) {
        Err(short(data, pos + 120, 4))
    } else if r3 != expected_r3(r2, num_faces) {
        Err(cross_check("r3", expected_r3(r2, num_faces), r3))
    } else {
        submesh_lists_at(data, pos, num_vertices as nat, num_texcoords as nat, num_faces as nat)
    }
}

/// A submesh that decodes no longer does once one byte of its `r1`, `r2` or
/// `r3` field is changed: what comes out then is a failed cross-check, never
/// another submesh.
pub proof fn lemma_perturbed_offset_is_rejected(data: Seq<u8>, pos: int, at: int, byte: u8)
    requires
        submesh_at(data, pos) is Ok,
        pos + 112 <= at < pos + 124,
        byte != data[at],
    ensures
        submesh_at(data.update(at, byte), pos) is Err,
        submesh_at(data.update(at, byte), pos)->Err_0 is StructuralCrossCheckFailed,
{
    let changed = data.update(at, byte);
    assert(changed.subrange(pos, pos + 16) =~= data.subrange(pos, pos + 16));
    lemma_words_at_agree(data, changed, pos + 16, 20);
    if at < pos + 116 {
        assert(u32_at(changed, pos + 112) != u32_at(data, pos + 112));
    } else if at < pos + 120 {
        assert(u32_at(changed, pos + 116) != u32_at(data, pos + 116));
    } else {
        assert(u32_at(changed, pos + 120) != u32_at(data, pos + 120));
    }
}

/// The number of submeshes that the header of `data` declares.
pub open spec fn submesh_count(data: Seq<u8>) -> int {
    u16_at(data, 28) as int
}

/// The offset of the submesh number `i`, from the table of offsets.
pub open spec fn submesh_offset(data: Seq<u8>, i: int) -> int {
    u32_at(data, 1068 + 4 * i) as int
}

/// A submesh that decodes still does, whatever it then holds, when bytes
/// behind its header change.
pub proof fn lemma_submesh_header_decides(a: Seq<u8>, b: Seq<u8>, pos: int)
    requires
        a.len() == b.len(),
        submesh_at(a, pos) is Ok,
        forall|k: int| pos <= k < pos + 124 ==> a[k] == b[k],
    ensures
        submesh_at(b, pos) is Ok,
{
    assert(b.subrange(pos, pos + 16) =~= a.subrange(pos, pos + 16));
    lemma_words_at_agree(a, b, pos + 16, 20);
    let nv = u32_at(a, pos + 96) as nat;
    let nt = u32_at(a, pos + 100) as nat;
    let nf = u32_at(a, pos + 104) as nat;
    lemma_records_at_length_decides::<Qfg5Vertex>(a, b, pos + 124, nv);
    let p1 = records_at::<Qfg5Vertex>(a, pos + 124, nv)->Ok_0.1;
    lemma_records_at_length_decides::<Qfg5TexCoord>(a, b, p1, nt);
    let p2 = records_at::<Qfg5TexCoord>(a, p1, nt)->Ok_0.1;
    lemma_records_at_length_decides::<Qfg5Face>(a, b, p2, nf);
    let p3 = records_at::<Qfg5Face>(a, p2, nf)->Ok_0.1;
    lemma_records_at_length_decides::<Qfg5LightingVertex>(a, b, p3, nv);
}

/// The table of submesh offsets of a model that decodes.
pub open spec fn submesh_offsets(data: Seq<u8>) -> Seq<u32> {
    words_at(data, 1068, submesh_count(data) as nat)->Ok_0.0
}

/// A change behind the table of submesh offsets leaves the header of a model
/// as it is: if a submesh then fails, the model fails with its error.
proof fn lemma_model_header_unchanged(data: Seq<u8>, at: int, byte: u8)
    requires
        parse_mdl(data) is Ok,
        1068 + 4 * submesh_count(data) <= at < data.len(),
    ensures
        submesh_count(data.update(at, byte)) == submesh_count(data),
        submesh_offsets(data.update(at, byte)) == submesh_offsets(data),
        parse_each(submesh_reader(data, submesh_offsets(data)), submesh_count(data) as nat) is Ok,
        forall|j: int|
            0 <= j < submesh_count(data) ==> #[trigger] submesh_offsets(data)[j] == submesh_offset(
                data,
                j,
            ),
        parse_each(
            submesh_reader(data.update(at, byte), submesh_offsets(data)),
            submesh_count(data) as nat,
        ) matches Err(e) ==> parse_mdl(data.update(at, byte)) == Err::<ModelView, _>(e),
{
    let changed = data.update(at, byte);
    let n = submesh_count(data) as nat;
    assert(changed.subrange(12, 28) =~= data.subrange(12, 28));
    lemma_words_at_agree(data, changed, 1068, n);
    lemma_words_at_values(data, 1068, n);
}

/// A change in the `r1`, `r2` or `r3` field of the submesh number `i`, and
/// in the header of no earlier submesh, makes the run of submeshes fail with
/// a failed cross-check.
proof fn lemma_perturbed_submeshes_fail(
    data: Seq<u8>,
    offsets: Seq<u32>,
    n: nat,
    i: int,
    at: int,
    byte: u8,
)
    requires
        parse_each(submesh_reader(data, offsets), n) is Ok,
        0 <= i < n,
        offsets[i] + 112 <= at < offsets[i] + 124,
        byte != data[at],
        forall|j: int| 0 <= j < i ==> !((#[trigger] offsets[j]) <= at < offsets[j] + 124),
    ensures
        parse_each(submesh_reader(data.update(at, byte), offsets), n) is Err,
        parse_each(
            submesh_reader(data.update(at, byte), offsets),
            n,
        )->Err_0 is StructuralCrossCheckFailed,
{
    let changed = data.update(at, byte);
    let item = submesh_reader(data, offsets);
    let item2 = submesh_reader(changed, offsets);
    lemma_each_items_ok(item, n);
    assert forall|j: int| 0 <= j < i implies (#[trigger] item2(j)) is Ok by {
        assert(item(j) is Ok);
        assert(!(offsets[j] <= at < offsets[j] + 124));
        lemma_submesh_header_decides(data, changed, offsets[j] as int);
    }
    assert(item(i) is Ok);
    lemma_perturbed_offset_is_rejected(data, offsets[i] as int, at, byte);
    lemma_each_first_failure(item2, i as nat, n);
}

/// A model that decodes no longer does once one byte of the `r1`, `r2` or
/// `r3` field of one of its submeshes is changed: what comes out is a failed
/// cross-check, never another model. This holds of a byte that lies behind
/// the table of submesh offsets and in the header of no earlier submesh.
pub proof fn lemma_perturbed_model_is_rejected(data: Seq<u8>, i: int, at: int, byte: u8)
    requires
        parse_mdl(data) is Ok,
        0 <= i < submesh_count(data),
        submesh_offset(data, i) + 112 <= at < submesh_offset(data, i) + 124,
        byte != data[at],
        at >= 1068 + 4 * submesh_count(data),
        forall|j: int|
            #![trigger submesh_offset(data, j)]
            0 <= j < i ==> !(submesh_offset(data, j) <= at < submesh_offset(data, j) + 124),
    ensures
        parse_mdl(data.update(at, byte)) is Err,
        parse_mdl(data.update(at, byte))->Err_0 is StructuralCrossCheckFailed,
{
    let n = submesh_count(data) as nat;
    let offsets = submesh_offsets(data);
    assert(at < data.len()) by {
        lemma_model_submesh_fits(data, i);
    }
    lemma_model_header_unchanged(data, at, byte);
    assert(offsets[i] == submesh_offset(data, i));
    assert forall|j: int| 0 <= j < i implies !((#[trigger] offsets[j]) <= at < offsets[j] + 124) by {
        assert(offsets[j] == submesh_offset(data, j));
    }
    lemma_perturbed_submeshes_fail(data, offsets, n, i, at, byte);
}

/// The header of every submesh of a model that decodes lies within the
/// buffer.
proof fn lemma_model_submesh_fits(data: Seq<u8>, i: int)
    requires
        parse_mdl(data) is Ok,
        0 <= i < submesh_count(data),
    ensures
        fits(data, submesh_offset(data, i), 124),
{
    let n = submesh_count(data) as nat;
    lemma_words_at_values(data, 1068, n);
    let offsets = submesh_offsets(data);
    lemma_each_items_ok(submesh_reader(data, offsets), n);
    assert(submesh_reader(data, offsets)(i) is Ok);
    assert(offsets[i] == submesh_offset(data, i));
}

/// The submesh number `i`, found by its entry in the offset table.
pub open spec fn submesh_reader(data: Seq<u8>, offsets: Seq<u32>) -> spec_fn(int) -> Result<
    SubMeshView,
    DecodeError,
> {
    |i: int| submesh_at(data, offsets[i] as int)
}

fn read_submesh(cursor: &mut Cursor) -> (r: Result<SubMesh, DecodeError>)
    ensures
        final(cursor).data == old(cursor).data,
        match r {
            Ok(m) => submesh_at(old(cursor).data@, old(cursor).pos as int) == Ok::<_, DecodeError>(
                m@,
            ) && m@.wf(),
            Err(e) => submesh_at(old(cursor).data@, old(cursor).pos as int) == Err::<
                SubMeshView,
                _,
            >(e),
        },
{
    let ghost pos = cursor.pos as int;
    let name_offset = cursor.position();
    let name = match string_from_utf8(slice_to_vec(cursor.read_slice(16)?)) {
        Some(name) => name,
        None => {
            return Err(DecodeError::TextDecodeFailed { offset: name_offset as u64 });
        },
    };
    let _unused = cursor.read_words(20)?;
    let num_vertices = cursor.read_u32()?;
    let num_uv_coords = cursor.read_u32()?;
    let num_faces = cursor.read_u32()?;
    let vlist_addr = cursor.read_u32()?;
    expect_computed("vlist_addr", MDL_VERTEX_LIST_OFFSET as u64, vlist_addr as u64)?;
    let r1 = cursor.read_u32()?;
    let want_r1: u64 = MDL_VERTEX_LIST_OFFSET as u64 + 12 * (num_vertices as u64);
    expect_computed("r1", want_r1, r1 as u64)?;
    let r2 = cursor.read_u32()?;
    let want_r2: u64 = r1 as u64 + 8 * (num_uv_coords as u64);
    expect_computed("r2", want_r2, r2 as u64)?;
    let r3 = cursor.read_u32()?;
    let want_r3: u64 = r2 as u64 + 40 * (num_faces as u64);
    expect_computed("r3", want_r3, r3 as u64)?;
    let vertices = read_records::<Qfg5Vertex>(cursor, num_vertices as usize)?;
    let texcoords = read_records::<Qfg5TexCoord>(cursor, num_uv_coords as usize)?;
    let faces = read_records::<Qfg5Face>(cursor, num_faces as usize)?;
    let lighting_vertices = read_records::<Qfg5LightingVertex>(cursor, num_vertices as usize)?;
    Ok(SubMesh { name, vertices, texcoords, faces, lighting_vertices })
}

/// The texture atlas stored at `pos`: six words (width and height as
/// singles, their exponents, and each less one), then `width * height`
/// palette indices. The redundant fields are checked in the order: width
/// against width less one, height likewise, width against its exponent,
/// height likewise. For an exponent that fails, the error holds the side as
/// the expected value and the exponent as the actual one.
pub open spec fn subbitmap_at(data: Seq<u8>, pos: int) -> Result<(SubBitmapView, int), DecodeError> {
    match words_at(data, pos, 6) {
        Err(e) => Err(e),
        Ok((w, _)) => {
            let width = single_to_u32(w[0]);
            let height = single_to_u32(w[1]);
            if w[4] + 1 != width {
                Err(cross_check("subbitmap width", w[4] + 1, width))
            } else if w[5] + 1 != height {
                Err(cross_check("subbitmap height", w[5] + 1, height))
            } else if pow2(w[2] as nat) != width {
                Err(cross_check("subbitmap width exponent", width as int, w[2]))
            } else if pow2(w[3] as nat) != height {
                Err(cross_check("subbitmap height exponent", height as int, w[3]))
            } else if !fits(data, pos + 24, width * height) {
                Err(short(data, pos + 24, width * height))
            } else {
                Ok(
                    (
                        SubBitmapView {
                            width,
                            height,
                            bitmap: data.subrange(pos + 24, pos + 24 + width * height),
                        },
                        pos + 24 + width * height,
                    ),
                )
            }
        },
    }
}

/// [`subbitmap_at`] as a reader of `data`.
pub open spec fn subbitmap_reader(data: Seq<u8>) -> spec_fn(int) -> Result<
    (SubBitmapView, int),
    DecodeError,
> {
    |p: int| subbitmap_at(data, p)
}

/// The atlas table stored at `pos`: a count word that holds four times the
/// number of atlases, one unused word for each atlas but the first, and the
/// atlases themselves.
pub open spec fn subbitmaps_at(data: Seq<u8>, pos: int) -> Result<Seq<SubBitmapView>, DecodeError> {
    let raw = u32_at(data, pos);
    let unused = if raw / 4 > 1 {
        raw - 4
    } else {
        0
    };
    if !fits(data, pos, 4) {
        Err(short(data, pos, 4))
    } else if raw % 4 != 0 {
        Err(cross_check("subbitmap count", raw - raw % 4, raw))
    } else if !fits(data, pos + 4, unused) {
        Err(short(data, pos + 4, unused))
    } else {
        match parse_many(subbitmap_reader(data), pos + 4 + unused, (raw / 4) as nat) {
            Err(e) => Err(e),
            Ok((subbitmaps, _)) => Ok(subbitmaps),
        }
    }
}

/// What an MDL buffer decodes to.
pub open spec fn parse_mdl(data: Seq<u8>) -> Result<ModelView, DecodeError> {
    let num_submeshes = u16_at(data, 28) as nat;
    if !fits(data, 12, 16) {
        Err(short(data, 12, 16))
    } else if !valid_utf8(data.subrange(12, 28)) {
        Err(DecodeError::TextDecodeFailed { offset: 12 })
    } else if !fits(data, 28, 2) {
        Err(short(data, 28, 2))
    } else if !fits(data, 45, MDL_PALETTE_SIZE as int) {
        Err(short(data, 45, MDL_PALETTE_SIZE as int))
    } else if !fits(data, 1064, 4) {
        Err(short(data, 1064, 4))
    } else {
        match words_at(data, 1068, num_submeshes) {
            Err(e) => Err(e),
            Ok((offsets, _)) => match parse_each(submesh_reader(data, offsets), num_submeshes) {
                Err(e) => Err(e),
                Ok(submeshes) => match subbitmaps_at(data, u32_at(data, 1064) as int) {
                    Err(e) => Err(e),
                    Ok(subbitmaps) => Ok(
                        ModelView {
                            name: decode_utf8(data.subrange(12, 28)),
                            palette: data.subrange(45, 45 + MDL_PALETTE_SIZE),
                            submeshes,
                            subbitmaps,
                        },
                    ),
                },
            },
        }
    }
}

/// Whether `value` is two to the power of `exponent`.
fn is_power_of_two(value: u32, exponent: u32) -> (r: bool)
    ensures
        r == (pow2(exponent as nat) == value),
        r ==> exponent < 32,
{
    proof {
        lemma2_to64();
    }
    if exponent >= 32 {
        proof {
            if exponent > 32 {
                lemma_pow2_strictly_increases(32, exponent as nat);
            }
        }
        false
    } else {
        proof {
            if exponent < 31 {
                lemma_pow2_strictly_increases(exponent as nat, 31);
            }
            lemma_u32_shl_is_mul(1, exponent);
        }
        (1u32 << exponent) == value
    }
}

fn read_subbitmap(cursor: &mut Cursor) -> (r: Result<SubBitmap, DecodeError>)
    ensures
        final(cursor).data == old(cursor).data,
        match r {
            Ok(b) => subbitmap_at(old(cursor).data@, old(cursor).pos as int) == Ok::<
                _,
                DecodeError,
            >((b@, final(cursor).pos as int)) && b@.wf(),
            Err(e) => subbitmap_at(old(cursor).data@, old(cursor).pos as int) == Err::<
                (SubBitmapView, int),
                _,
            >(e),
        },
{
    let w = cursor.read_words(6)?;
    let width = single_bits_to_u32(w[0]);
    let height = single_bits_to_u32(w[1]);
    let width_pow_2 = w[2];
    let height_pow_2 = w[3];
    let width_minus_1 = w[4];
    let height_minus_1 = w[5];
    expect_computed("subbitmap width", width_minus_1 as u64 + 1, width as u64)?;
    expect_computed("subbitmap height", height_minus_1 as u64 + 1, height as u64)?;
    if !is_power_of_two(width, width_pow_2) {
        return Err(
            DecodeError::StructuralCrossCheckFailed {
                field: "subbitmap width exponent",
                expected: width as u64,
                actual: width_pow_2 as u64,
            },
        );
    }
    if !is_power_of_two(height, height_pow_2) {
        return Err(
            DecodeError::StructuralCrossCheckFailed {
                field: "subbitmap height exponent",
                expected: height as u64,
                actual: height_pow_2 as u64,
            },
        );
    }
    assert(width as u64 * height as u64 <= u64::MAX) by (nonlinear_arith)
        requires
            width <= u32::MAX,
            height <= u32::MAX,
    ;
    let bitmap = cursor.read_bytes(width as u64 * height as u64)?;
    assert(pow2(width_pow_2 as nat) == width && pow2(height_pow_2 as nat) == height);
    Ok(SubBitmap { width, height, bitmap })
}

#[verifier::loop_isolation(false)]
fn read_subbitmaps(cursor: &mut Cursor) -> (r: Result<Vec<SubBitmap>, DecodeError>)
    ensures
        final(cursor).data == old(cursor).data,
        match r {
            Ok(v) => subbitmaps_at(old(cursor).data@, old(cursor).pos as int) == Ok::<
                _,
                DecodeError,
            >(views(v@)) && forall|i: int| 0 <= i < v@.len() ==> (#[trigger] v@[i])@.wf(),
            Err(e) => subbitmaps_at(old(cursor).data@, old(cursor).pos as int) == Err::<
                Seq<SubBitmapView>,
                _,
            >(e),
        },
{
    let ghost data = cursor.data@;
    let raw = cursor.read_u32()?;
    expect_computed("subbitmap count", (raw - raw % 4) as u64, raw as u64)?;
    let num_subbitmaps = (raw / 4) as usize;
    if num_subbitmaps > 1 {
        cursor.skip((num_subbitmaps - 1) * 4)?;
    }
    let ghost start = cursor.pos as int;
    let mut subbitmaps: Vec<SubBitmap> = Vec::new();
    let mut i: usize = 0;
    assert(views(subbitmaps@) =~= Seq::empty());
    while i < num_subbitmaps
        invariant
            i <= num_subbitmaps,
            cursor.data == old(cursor).data,
            forall|j: int| 0 <= j < subbitmaps@.len() ==> (#[trigger] subbitmaps@[j])@.wf(),
            parse_many(subbitmap_reader(data), start, i as nat) == Ok::<_, DecodeError>(
                (views(subbitmaps@), cursor.pos as int),
            ),
        decreases num_subbitmaps - i,
    {
        match read_subbitmap(cursor) {
            Ok(b) => {
                proof {
                    lemma_views_push(subbitmaps@, b);
                }
                subbitmaps.push(b);
            },
            Err(e) => {
                proof {
                    lemma_many_fails(
                        subbitmap_reader(data),
                        start,
                        (i + 1) as nat,
                        num_subbitmaps as nat,
                    );
                }
                return Err(e);
            },
        }
        i = i + 1;
    }
    Ok(subbitmaps)
}

impl Qfg5Model {
    /// Decodes an MDL buffer: the header, the submeshes found through the
    /// offset table, and the texture atlases found through the atlas offset.
    /// Every submesh of the result has one lighting record per vertex, and
    /// every atlas has power-of-two sides and `width * height` pixels.
    #[verifier::loop_isolation(false)]
    pub fn new(data: &[u8]) -> (r: Result<Qfg5Model, DecodeError>)
        ensures
            match r {
                Ok(m) => parse_mdl(data@) == Ok::<_, DecodeError>(m@) && m@.palette.len()
                    == MDL_PALETTE_SIZE && (forall|i: int|
                    0 <= i < m@.submeshes.len() ==> (#[trigger] m@.submeshes[i]).wf())
                    && (forall|i: int|
                    0 <= i < m@.subbitmaps.len() ==> (#[trigger] m@.subbitmaps[i]).wf()),
                Err(e) => parse_mdl(data@) == Err::<ModelView, _>(e),
            },
    {
        let mut cursor = Cursor::new(data);
        cursor.seek(0xc);
        let name = match string_from_utf8(slice_to_vec(cursor.read_slice(16)?)) {
            Some(name) => name,
            None => {
                return Err(DecodeError::TextDecodeFailed { offset: 12 });
            },
        };
        let num_submeshes = cursor.read_u16()? as usize;
        cursor.seek(45);
        let palette = slice_to_vec(cursor.read_slice(MDL_PALETTE_SIZE)?);
        let bitmap_texture_offset = cursor.read_u32()?;
        let submesh_offset = cursor.read_words(num_submeshes)?;

        let mut submeshes: Vec<SubMesh> = Vec::new();
        let mut n: usize = 0;
        assert(views(submeshes@) =~= Seq::empty());
        while n < num_submeshes
            invariant
                n <= num_submeshes,
                cursor.data@ == data@,
                forall|j: int| 0 <= j < submeshes@.len() ==> (#[trigger] submeshes@[j])@.wf(),
                parse_each(submesh_reader(data@, submesh_offset@), n as nat) == Ok::<
                    _,
                    DecodeError,
                >(views(submeshes@)),
            decreases num_submeshes - n,
        {
            cursor.seek(submesh_offset[n] as usize);
            match read_submesh(&mut cursor) {
                Ok(m) => {
                    proof {
                        lemma_views_push(submeshes@, m);
                    }
                    submeshes.push(m);
                },
                Err(e) => {
                    proof {
                        lemma_each_fails(
                            submesh_reader(data@, submesh_offset@),
                            (n + 1) as nat,
                            num_submeshes as nat,
                        );
                    }
                    return Err(e);
                },
            }
            n = n + 1;
        }
        cursor.seek(bitmap_texture_offset as usize);
        let subbitmaps = read_subbitmaps(&mut cursor)?;
        Ok(Qfg5Model { name, palette, submeshes, subbitmaps })
    }
}

} // verus!
