//! Triangle lists of the submeshes of a model.
use crate::qfg5resource::parse::{lemma_views_push, views};
use crate::qfg5resource::qfg5mdl::{
    Qfg5Face, Qfg5Model, Qfg5TexCoord, Qfg5Vertex, SubMesh, SubMeshView,
};
use vstd::prelude::*;

verus! {

/// One corner of a triangle: its position, its texture coordinate and the
/// normal of its face. Each number is the bit pattern of an IEEE-754 single.
#[derive(Debug, Clone, Copy, PartialEq, Eq)]
pub struct ModelVertex {
    pub position: [u32; 3],
    pub tex_coords: [u32; 2],
    pub normal: [u32; 3],
}

/// The triangle list of one submesh: three vertices for each face, and the
/// indices that draw them in order.
#[derive(Debug, Clone, PartialEq, Eq)]
pub struct MeshData {
    pub vertices: Vec<ModelVertex>,
    pub indices: Vec<u32>,
}

/// The mathematical content of a [`MeshData`].
pub struct Mesh {
    pub vertices: Seq<ModelVertex>,
    pub indices: Seq<u32>,
}

impl View for MeshData {
    type V = Mesh;

    open spec fn view(&self) -> Mesh {
        Mesh { vertices: self.vertices@, indices: self.indices@ }
    }
}

/// The vertex and texture-coordinate indices of `f` point into the lists of
/// `m`.
pub open spec fn face_in_range(f: Qfg5Face, m: SubMeshView) -> bool {
    &&& f.vertex1 < m.vertices.len()
    &&& f.vertex2 < m.vertices.len()
    &&& f.vertex3 < m.vertices.len()
    &&& f.uv1 < m.texcoords.len()
    &&& f.uv2 < m.texcoords.len()
    &&& f.uv3 < m.texcoords.len()
}

/// A triangle list can be made of `m`: every face is in range, and the
/// corners can be counted in 32 bits.
pub open spec fn can_draw(m: SubMeshView) -> bool {
    &&& 3 * m.faces.len() <= u32::MAX
    &&& forall|i: int| 0 <= i < m.faces.len() ==> face_in_range(#[trigger] m.faces[i], m)
}

/// The corner at `v` with the texture coordinate at `t` of a face with the
/// normal of `f`.
pub open spec fn corner(v: Qfg5Vertex, t: Qfg5TexCoord, f: Qfg5Face) -> ModelVertex {
    ModelVertex {
        position: [v.x, v.y, v.z],
        tex_coords: [t.u, t.v],
        normal: [f.normal_x, f.normal_y, f.normal_z],
    }
}

/// The corner number `c`, from 0 to 2, of the face `f` of `m`.
pub open spec fn face_corner(m: SubMeshView, f: Qfg5Face, c: int) -> ModelVertex {
    if c == 0 {
        corner(m.vertices[f.vertex1 as int], m.texcoords[f.uv1 as int], f)
    } else if c == 1 {
        corner(m.vertices[f.vertex2 as int], m.texcoords[f.uv2 as int], f)
    } else {
        corner(m.vertices[f.vertex3 as int], m.texcoords[f.uv3 as int], f)
    }
}

/// The triangle list of `m`: the corners of its faces, face by face, drawn
/// in that order.
pub open spec fn triangle_list(m: SubMeshView) -> Mesh {
    Mesh {
        vertices: Seq::new(3 * m.faces.len(), |i: int| face_corner(m, m.faces[i / 3], i % 3)),
        indices: Seq::new(3 * m.faces.len(), |i: int| i as u32),
    }
}

/// The triangle lists of `submeshes`, or nothing where one of them cannot
/// be drawn.
pub open spec fn triangle_lists(submeshes: Seq<SubMeshView>) -> Option<Seq<Mesh>> {
    if forall|i: int| 0 <= i < submeshes.len() ==> can_draw(#[trigger] submeshes[i]) {
        Some(Seq::new(submeshes.len(), |i: int| triangle_list(submeshes[i])))
    } else {
        None
    }
}

fn make_corner(v: &Qfg5Vertex, t: &Qfg5TexCoord, f: &Qfg5Face) -> (r: ModelVertex)
    ensures
        r == corner(*v, *t, *f),
{
    ModelVertex {
        position: [v.x, v.y, v.z],
        tex_coords: [t.u, t.v],
        normal: [f.normal_x, f.normal_y, f.normal_z],
    }
}

/// The triangle list of `submesh`, or nothing where a face points outside
/// the lists of the submesh or there are too many faces.
pub fn load_submesh(submesh: &SubMesh) -> (r: Option<MeshData>)
    ensures
        r is Some <==> can_draw(submesh@),
        r matches Some(mesh) ==> mesh@ == triangle_list(submesh@),
{
    let num_faces = submesh.faces.len();
    if num_faces > 0x5555_5555 {
        return None;
    }
    let num_vertices = submesh.vertices.len();
    let num_texcoords = submesh.texcoords.len();
    let mut vertices: Vec<ModelVertex> = Vec::new();
    let mut indices: Vec<u32> = Vec::new();
    let mut n: usize = 0;
    while n < num_faces
        invariant
            n <= num_faces,
            num_faces == submesh.faces@.len(),
            num_faces <= 0x5555_5555,
            num_vertices == submesh.vertices@.len(),
            num_texcoords == submesh.texcoords@.len(),
            vertices@.len() == 3 * n,
            indices@.len() == 3 * n,
            forall|i: int| 0 <= i < n ==> face_in_range(#[trigger] submesh.faces@[i], submesh@),
            forall|i: int|
                0 <= i < 3 * n ==> #[trigger] vertices@[i] == face_corner(
                    submesh@,
                    submesh.faces@[i / 3],
                    i % 3,
                ),
            forall|i: int| 0 <= i < 3 * n ==> #[trigger] indices@[i] == i as u32,
        decreases num_faces - n,
    {
        let face = &submesh.faces[n];
        // Every face is a triangle.
        if face.vertex1 >= num_vertices || face.vertex2 >= num_vertices || face.vertex3
            >= num_vertices || face.uv1 >= num_texcoords || face.uv2 >= num_texcoords || face.uv3
            >= num_texcoords {
            assert(!face_in_range(submesh@.faces[n as int], submesh@));
            return None;
        }
        let first = (3 * n) as u32;
        vertices.push(
            make_corner(&submesh.vertices[face.vertex1], &submesh.texcoords[face.uv1], face),
        );
        indices.push(first);
        vertices.push(
            make_corner(&submesh.vertices[face.vertex2], &submesh.texcoords[face.uv2], face),
        );
        indices.push(first + 1);
        vertices.push(
            make_corner(&submesh.vertices[face.vertex3], &submesh.texcoords[face.uv3], face),
        );
        indices.push(first + 2);
        n = n + 1;
    }
    assert(vertices@ =~= triangle_list(submesh@).vertices);
    assert(indices@ =~= triangle_list(submesh@).indices);
    Some(MeshData { vertices, indices })
}

/// The triangle lists of the submeshes of `model`, or nothing where one of
/// them cannot be drawn.
pub fn load_qfg5model(model: &Qfg5Model) -> (r: Option<Vec<MeshData>>)
    ensures
        r is Some <==> triangle_lists(model@.submeshes) is Some,
        r matches Some(meshes) ==> Some(views(meshes@)) == triangle_lists(model@.submeshes),
{
    let mut meshes: Vec<MeshData> = Vec::new();
    let mut n: usize = 0;
    assert(views(meshes@) =~= Seq::empty());
    while n < model.submeshes.len()
        invariant
            n <= model.submeshes@.len(),
            meshes@.len() == n,
            forall|i: int| 0 <= i < n ==> can_draw(#[trigger] model@.submeshes[i]),
            forall|i: int|
                0 <= i < n ==> #[trigger] views(meshes@)[i] == triangle_list(model@.submeshes[i]),
        decreases model.submeshes@.len() - n,
    {
        match load_submesh(&model.submeshes[n]) {
            Some(mesh) => {
                proof {
                    lemma_views_push(meshes@, mesh);
                }
                meshes.push(mesh);
            },
            None => {
                assert(!can_draw(model@.submeshes[n as int]));
                return None;
            },
        }
        n = n + 1;
    }
    assert(views(meshes@) =~= Seq::new(
        model@.submeshes.len(),
        |i: int| triangle_list(model@.submeshes[i]),
    ));
    Some(meshes)
}

} // verus!
