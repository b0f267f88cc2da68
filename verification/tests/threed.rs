use qfg5reenigne::qfg5resource::qfg5mdl::{
    Qfg5Face, Qfg5LightingVertex, Qfg5Model, Qfg5TexCoord, Qfg5Vertex, SubMesh,
};
use qfg5reenigne::threed::resources::{load_qfg5model, load_submesh, ModelVertex};

fn bits(x: f32) -> u32 {
    x.to_bits()
}

fn vertex(x: f32, y: f32, z: f32) -> Qfg5Vertex {
    Qfg5Vertex { x: bits(x), y: bits(y), z: bits(z) }
}

fn face(v: [usize; 3], uv: [usize; 3], nz: f32) -> Qfg5Face {
    Qfg5Face {
        vertex1: v[0],
        vertex2: v[1],
        vertex3: v[2],
        uv1: uv[0],
        uv2: uv[1],
        uv3: uv[2],
        subbitmap: 0,
        normal_x: bits(0.0),
        normal_y: bits(0.5),
        normal_z: bits(nz),
    }
}

fn submesh(faces: Vec<Qfg5Face>) -> SubMesh {
    SubMesh {
        name: String::from("quad"),
        vertices: vec![
            vertex(0.0, 0.0, 0.0),
            vertex(1.0, 0.0, 0.0),
            vertex(1.0, 1.0, 0.0),
            vertex(0.0, 1.0, 0.0),
        ],
        texcoords: vec![
            Qfg5TexCoord { u: bits(0.0), v: bits(0.0) },
            Qfg5TexCoord { u: bits(1.0), v: bits(1.0) },
        ],
        faces,
        lighting_vertices: vec![Qfg5LightingVertex::default(); 4],
    }
}

#[test]
fn triangle_list_has_three_corners_for_each_face() {
    let s = submesh(vec![face([0, 1, 2], [0, 1, 1], 1.0), face([0, 2, 3], [1, 0, 1], -1.0)]);
    let mesh = load_submesh(&s).unwrap();
    assert_eq!(mesh.indices, vec![0, 1, 2, 3, 4, 5]);
    assert_eq!(mesh.vertices.len(), 6);
    assert_eq!(
        mesh.vertices[1],
        ModelVertex {
            position: [bits(1.0), bits(0.0), bits(0.0)],
            tex_coords: [bits(1.0), bits(1.0)],
            normal: [bits(0.0), bits(0.5), bits(1.0)],
        }
    );
    assert_eq!(
        mesh.vertices[5],
        ModelVertex {
            position: [bits(0.0), bits(1.0), bits(0.0)],
            tex_coords: [bits(1.0), bits(1.0)],
            normal: [bits(0.0), bits(0.5), bits(-1.0)],
        }
    );
    assert_eq!(mesh.vertices[3].position, [bits(0.0), bits(0.0), bits(0.0)]);
    assert_eq!(mesh.vertices[3].tex_coords, [bits(1.0), bits(1.0)]);
    assert_eq!(mesh.vertices[4].tex_coords, [bits(0.0), bits(0.0)]);
}

#[test]
fn triangle_list_of_no_faces_is_empty() {
    let mesh = load_submesh(&submesh(Vec::new())).unwrap();
    assert!(mesh.vertices.is_empty());
    assert!(mesh.indices.is_empty());
}

#[test]
fn triangle_list_rejects_indices_out_of_range() {
    assert!(load_submesh(&submesh(vec![face([0, 1, 4], [0, 0, 0], 1.0)])).is_none());
    assert!(load_submesh(&submesh(vec![face([4, 1, 2], [0, 0, 0], 1.0)])).is_none());
    assert!(load_submesh(&submesh(vec![face([0, 4, 2], [0, 0, 0], 1.0)])).is_none());
    assert!(load_submesh(&submesh(vec![face([0, 1, 2], [2, 0, 0], 1.0)])).is_none());
    assert!(load_submesh(&submesh(vec![face([0, 1, 2], [0, 2, 0], 1.0)])).is_none());
    assert!(load_submesh(&submesh(vec![face([0, 1, 2], [0, 0, 2], 1.0)])).is_none());
    assert!(load_submesh(&submesh(vec![face([3, 3, 3], [1, 1, 1], 1.0)])).is_some());
}

#[test]
fn model_loads_all_submeshes_or_none() {
    let good = submesh(vec![face([0, 1, 2], [0, 1, 1], 1.0)]);
    let bad = submesh(vec![face([0, 1, 9], [0, 1, 1], 1.0)]);
    let model = Qfg5Model {
        name: String::from("m"),
        palette: vec![0; 1019],
        submeshes: vec![good.clone(), good.clone()],
        subbitmaps: Vec::new(),
    };
    let meshes = load_qfg5model(&model).unwrap();
    assert_eq!(meshes.len(), 2);
    assert_eq!(meshes[1].indices, vec![0, 1, 2]);
    let model = Qfg5Model {
        name: String::from("m"),
        palette: vec![0; 1019],
        submeshes: vec![good, bad],
        subbitmaps: Vec::new(),
    };
    assert!(load_qfg5model(&model).is_none());
    let model = Qfg5Model {
        name: String::from("m"),
        palette: Vec::new(),
        submeshes: Vec::new(),
        subbitmaps: Vec::new(),
    };
    assert_eq!(load_qfg5model(&model), Some(Vec::new()));
}
