use qfg5reenigne::qfg5resource::error::DecodeError;
use qfg5reenigne::qfg5resource::qfg5mdl::Qfg5Model;

const SUBMESH: usize = 1072;

fn push_u32(v: &mut Vec<u8>, x: u32) {
    v.extend_from_slice(&x.to_le_bytes());
}

fn push_f32(v: &mut Vec<u8>, x: f32) {
    v.extend_from_slice(&x.to_le_bytes());
}

// One submesh of 2 vertices, 1 texture coordinate and 1 face, and `atlases`.
fn mdl(atlases: &[(f32, f32, u32, u32, u32, u32, &[u8])]) -> Vec<u8> {
    let mut v = vec![0u8; 12];
    v.extend_from_slice(b"hero\0\0\0\0\0\0\0\0\0\0\0\0");
    v.extend_from_slice(&1u16.to_le_bytes());
    v.extend_from_slice(&[0; 15]);
    for n in 0..1019u32 {
        v.push((n % 256) as u8);
    }
    let atlas_offset = SUBMESH + 124 + 2 * 12 + 8 + 40 + 2 * 16;
    push_u32(&mut v, atlas_offset as u32);
    push_u32(&mut v, SUBMESH as u32);
    assert_eq!(v.len(), SUBMESH);
    v.extend_from_slice(b"body\0\0\0\0\0\0\0\0\0\0\0\0");
    for _ in 0..20 {
        push_f32(&mut v, 1.0);
    }
    push_u32(&mut v, 2);
    push_u32(&mut v, 1);
    push_u32(&mut v, 1);
    push_u32(&mut v, 0x7c);
    push_u32(&mut v, 0x7c + 24);
    push_u32(&mut v, 0x7c + 24 + 8);
    push_u32(&mut v, 0x7c + 24 + 8 + 40);
    for x in [1.0f32, 2.0, 3.0, 4.0, 5.0, 6.0] {
        push_f32(&mut v, x);
    }
    push_f32(&mut v, 0.25);
    push_f32(&mut v, 0.75);
    for x in [0u32, 1, 0, 0, 0, 0, 3] {
        push_u32(&mut v, x);
    }
    for x in [0.0f32, 0.0, 1.0] {
        push_f32(&mut v, x);
    }
    for x in [0.1f32, 0.2, 0.3, 0.4, 0.5, 0.6, 0.7, 0.8] {
        push_f32(&mut v, x);
    }
    assert_eq!(v.len(), atlas_offset);
    push_u32(&mut v, 4 * atlases.len() as u32);
    for _ in 1..atlases.len() {
        push_u32(&mut v, 0xdead);
    }
    for (w, h, wp, hp, wm, hm, pixels) in atlases {
        push_f32(&mut v, *w);
        push_f32(&mut v, *h);
        push_u32(&mut v, *wp);
        push_u32(&mut v, *hp);
        push_u32(&mut v, *wm);
        push_u32(&mut v, *hm);
        v.extend_from_slice(pixels);
    }
    v
}

#[test]
fn mdl_decodes_submesh_and_atlas() {
    let data = mdl(&[(2.0, 4.0, 1, 2, 1, 3, &[1, 2, 3, 4, 5, 6, 7, 8])]);
    let m = Qfg5Model::new(&data).unwrap();
    assert_eq!(m.name, "hero\0\0\0\0\0\0\0\0\0\0\0\0");
    assert_eq!(m.palette.len(), 1019);
    assert_eq!(m.palette[0], 0);
    assert_eq!(m.palette[1018], (1018 % 256) as u8);
    assert_eq!(m.submeshes.len(), 1);
    let s = &m.submeshes[0];
    assert_eq!(s.name, "body\0\0\0\0\0\0\0\0\0\0\0\0");
    assert_eq!(s.vertices.len(), 2);
    assert_eq!(s.lighting_vertices.len(), 2);
    assert_eq!(f32::from_bits(s.vertices[0].x), 1.0);
    assert_eq!(f32::from_bits(s.vertices[1].z), 6.0);
    assert_eq!(s.texcoords.len(), 1);
    assert_eq!(f32::from_bits(s.texcoords[0].u), 0.25);
    assert_eq!(f32::from_bits(s.texcoords[0].v), 0.75);
    assert_eq!(s.faces.len(), 1);
    let f = s.faces[0];
    assert_eq!((f.vertex1, f.vertex2, f.vertex3), (0, 1, 0));
    assert_eq!((f.uv1, f.uv2, f.uv3, f.subbitmap), (0, 0, 0, 3));
    assert_eq!(f32::from_bits(f.normal_z), 1.0);
    assert_eq!(f32::from_bits(s.lighting_vertices[1].d), 0.8);
    assert_eq!(m.subbitmaps.len(), 1);
    assert_eq!(m.subbitmaps[0].width, 2);
    assert_eq!(m.subbitmaps[0].height, 4);
    assert_eq!(m.subbitmaps[0].bitmap, vec![1, 2, 3, 4, 5, 6, 7, 8]);
}

#[test]
fn mdl_without_atlases() {
    let data = mdl(&[]);
    let m = Qfg5Model::new(&data).unwrap();
    assert!(m.subbitmaps.is_empty());
}

#[test]
fn mdl_two_atlases_follow_the_unused_word() {
    let data = mdl(&[(1.0, 1.0, 0, 0, 0, 0, &[9]), (2.0, 1.0, 1, 0, 1, 0, &[7, 8])]);
    let m = Qfg5Model::new(&data).unwrap();
    assert_eq!(m.subbitmaps.len(), 2);
    assert_eq!(m.subbitmaps[0].bitmap, vec![9]);
    assert_eq!((m.subbitmaps[1].width, m.subbitmaps[1].height), (2, 1));
    assert_eq!(m.subbitmaps[1].bitmap, vec![7, 8]);
}

#[test]
fn mdl_perturbed_offsets_fail_the_cross_check() {
    let good = mdl(&[(2.0, 2.0, 1, 1, 1, 1, &[1, 2, 3, 4])]);
    assert!(Qfg5Model::new(&good).is_ok());
    for at in SUBMESH + 112..SUBMESH + 124 {
        for delta in [1u8, 0x80, 0xff] {
            let mut data = good.clone();
            data[at] = data[at].wrapping_add(delta);
            assert!(matches!(
                Qfg5Model::new(&data),
                Err(DecodeError::StructuralCrossCheckFailed { .. })
            ));
        }
    }
}

#[test]
fn mdl_cross_check_reports_expected_and_actual() {
    let good = mdl(&[]);
    let mut data = good.clone();
    data[SUBMESH + 108] = 0x7d;
    assert_eq!(
        Qfg5Model::new(&data),
        Err(DecodeError::StructuralCrossCheckFailed { field: "vlist_addr", expected: 0x7c, actual: 0x7d })
    );
    let mut data = good.clone();
    data[SUBMESH + 112] += 1;
    assert_eq!(
        Qfg5Model::new(&data),
        Err(DecodeError::StructuralCrossCheckFailed { field: "r1", expected: 148, actual: 149 })
    );
    let mut data = good.clone();
    data[SUBMESH + 117] = 1;
    assert_eq!(
        Qfg5Model::new(&data),
        Err(DecodeError::StructuralCrossCheckFailed { field: "r2", expected: 156, actual: 156 + 256 })
    );
    let mut data = good.clone();
    data[SUBMESH + 120] -= 1;
    assert_eq!(
        Qfg5Model::new(&data),
        Err(DecodeError::StructuralCrossCheckFailed { field: "r3", expected: 196, actual: 195 })
    );
}

#[test]
fn mdl_rejects_atlas_count_that_is_no_multiple_of_four() {
    let mut data = mdl(&[]);
    let at = data.len() - 4;
    data[at] = 6;
    assert_eq!(
        Qfg5Model::new(&data),
        Err(DecodeError::StructuralCrossCheckFailed { field: "subbitmap count", expected: 4, actual: 6 })
    );
}

#[test]
fn mdl_rejects_inconsistent_atlas_sizes() {
    let data = mdl(&[(2.0, 2.0, 1, 1, 2, 1, &[1, 2, 3, 4])]);
    assert_eq!(
        Qfg5Model::new(&data),
        Err(DecodeError::StructuralCrossCheckFailed { field: "subbitmap width", expected: 3, actual: 2 })
    );
    let data = mdl(&[(2.0, 2.0, 1, 1, 1, 0, &[1, 2, 3, 4])]);
    assert_eq!(
        Qfg5Model::new(&data),
        Err(DecodeError::StructuralCrossCheckFailed { field: "subbitmap height", expected: 1, actual: 2 })
    );
    let data = mdl(&[(3.0, 2.0, 1, 1, 2, 1, &[1, 2, 3, 4, 5, 6])]);
    assert_eq!(
        Qfg5Model::new(&data),
        Err(DecodeError::StructuralCrossCheckFailed {
            field: "subbitmap width exponent",
            expected: 3,
            actual: 1
        })
    );
    let data = mdl(&[(2.0, 2.0, 1, 40, 1, 1, &[1, 2, 3, 4])]);
    assert_eq!(
        Qfg5Model::new(&data),
        Err(DecodeError::StructuralCrossCheckFailed {
            field: "subbitmap height exponent",
            expected: 2,
            actual: 40
        })
    );
}

#[test]
fn mdl_atlas_size_is_truncated_towards_zero() {
    let data = mdl(&[(2.9, 1.5, 1, 0, 1, 0, &[1, 2])]);
    let m = Qfg5Model::new(&data).unwrap();
    assert_eq!((m.subbitmaps[0].width, m.subbitmaps[0].height), (2, 1));
}

#[test]
fn mdl_rejects_truncated_input() {
    let good = mdl(&[(2.0, 2.0, 1, 1, 1, 1, &[1, 2, 3, 4])]);
    assert_eq!(
        Qfg5Model::new(&good[..good.len() - 1]),
        Err(DecodeError::TruncatedInput {
            offset: good.len() as u64 - 4,
            needed: 4,
            length: good.len() as u64 - 1
        })
    );
    assert_eq!(
        Qfg5Model::new(&good[..20]),
        Err(DecodeError::TruncatedInput { offset: 12, needed: 16, length: 20 })
    );
    assert_eq!(
        Qfg5Model::new(&good[..SUBMESH + 130]),
        Err(DecodeError::TruncatedInput {
            offset: SUBMESH as u64 + 128,
            needed: 4,
            length: SUBMESH as u64 + 130
        })
    );
}

#[test]
fn mdl_rejects_names_that_are_not_utf8() {
    let mut data = mdl(&[]);
    data[12] = 0xff;
    assert_eq!(Qfg5Model::new(&data), Err(DecodeError::TextDecodeFailed { offset: 12 }));
    let mut data = mdl(&[]);
    data[SUBMESH + 3] = 0xff;
    assert_eq!(Qfg5Model::new(&data), Err(DecodeError::TextDecodeFailed { offset: SUBMESH as u64 }));
}
