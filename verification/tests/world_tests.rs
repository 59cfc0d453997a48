use levelgeom::table::MaterialSet;
use levelgeom::world::{FaceVertex, LevelFace, extract_world, fan_triangulate};

fn vert(tag: u32) -> FaceVertex {
    FaceVertex { pos: (tag, tag + 1, tag + 2), uv: (tag + 3, tag + 4) }
}

fn tri_face(texture: &[u8], visible: bool, tag: u32) -> LevelFace {
    LevelFace {
        texture: texture.to_vec(),
        visible,
        triangulated: true,
        vertices: vec![vert(tag), vert(tag + 10), vert(tag + 20)],
    }
}

#[test]
fn texture_grouping() {
    let faces = vec![
        tri_face(b"A", true, 100),
        tri_face(b"B", true, 200),
        tri_face(b"A", true, 300),
        tri_face(b"A", false, 400),
        tri_face(b"B", true, 500),
        tri_face(b"A", true, 600),
    ];
    let mut set = MaterialSet::new();
    let prims = extract_world(&faces, &mut set, true);
    assert_eq!(prims.len(), 2);
    assert_eq!(prims[0].texture, b"A".to_vec());
    assert_eq!(prims[1].texture, b"B".to_vec());
    // The invisible A face is dropped: exactly three faces' vertices merge.
    assert_eq!(prims[0].vertices.len(), 9);
    let expected_a: Vec<u32> = vec![100, 110, 120, 300, 310, 320, 600, 610, 620];
    let got_a: Vec<u32> = prims[0].vertices.iter().map(|v| v.pos.0).collect();
    assert_eq!(got_a, expected_a);
    assert_eq!(prims[1].vertices.len(), 6);
    assert_eq!(prims[0].material_index, Some(0));
    assert_eq!(prims[1].material_index, Some(1));
    let keys = set.into_materials();
    assert_eq!(keys.len(), 2);
    assert_eq!(keys[0].name, b"A".to_vec());
    assert!(keys[0].search_paths.is_empty());
}

#[test]
fn textures_off_leaves_indices_absent() {
    let faces = vec![tri_face(b"A", true, 0)];
    let mut set = MaterialSet::new();
    let prims = extract_world(&faces, &mut set, false);
    assert_eq!(prims.len(), 1);
    assert_eq!(prims[0].material_index, None);
    assert_eq!(set.len(), 0);
}

#[test]
fn fan_triangulation_winding() {
    let quad = vec![vert(0), vert(100), vert(200), vert(300)];
    let tris = fan_triangulate(&quad);
    let got: Vec<u32> = tris.iter().map(|v| v.pos.0).collect();
    // Two triangles: (v2, v1, v0) and (v3, v2, v0).
    assert_eq!(got, vec![200, 100, 0, 300, 200, 0]);

    let too_small = fan_triangulate(&vec![vert(0), vert(1)]);
    assert!(too_small.is_empty());
}

#[test]
fn displaced_faces_pass_through_pretriangulated() {
    let face = LevelFace {
        texture: b"disp".to_vec(),
        visible: true,
        triangulated: true,
        vertices: vec![vert(0), vert(1), vert(2), vert(3), vert(4), vert(5)],
    };
    let mut set = MaterialSet::new();
    let prims = extract_world(&vec![face], &mut set, true);
    assert_eq!(prims[0].vertices.len(), 6);
    let got: Vec<u32> = prims[0].vertices.iter().map(|v| v.pos.0).collect();
    assert_eq!(got, vec![0, 1, 2, 3, 4, 5]);
}

#[test]
fn polygon_faces_are_fanned_inside_extraction() {
    let face = LevelFace {
        texture: b"wall".to_vec(),
        visible: true,
        triangulated: false,
        vertices: vec![vert(0), vert(100), vert(200), vert(300)],
    };
    let mut set = MaterialSet::new();
    let prims = extract_world(&vec![face], &mut set, true);
    let got: Vec<u32> = prims[0].vertices.iter().map(|v| v.pos.0).collect();
    assert_eq!(got, vec![200, 100, 0, 300, 200, 0]);
}
