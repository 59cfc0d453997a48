use levelgeom::pipeline::{Error, ModelFaces, load_map};
use levelgeom::prop::{Placement, PropMesh, PropModel, TexRef, load_props, model_section_names,
    select_skin};
use levelgeom::table::MaterialSet;
use levelgeom::world::{FaceVertex, LevelFace};

fn mesh(name: &[u8], slot: i32, tag: u32) -> PropMesh {
    PropMesh {
        name: name.to_vec(),
        material_slot: slot,
        positions: vec![(tag, tag + 1, tag + 2)],
        normals: vec![(tag + 3, tag + 4, tag + 5)],
        uvs: vec![(tag + 6, tag + 7)],
        tangents: vec![(tag + 8, tag + 9, tag + 10, tag + 11)],
    }
}

fn two_skin_model() -> PropModel {
    PropModel {
        textures: vec![
            TexRef { name: b"skin0/tex".to_vec(), search_paths: vec![b"props/".to_vec()] },
            TexRef { name: b"skin1/tex".to_vec(), search_paths: vec![b"props/".to_vec()] },
        ],
        skin_tables: vec![vec![0], vec![1]],
        meshes: vec![mesh(b"body", 0, 100)],
    }
}

#[test]
fn section_names_replace_the_model_suffix() {
    let (vtx, vvd) = model_section_names(b"models/props/barrel.mdl");
    assert_eq!(vtx, b"models/props/barrel.dx90.vtx".to_vec());
    assert_eq!(vvd, b"models/props/barrel.vvd".to_vec());
}

#[test]
fn skin_fallback() {
    let model = two_skin_model();
    // In-range indices select their table; anything else falls back to 0.
    assert_eq!(select_skin(&model, 1), 1);
    assert_eq!(select_skin(&model, 0), 0);
    assert_eq!(select_skin(&model, 7), 0);
    assert_eq!(select_skin(&model, -1), 0);

    let placement = Placement {
        model_path: b"models/props/barrel.mdl".to_vec(),
        transform: (0..16).collect(),
        skin: 7,
        model: Some(two_skin_model()),
    };
    let mut set = MaterialSet::new();
    let prims = load_props(&vec![placement], &mut set, true);
    assert_eq!(prims.len(), 1);
    // Out-of-range skin renders with table 0, so texture `skin0/tex`.
    assert_eq!(prims[0].material_index, Some(0));
    let keys = set.into_materials();
    assert_eq!(keys.len(), 1);
    assert_eq!(keys[0].name, b"skin0/tex".to_vec());
    assert_eq!(keys[0].search_paths, vec![b"props/".to_vec()]);
}

#[test]
fn in_range_skin_selects_its_table() {
    let placement = Placement {
        model_path: b"m.mdl".to_vec(),
        transform: (0..16).collect(),
        skin: 1,
        model: Some(two_skin_model()),
    };
    let mut set = MaterialSet::new();
    let prims = load_props(&vec![placement], &mut set, true);
    let keys = set.into_materials();
    assert_eq!(keys[0].name, b"skin1/tex".to_vec());
    assert_eq!(prims[0].material_index, Some(0));
}

#[test]
fn failed_model_is_skipped() {
    let broken = Placement {
        model_path: b"models/broken.mdl".to_vec(),
        transform: (0..16).collect(),
        skin: 0,
        model: None,
    };
    let fine = Placement {
        model_path: b"m.mdl".to_vec(),
        transform: (16..32).collect(),
        skin: 0,
        model: Some(two_skin_model()),
    };
    let mut set = MaterialSet::new();
    let prims = load_props(&vec![broken, fine], &mut set, true);
    assert_eq!(prims.len(), 1);
    assert_eq!(prims[0].name, b"body".to_vec());
    assert_eq!(prims[0].transform, (16..32).collect::<Vec<u32>>());
}

#[test]
fn unresolvable_slot_keeps_no_index() {
    let model = PropModel {
        textures: vec![TexRef { name: b"t".to_vec(), search_paths: vec![] }],
        skin_tables: vec![vec![0]],
        meshes: vec![mesh(b"body", 5, 0)],
    };
    let placement = Placement {
        model_path: b"m.mdl".to_vec(),
        transform: (0..16).collect(),
        skin: 0,
        model: Some(model),
    };
    let mut set = MaterialSet::new();
    let prims = load_props(&vec![placement], &mut set, true);
    assert_eq!(prims.len(), 1);
    assert_eq!(prims[0].material_index, None);
    assert_eq!(set.len(), 0);
}

#[test]
fn vertex_data_and_transform_carry_through() {
    let placement = Placement {
        model_path: b"m.mdl".to_vec(),
        transform: (0..16).collect(),
        skin: 0,
        model: Some(two_skin_model()),
    };
    let mut set = MaterialSet::new();
    let prims = load_props(&vec![placement], &mut set, false);
    assert_eq!(prims[0].positions, vec![(100, 101, 102)]);
    assert_eq!(prims[0].normals, vec![(103, 104, 105)]);
    assert_eq!(prims[0].uvs, vec![(106, 107)]);
    assert_eq!(prims[0].tangents, vec![(108, 109, 110, 111)]);
    assert_eq!(prims[0].material_index, None);
}

fn one_face_model(texture: &[u8]) -> ModelFaces {
    ModelFaces {
        faces: vec![LevelFace {
            texture: texture.to_vec(),
            visible: true,
            triangulated: true,
            vertices: vec![
                FaceVertex { pos: (1, 2, 3), uv: (4, 5) },
                FaceVertex { pos: (6, 7, 8), uv: (9, 10) },
                FaceVertex { pos: (11, 12, 13), uv: (14, 15) },
            ],
        }],
    }
}

#[test]
fn load_map_without_world_model_is_fatal() {
    let r = load_map(&vec![], &vec![], true, true);
    assert_eq!(r.err(), Some(Error::NoWorldModel));
}

#[test]
fn world_and_props_share_one_material_table() {
    let model = PropModel {
        textures: vec![TexRef { name: b"shared/tex".to_vec(), search_paths: vec![] }],
        skin_tables: vec![vec![0]],
        meshes: vec![mesh(b"body", 0, 0)],
    };
    let placement = Placement {
        model_path: b"m.mdl".to_vec(),
        transform: (0..16).collect(),
        skin: 0,
        model: Some(model),
    };
    let g = load_map(&vec![one_face_model(b"shared/tex")], &vec![placement], true, true)
        .expect("world model present");
    assert_eq!(g.world.len(), 1);
    assert_eq!(g.props.len(), 1);
    // Same key (name, no search paths): one shared table entry.
    assert_eq!(g.world[0].material_index, Some(0));
    assert_eq!(g.props[0].material_index, Some(0));
    assert_eq!(g.material_keys.len(), 1);
    assert_eq!(g.material_keys[0].name, b"shared/tex".to_vec());
}

#[test]
fn props_can_be_switched_off() {
    let placement = Placement {
        model_path: b"m.mdl".to_vec(),
        transform: (0..16).collect(),
        skin: 0,
        model: Some(two_skin_model()),
    };
    let g = load_map(&vec![one_face_model(b"a")], &vec![placement], false, true).unwrap();
    assert!(g.props.is_empty());
    assert_eq!(g.world.len(), 1);
}

#[test]
fn textures_off_leaves_material_list_empty() {
    let placement = Placement {
        model_path: b"m.mdl".to_vec(),
        transform: (0..16).collect(),
        skin: 0,
        model: Some(two_skin_model()),
    };
    let g = load_map(&vec![one_face_model(b"a")], &vec![placement], true, false).unwrap();
    assert!(g.material_keys.is_empty());
    assert_eq!(g.world[0].material_index, None);
    assert_eq!(g.props[0].material_index, None);
}
