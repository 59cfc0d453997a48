//! The pipeline driver: batched world geometry and prop geometry, sharing
//! one material table.
//!
//! The driver sequences the world extractor and the prop resolver over one
//! shared, insertion-ordered material table, then drains the table into
//! the ordered key list. Every primitive's material index is valid into
//! that one list. A level without a primary model is the fatal error; a
//! missing prop or material never is.

use vstd::prelude::*;
use crate::prop::{Placement, PropPrimitive, load_props, placements_wf, sp_prop_segments,
    prim_matches, prop_entry_referenced, seg_key};
use crate::table::{MaterialKey, MaterialSet, key_model};
use crate::world::{FaceModel, LevelFace, WorldPrimitive, entry_from_world, extract_world,
    face_model, faces_model, sp_texture_order, sp_group_tris};

verus! {

/// A fatal load error: the pipeline aborts only here; every other failure
/// is absorbed as a skipped placement or a fallback material.
#[derive(Clone, Copy, Debug, PartialEq, Eq, Structural)]
pub enum Error {
    /// The level holds no primary model.
    NoWorldModel,
}

/// The faces of one level model: the primary model, or an attached movable
/// brush sub-model whose offset the application has already applied.
pub struct ModelFaces {
    pub faces: Vec<LevelFace>,
}

/// The flattened face list of the level models, in model order, as face
/// values.
pub open spec fn sp_flat_faces(models: Seq<ModelFaces>) -> Seq<FaceModel>
    decreases models.len(),
{
    if models.len() == 0 {
        Seq::<FaceModel>::empty()
    } else {
        faces_model(models[0].faces@) + sp_flat_faces(models.skip(1))
    }
}

/// Flatten the models' faces; mirrors `sp_flat_faces`.
fn flatten_faces(models: &Vec<ModelFaces>) -> (r: Vec<LevelFace>)
    ensures
        faces_model(r@) == sp_flat_faces(models@),
{
    let mut r: Vec<LevelFace> = Vec::new();
    let mut i: usize = 0;
    proof {
        assert(models@.skip(0) =~= models@);
        assert(faces_model(r@) =~= Seq::<FaceModel>::empty());
    }
    while i < models.len()
        invariant
            i <= models@.len(),
            sp_flat_faces(models@) == faces_model(r@) + sp_flat_faces(models@.skip(i as int)),
        decreases models.len() - i,
    {
        let ghost old_r = faces_model(r@);
        let mut j: usize = 0;
        while j < models[i].faces.len()
            invariant
                i < models@.len(),
                j <= models@[i as int].faces@.len(),
                faces_model(r@) == old_r + faces_model(models@[i as int].faces@).take(j as int),
            decreases models@[i as int].faces@.len() - j,
        {
            let ghost pre_r = faces_model(r@);
            let f = &models[i].faces[j];
            let copied = LevelFace {
                texture: crate::bytestr::copy_bytes(f.texture.as_slice()),
                visible: f.visible,
                triangulated: f.triangulated,
                vertices: copy_vertices(&f.vertices),
            };
            let ghost copied_m = face_model(copied);
            r.push(copied);
            proof {
                assert(faces_model(r@) =~= pre_r.push(copied_m));
                assert(copied_m == face_model(models@[i as int].faces@[j as int]));
                assert(old_r + faces_model(models@[i as int].faces@).take(j + 1) =~= (old_r
                    + faces_model(models@[i as int].faces@).take(j as int)).push(
                    face_model(models@[i as int].faces@[j as int]),
                ));
            }
            j = j + 1;
        }
        proof {
            assert(faces_model(models@[i as int].faces@).take(faces_model(
                models@[i as int].faces@,
            ).len() as int) =~= faces_model(models@[i as int].faces@));
            assert(models@.skip(i as int)[0] == models@[i as int]);
            assert(models@.skip(i as int).skip(1) =~= models@.skip(i + 1));
        }
        i = i + 1;
    }
    proof {
        assert(sp_flat_faces(models@.skip(models@.len() as int)) =~= Seq::<FaceModel>::empty());
        assert(faces_model(r@) =~= faces_model(r@) + Seq::<FaceModel>::empty());
    }
    r
}

/// Copy a vertex list.
fn copy_vertices(v: &Vec<crate::world::FaceVertex>) -> (r: Vec<crate::world::FaceVertex>)
    ensures
        r@ == v@,
{
    let mut r: Vec<crate::world::FaceVertex> = Vec::new();
    let mut i: usize = 0;
    while i < v.len()
        invariant
            i <= v@.len(),
            r@ == v@.take(i as int),
        decreases v.len() - i,
    {
        r.push(v[i]);
        i = i + 1;
    }
    proof {
        assert(v@.take(v@.len() as int) =~= v@);
    }
    r
}

/// The two primitive products and the shared material key list they index.
pub struct MapGeometry {
    /// Merged world primitives, one per texture group.
    pub world: Vec<WorldPrimitive>,
    /// Prop primitives, one per mesh of each loaded placement.
    pub props: Vec<PropPrimitive>,
    /// The drained material table: material indices point into this list.
    pub material_keys: Vec<MaterialKey>,
}

/// Run the pipeline: extract the world geometry of the level models, then
/// resolve the prop placements, both against one shared material table,
/// and drain the table.
///
/// Fails exactly when no level model was given (the level has no primary
/// model). `props_on` switches placement resolution off; `textures_on`
/// switches material registration off (all material indices absent).
pub fn load_map(
    models: &Vec<ModelFaces>,
    placements: &Vec<Placement>,
    props_on: bool,
    textures_on: bool,
) -> (r: Result<MapGeometry, Error>)
    requires
        placements_wf(placements@),
    ensures
        (r is Ok) <==> models@.len() > 0,
        (r is Err) ==> r == Err::<MapGeometry, Error>(Error::NoWorldModel),
        r matches Ok(g) ==> ({
            let fm = sp_flat_faces(models@);
            let keys = g.material_keys@.map_values(|k: MaterialKey| key_model(k));
            &&& forall|i: int, j: int| 0 <= i < j < keys.len() ==> keys[i] != keys[j]
            &&& g.world@.len() == sp_texture_order(fm).len()
            &&& forall|i: int|
                0 <= i < g.world@.len() ==> (#[trigger] g.world@[i]).texture@ == sp_texture_order(
                    fm,
                )[i]
            &&& forall|i: int|
                0 <= i < g.world@.len() ==> (#[trigger] g.world@[i]).vertices@ == sp_group_tris(
                    fm,
                    sp_texture_order(fm)[i],
                )
            &&& forall|i: int|
                0 <= i < g.world@.len() ==> (!textures_on ==> (#[trigger] g.world@[i]).material_index
                    is None)
            &&& forall|i: int|
                0 <= i < g.world@.len() ==> (textures_on ==> ((#[trigger] g.world@[i]).material_index
                    matches Some(mi) && mi < keys.len() && keys[mi as int] == (
                sp_texture_order(fm)[i],
                Seq::<Seq<u8>>::empty(),
                )))
            &&& !props_on ==> g.props@.len() == 0
            &&& props_on ==> g.props@.len() == sp_prop_segments(placements@).len()
            &&& props_on ==> forall|k: int|
                0 <= k < g.props@.len() ==> prim_matches(
                    #[trigger] g.props@[k],
                    sp_prop_segments(placements@)[k],
                )
            &&& props_on ==> forall|k: int|
                0 <= k < g.props@.len() ==> ((!textures_on || seg_key(
                    sp_prop_segments(placements@)[k],
                ) is None) ==> (#[trigger] g.props@[k]).material_index is None)
            &&& props_on ==> forall|k: int|
                0 <= k < g.props@.len() ==> (textures_on ==> (seg_key(
                    sp_prop_segments(placements@)[k],
                ) matches Some(keym) ==> ((#[trigger] g.props@[k]).material_index matches Some(mi)
                    && mi < keys.len() && keys[mi as int] == keym)))
            &&& !textures_on ==> keys.len() == 0
            &&& textures_on ==> forall|j: int|
                0 <= j < keys.len() ==> (#[trigger] entry_from_world(
                    g.world@,
                    keys,
                    sp_texture_order(fm),
                    j,
                ) || prop_entry_referenced(g.props@, sp_prop_segments(placements@), keys, j))
        }),
{
    if models.len() == 0 {
        return Err(Error::NoWorldModel);
    }
    let ghost fm_g = sp_flat_faces(models@);
    let faces = flatten_faces(models);
    let mut set = MaterialSet::new();
    let world = extract_world(&faces, &mut set, textures_on);
    let ghost mid_model = set.model();
    let props: Vec<PropPrimitive> = if props_on {
        load_props(placements, &mut set, textures_on)
    } else {
        Vec::new()
    };
    let ghost fin_model = set.model();
    let material_keys = set.into_materials();
    proof {
        let keysm = material_keys@.map_values(|k: MaterialKey| key_model(k));
        assert(keysm == fin_model);
        if textures_on {
            // Every drained key was registered by one of the two passes
            // and is referenced by an emitted primitive.
            assert forall|j: int|
                0 <= j < keysm.len() implies (#[trigger] entry_from_world(
                    world@,
                    keysm,
                    sp_texture_order(fm_g),
                    j,
                ) || prop_entry_referenced(props@, sp_prop_segments(placements@), keysm, j)) by {
                if j < mid_model.len() {
                    assert(entry_from_world(world@, mid_model, sp_texture_order(fm_g), j));
                    let k0 = choose|k: int|
                        0 <= k < world@.len() && (#[trigger] world@[k]).material_index == Some(
                            j as usize,
                        ) && mid_model[j] == (sp_texture_order(fm_g)[k], Seq::<Seq<u8>>::empty());
                    assert(fin_model[j] == mid_model[j]);
                    assert(0 <= k0 < world@.len() && world@[k0].material_index == Some(j as usize)
                        && keysm[j] == (sp_texture_order(fm_g)[k0], Seq::<Seq<u8>>::empty()));
                    assert(entry_from_world(world@, keysm, sp_texture_order(fm_g), j));
                } else {
                    assert(prop_entry_referenced(
                        props@,
                        sp_prop_segments(placements@),
                        fin_model,
                        j,
                    ));
                    let k0 = choose|k: int|
                        0 <= k < sp_prop_segments(placements@).len() && k < props@.len() && (
                        #[trigger] props@[k]).material_index == Some(j as usize) && seg_key(
                            sp_prop_segments(placements@)[k],
                        ) == Some(fin_model[j]);
                    assert(0 <= k0 < sp_prop_segments(placements@).len() && k0 < props@.len()
                        && props@[k0].material_index == Some(j as usize) && seg_key(
                        sp_prop_segments(placements@)[k0],
                    ) == Some(keysm[j]));
                    assert(prop_entry_referenced(
                        props@,
                        sp_prop_segments(placements@),
                        keysm,
                        j,
                    ));
                }
            };
        }
    }
    Ok(MapGeometry { world, props, material_keys })
}

} // verus!
