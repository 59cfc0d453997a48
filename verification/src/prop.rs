//! Prop placement resolution.
//!
//! A placement references a rigid model by path; the model's three binary
//! sections are fetched and parsed outside the library (a placement whose
//! model failed to load arrives as `None` and is skipped, never fatal).
//! Here the skin table is selected — an out-of-range skin index falls back
//! to table 0 — each mesh's material slot is resolved through it to a
//! texture, the texture is registered in the shared material table, and
//! one primitive per mesh is emitted with the placement's rigid transform
//! attached. Vertex scalars and the transform are opaque 32-bit patterns:
//! the application bakes the model's root transform and the unit
//! conversion into the vertex data, and the rigid transform stays on the
//! primitive, where the renderer's normal matrix (the inverse transpose,
//! correct under non-uniform scale) applies it.

use vstd::prelude::*;
use crate::bytestr::{copy_bytes, concat_bytes, ends_with, is_suffix};
use crate::table::{MaterialKey, MaterialSet, paths_model};

verus! {

// --- section names -------------------------------------------------------

/// The bytes of `.mdl`.
pub open spec fn p_mdl_ext() -> Seq<u8> {
    seq![46u8, 109u8, 100u8, 108u8]
}

/// The bytes of `.dx90.vtx`.
pub open spec fn p_vtx_ext() -> Seq<u8> {
    seq![46u8, 100u8, 120u8, 57u8, 48u8, 46u8, 118u8, 116u8, 120u8]
}

/// The bytes of `.vvd`.
pub open spec fn p_vvd_ext() -> Seq<u8> {
    seq![46u8, 118u8, 118u8, 100u8]
}

/// A sibling section name: the fixed suffix replaced by another extension;
/// a name without the suffix stays as it is.
pub open spec fn sp_section_name(name: Seq<u8>, ext: Seq<u8>) -> Seq<u8> {
    if is_suffix(p_mdl_ext(), name) {
        name.take(name.len() - 4) + ext
    } else {
        name
    }
}

fn lit_mdl_ext() -> (r: Vec<u8>)
    ensures
        r@ == p_mdl_ext(),
{
    let r: Vec<u8> = vec![46, 109, 100, 108];
    proof {
        assert(r@ =~= p_mdl_ext());
    }
    r
}

fn lit_vtx_ext() -> (r: Vec<u8>)
    ensures
        r@ == p_vtx_ext(),
{
    let r: Vec<u8> = vec![46, 100, 120, 57, 48, 46, 118, 116, 120];
    proof {
        assert(r@ =~= p_vtx_ext());
    }
    r
}

fn lit_vvd_ext() -> (r: Vec<u8>)
    ensures
        r@ == p_vvd_ext(),
{
    let r: Vec<u8> = vec![46, 118, 118, 100];
    proof {
        assert(r@ =~= p_vvd_ext());
    }
    r
}

/// The vertex-data and index-strip section names of a model name: the
/// model suffix replaced by each section's own.
pub fn model_section_names(name: &[u8]) -> (r: (Vec<u8>, Vec<u8>))
    ensures
        r.0@ == sp_section_name(name@, p_vtx_ext()),
        r.1@ == sp_section_name(name@, p_vvd_ext()),
{
    let mdl = lit_mdl_ext();
    if !ends_with(name, mdl.as_slice()) {
        return (copy_bytes(name), copy_bytes(name));
    }
    let stem = &name[0..name.len() - 4];
    let vtx_ext = lit_vtx_ext();
    let vvd_ext = lit_vvd_ext();
    let vtx = concat_bytes(stem, vtx_ext.as_slice());
    let vvd = concat_bytes(stem, vvd_ext.as_slice());
    (vtx, vvd)
}

// --- the rigid model -----------------------------------------------------

/// A texture reference of a model: its name and the model's ordered
/// search-path prefixes.
pub struct TexRef {
    pub name: Vec<u8>,
    pub search_paths: Vec<Vec<u8>>,
}

/// Mathematical value of a texture reference: a material-table key.
pub open spec fn texref_model(t: TexRef) -> (Seq<u8>, Seq<Seq<u8>>) {
    (t.name@, paths_model(t.search_paths))
}

/// One mesh of a rigid model: bound to a material slot, with its vertex
/// data as opaque scalar patterns (positions already root-transformed and
/// unit-converted, normals unit-converted, texture coordinates and
/// tangents carried through).
pub struct PropMesh {
    pub name: Vec<u8>,
    pub material_slot: i32,
    pub positions: Vec<(u32, u32, u32)>,
    pub normals: Vec<(u32, u32, u32)>,
    pub uvs: Vec<(u32, u32)>,
    pub tangents: Vec<(u32, u32, u32, u32)>,
}

/// A rigid prop model: its texture list, its skin tables (each mapping a
/// material slot to a texture index), and its meshes. Every model has at
/// least one skin table.
pub struct PropModel {
    pub textures: Vec<TexRef>,
    pub skin_tables: Vec<Vec<u16>>,
    pub meshes: Vec<PropMesh>,
}

/// Well-formedness: at least one skin table.
pub open spec fn prop_model_wf(m: PropModel) -> bool {
    m.skin_tables@.len() >= 1
}

/// The two-level texture lookup: the slot indexes the chosen skin table,
/// whose entry indexes the texture list; any out-of-range step is `None`.
pub open spec fn sp_skin_texture(model: PropModel, table: int, slot: int) -> Option<
    (Seq<u8>, Seq<Seq<u8>>),
> {
    if 0 <= table < model.skin_tables@.len() && 0 <= slot < model.skin_tables@[table]@.len() {
        let ti = model.skin_tables@[table]@[slot] as int;
        if ti < model.textures@.len() {
            Some(texref_model(model.textures@[ti]))
        } else {
            None
        }
    } else {
        None
    }
}

/// Look a mesh's material slot up through a skin table.
pub fn skin_texture(model: &PropModel, table: usize, slot: i32) -> (r: Option<TexRef>)
    ensures
        match r {
            Option::None => sp_skin_texture(*model, table as int, slot as int) is None,
            Option::Some(t) => sp_skin_texture(*model, table as int, slot as int) == Some(
                texref_model(t),
            ),
        },
{
    if table >= model.skin_tables.len() {
        return None;
    }
    if slot < 0 {
        return None;
    }
    let s = slot as usize;
    if s >= model.skin_tables[table].len() {
        return None;
    }
    let ti = model.skin_tables[table][s] as usize;
    if ti >= model.textures.len() {
        return None;
    }
    let t = &model.textures[ti];
    let mut sp: Vec<Vec<u8>> = Vec::new();
    let mut i: usize = 0;
    while i < t.search_paths.len()
        invariant
            i <= t.search_paths@.len(),
            paths_model(sp) == paths_model(t.search_paths).take(i as int),
        decreases t.search_paths.len() - i,
    {
        let ghost old_sp = paths_model(sp);
        let item = copy_bytes(t.search_paths[i].as_slice());
        let ghost item_m = item@;
        sp.push(item);
        proof {
            assert(paths_model(sp) =~= old_sp.push(item_m));
            assert(paths_model(t.search_paths).take(i + 1) =~= paths_model(
                t.search_paths,
            ).take(i as int).push(paths_model(t.search_paths)[i as int]));
            assert(paths_model(sp) =~= paths_model(t.search_paths).take(i + 1));
        }
        i = i + 1;
    }
    proof {
        assert(paths_model(t.search_paths).take(t.search_paths@.len() as int) =~= paths_model(
            t.search_paths,
        ));
    }
    Some(TexRef { name: copy_bytes(t.name.as_slice()), search_paths: sp })
}

/// The skin table a placement selects: its own index when in range, else
/// table 0.
pub open spec fn sp_select_skin(model: PropModel, skin: int) -> int {
    if 0 <= skin < model.skin_tables@.len() {
        skin
    } else {
        0
    }
}

/// Select a placement's skin table, falling back to table 0 when the
/// requested index is out of range (a recoverable condition, logged by the
/// caller, never a failed placement).
pub fn select_skin(model: &PropModel, skin: i32) -> (r: usize)
    requires
        prop_model_wf(*model),
    ensures
        r == sp_select_skin(*model, skin as int),
        r < model.skin_tables@.len(),
{
    if skin >= 0 && (skin as usize) < model.skin_tables.len() {
        skin as usize
    } else {
        0
    }
}

// --- placements ----------------------------------------------------------

/// One instanced model placement. The rigid transform — translation of the
/// converted origin, rotation, then scale — is built by the application
/// and carried as sixteen opaque scalar patterns. A placement whose model
/// failed to load or parse arrives with `model` absent and is skipped.
pub struct Placement {
    pub model_path: Vec<u8>,
    pub transform: Vec<u32>,
    pub skin: i32,
    pub model: Option<PropModel>,
}

/// One emitted prop primitive: a mesh's vertex data, the placement's
/// transform, and the mesh texture's index into the shared material table.
pub struct PropPrimitive {
    pub name: Vec<u8>,
    pub transform: Vec<u32>,
    pub positions: Vec<(u32, u32, u32)>,
    pub normals: Vec<(u32, u32, u32)>,
    pub uvs: Vec<(u32, u32)>,
    pub tangents: Vec<(u32, u32, u32, u32)>,
    pub material_index: Option<usize>,
}

/// Every placement well-formed: a loaded model has at least one skin table.
pub open spec fn placements_wf(ps: Seq<Placement>) -> bool {
    forall|i: int|
        0 <= i < ps.len() ==> (#[trigger] ps[i].model matches Some(m) ==> prop_model_wf(m))
}

/// The emission plan of a placement list: one entry per mesh of each
/// loaded placement, in order — the placement and the mesh index.
pub open spec fn sp_prop_segments(ps: Seq<Placement>) -> Seq<(Placement, int)>
    decreases ps.len(),
{
    if ps.len() == 0 {
        Seq::<(Placement, int)>::empty()
    } else {
        (match ps[0].model {
            Option::None => Seq::<(Placement, int)>::empty(),
            Option::Some(m) => Seq::new(m.meshes@.len(), |j: int| (ps[0], j)),
        }) + sp_prop_segments(ps.skip(1))
    }
}

proof fn lemma_segments_snoc(ps: Seq<Placement>, i: int)
    requires
        0 <= i < ps.len(),
    ensures
        sp_prop_segments(ps.take(i + 1)) =~= sp_prop_segments(ps.take(i)) + (match ps[i].model {
            Option::None => Seq::<(Placement, int)>::empty(),
            Option::Some(m) => Seq::new(m.meshes@.len(), |j: int| (ps[i], j)),
        }),
    decreases i,
{
    if i == 0 {
        assert(ps.take(1)[0] == ps[0]);
        assert(ps.take(1).skip(1) =~= ps.take(0));
        assert(sp_prop_segments(ps.take(0)) =~= Seq::<(Placement, int)>::empty());
    } else {
        lemma_segments_snoc(ps.skip(1), i - 1);
        assert(ps.take(i + 1)[0] == ps[0]);
        assert(ps.take(i + 1).skip(1) =~= ps.skip(1).take(i));
        assert(ps.take(i)[0] == ps[0]);
        assert(ps.take(i).skip(1) =~= ps.skip(1).take(i - 1));
        assert(ps.skip(1)[i - 1] == ps[i]);
    }
}

/// Does this emitted primitive belong to this plan entry, up to the
/// material index?
pub open spec fn prim_matches(p: PropPrimitive, seg: (Placement, int)) -> bool {
    match seg.0.model {
        Option::None => false,
        Option::Some(m) => {
            let j = seg.1;
            0 <= j < m.meshes@.len() && p.name@ == m.meshes@[j].name@ && p.transform@
                == seg.0.transform@ && p.positions@ == m.meshes@[j].positions@ && p.normals@
                == m.meshes@[j].normals@ && p.uvs@ == m.meshes@[j].uvs@ && p.tangents@
                == m.meshes@[j].tangents@
        },
    }
}

/// The material-table key of a plan entry, through its selected skin.
pub open spec fn seg_key(seg: (Placement, int)) -> Option<(Seq<u8>, Seq<Seq<u8>>)> {
    match seg.0.model {
        Option::None => None,
        Option::Some(m) => sp_skin_texture(
            m,
            sp_select_skin(m, seg.0.skin as int),
            m.meshes@[seg.1].material_slot as int,
        ),
    }
}

/// Table entry `j` was registered by placement resolution: some emitted
/// primitive carries exactly that index, and the entry is the key its
/// plan entry resolves to through the selected skin.
pub open spec fn prop_entry_referenced(
    prims: Seq<PropPrimitive>,
    segs: Seq<(Placement, int)>,
    m: Seq<(Seq<u8>, Seq<Seq<u8>>)>,
    j: int,
) -> bool {
    exists|k: int|
        0 <= k < segs.len() && k < prims.len() && (#[trigger] prims[k]).material_index == Some(
            j as usize,
        ) && seg_key(segs[k]) == Some(m[j])
}

/// Entry `j` was registered while emitting the placement `pl`, whose
/// primitives start at `pre_len`.
spec fn entry_from_current(
    prims: Seq<PropPrimitive>,
    pre_len: int,
    pl: Placement,
    m: Seq<(Seq<u8>, Seq<Seq<u8>>)>,
    j: int,
) -> bool {
    exists|k: int|
        pre_len <= k < prims.len() && (#[trigger] prims[k]).material_index == Some(j as usize)
            && seg_key((pl, k - pre_len)) == Some(m[j])
}

/// Emit one primitive per mesh of each loaded placement, in order; a
/// placement without a model is skipped. With `textures_on`, each mesh's
/// texture (resolved through the placement's skin table, out-of-range skin
/// indices falling back to table 0) is registered in the shared material
/// table and its index attached; a mesh whose slot resolves to no texture
/// keeps no index.
pub fn load_props(placements: &Vec<Placement>, set: &mut MaterialSet, textures_on: bool) -> (r:
    Vec<PropPrimitive>)
    requires
        old(set).inv(),
        placements_wf(placements@),
    ensures
        final(set).inv(),
        old(set).model().len() <= final(set).model().len(),
        forall|j: int|
            0 <= j < old(set).model().len() ==> final(set).model()[j] == old(set).model()[j],
        r@.len() == sp_prop_segments(placements@).len(),
        forall|k: int|
            0 <= k < r@.len() ==> prim_matches(#[trigger] r@[k], sp_prop_segments(placements@)[k]),
        forall|k: int|
            0 <= k < r@.len() ==> ((!textures_on || seg_key(sp_prop_segments(placements@)[k])
                is None) ==> (#[trigger] r@[k]).material_index is None),
        forall|k: int|
            0 <= k < r@.len() ==> (textures_on ==> (seg_key(sp_prop_segments(placements@)[k])
                matches Some(keym) ==> ((#[trigger] r@[k]).material_index matches Some(mi) && mi
                < final(set).model().len() && final(set).model()[mi as int] == keym))),
        !textures_on ==> final(set).model() == old(set).model(),
        textures_on ==> forall|j: int|
            old(set).model().len() <= j < final(set).model().len()
                ==> #[trigger] prop_entry_referenced(
                r@,
                sp_prop_segments(placements@),
                final(set).model(),
                j,
            ),
{
    let ghost pm = placements@;
    let mut r: Vec<PropPrimitive> = Vec::new();
    let mut i: usize = 0;
    proof {
        assert(pm.take(0) =~= Seq::<Placement>::empty());
        assert(sp_prop_segments(pm.take(0)) =~= Seq::<(Placement, int)>::empty());
    }
    while i < placements.len()
        invariant
            i <= pm.len(),
            pm == placements@,
            placements_wf(pm),
            set.inv(),
            old(set).model().len() <= set.model().len(),
            forall|j: int|
                0 <= j < old(set).model().len() ==> set.model()[j] == old(set).model()[j],
            r@.len() == sp_prop_segments(pm.take(i as int)).len(),
            forall|k: int|
                0 <= k < r@.len() ==> prim_matches(
                    #[trigger] r@[k],
                    sp_prop_segments(pm.take(i as int))[k],
                ),
            forall|k: int|
                0 <= k < r@.len() ==> ((!textures_on || seg_key(
                    sp_prop_segments(pm.take(i as int))[k],
                ) is None) ==> (#[trigger] r@[k]).material_index is None),
            forall|k: int|
                0 <= k < r@.len() ==> (textures_on ==> (seg_key(
                    sp_prop_segments(pm.take(i as int))[k],
                ) matches Some(keym) ==> ((#[trigger] r@[k]).material_index matches Some(mi)
                    && mi < set.model().len() && set.model()[mi as int] == keym))),
            !textures_on ==> set.model() == old(set).model(),
            textures_on ==> forall|j: int|
                old(set).model().len() <= j < set.model().len()
                    ==> #[trigger] prop_entry_referenced(
                    r@,
                    sp_prop_segments(pm.take(i as int)),
                    set.model(),
                    j,
                ),
        decreases placements.len() - i,
    {
        let ghost pre_segs = sp_prop_segments(pm.take(i as int));
        proof {
            lemma_segments_snoc(pm, i as int);
        }
        match &placements[i].model {
            Option::None => {},
            Option::Some(model) => {
                proof {
                    assert(pm[i as int].model matches Some(m) ==> prop_model_wf(m));
                }
                let table = select_skin(model, placements[i].skin);
                let ghost seg_count = model.meshes@.len();
                let mut j: usize = 0;
                while j < model.meshes.len()
                    invariant
                        j <= model.meshes@.len(),
                        pm == placements@,
                        i < pm.len(),
                        pm[i as int].model == Some(*model),
                        table as int == sp_select_skin(*model, pm[i as int].skin as int),
                        table < model.skin_tables@.len(),
                        set.inv(),
                        old(set).model().len() <= set.model().len(),
                        forall|q: int|
                            0 <= q < old(set).model().len() ==> set.model()[q] == old(
                                set,
                            ).model()[q],
                        r@.len() == pre_segs.len() + j,
                        forall|k: int|
                            0 <= k < pre_segs.len() ==> prim_matches(
                                #[trigger] r@[k],
                                pre_segs[k],
                            ),
                        forall|k: int|
                            0 <= k < pre_segs.len() ==> ((!textures_on || seg_key(pre_segs[k])
                                is None) ==> (#[trigger] r@[k]).material_index is None),
                        forall|k: int|
                            0 <= k < pre_segs.len() ==> (textures_on ==> (seg_key(pre_segs[k])
                                matches Some(keym) ==> ((#[trigger] r@[k]).material_index
                                matches Some(mi) && mi < set.model().len() && set.model()[
                                mi as int
                            ] == keym))),
                        forall|k: int|
                            pre_segs.len() <= k < r@.len() ==> prim_matches(
                                #[trigger] r@[k],
                                (pm[i as int], k - pre_segs.len()),
                            ),
                        forall|k: int|
                            pre_segs.len() <= k < r@.len() ==> ((!textures_on || seg_key(
                                (pm[i as int], k - pre_segs.len()),
                            ) is None) ==> (#[trigger] r@[k]).material_index is None),
                        forall|k: int|
                            pre_segs.len() <= k < r@.len() ==> (textures_on ==> (seg_key(
                                (pm[i as int], k - pre_segs.len()),
                            ) matches Some(keym) ==> ((#[trigger] r@[k]).material_index
                                matches Some(mi) && mi < set.model().len() && set.model()[
                                mi as int
                            ] == keym))),
                        !textures_on ==> set.model() == old(set).model(),
                        textures_on ==> forall|q2: int|
                            old(set).model().len() <= q2 < set.model().len() ==> (
                            #[trigger] prop_entry_referenced(r@, pre_segs, set.model(), q2)
                                || entry_from_current(
                                r@,
                                pre_segs.len() as int,
                                pm[i as int],
                                set.model(),
                                q2,
                            )),
                    decreases model.meshes.len() - j,
                {
                    let ghost entry_model = set.model();
                    let ghost entry_r = r@;
                    let mesh = &model.meshes[j];
                    let material_index: Option<usize> = if textures_on {
                        match skin_texture(model, table, mesh.material_slot) {
                            Option::None => None,
                            Option::Some(t) => {
                                let key = MaterialKey {
                                    name: t.name,
                                    search_paths: t.search_paths,
                                };
                                Some(set.get_index(key))
                            },
                        }
                    } else {
                        None
                    };
                    let prim = PropPrimitive {
                        name: copy_bytes(mesh.name.as_slice()),
                        transform: copy_bytes_u32(&placements[i].transform),
                        positions: copy_triples(&mesh.positions),
                        normals: copy_triples(&mesh.normals),
                        uvs: copy_pairs_u32(&mesh.uvs),
                        tangents: copy_quads(&mesh.tangents),
                        material_index,
                    };
                    r.push(prim);
                    proof {
                        if textures_on {
                            let pre_len = pre_segs.len() as int;
                            // Earlier entries keep their witnesses; an entry
                            // this call appended is referenced by the
                            // primitive just pushed.
                            assert forall|q2: int|
                                old(set).model().len() <= q2 < set.model().len() implies (
                                #[trigger] prop_entry_referenced(r@, pre_segs, set.model(), q2)
                                    || entry_from_current(
                                    r@,
                                    pre_len,
                                    pm[i as int],
                                    set.model(),
                                    q2,
                                )) by {
                                if q2 < entry_model.len() {
                                    assert(prop_entry_referenced(
                                        entry_r,
                                        pre_segs,
                                        entry_model,
                                        q2,
                                    ) || entry_from_current(
                                        entry_r,
                                        pre_len,
                                        pm[i as int],
                                        entry_model,
                                        q2,
                                    ));
                                    if prop_entry_referenced(entry_r, pre_segs, entry_model, q2) {
                                        let k0 = choose|k: int|
                                            0 <= k < pre_segs.len() && k < entry_r.len() && (
                                            #[trigger] entry_r[k]).material_index == Some(
                                                q2 as usize,
                                            ) && seg_key(pre_segs[k]) == Some(entry_model[q2]);
                                        assert(r@[k0] == entry_r[k0]);
                                        assert(set.model()[q2] == entry_model[q2]);
                                        assert(0 <= k0 < pre_segs.len() && k0 < r@.len()
                                            && r@[k0].material_index == Some(q2 as usize)
                                            && seg_key(pre_segs[k0]) == Some(set.model()[q2]));
                                        assert(prop_entry_referenced(
                                            r@,
                                            pre_segs,
                                            set.model(),
                                            q2,
                                        ));
                                    } else {
                                        let k0 = choose|k: int|
                                            pre_len <= k < entry_r.len() && (
                                            #[trigger] entry_r[k]).material_index == Some(
                                                q2 as usize,
                                            ) && seg_key((pm[i as int], k - pre_len)) == Some(
                                                entry_model[q2],
                                            );
                                        assert(r@[k0] == entry_r[k0]);
                                        assert(set.model()[q2] == entry_model[q2]);
                                        assert(pre_len <= k0 < r@.len() && r@[k0].material_index
                                            == Some(q2 as usize) && seg_key(
                                            (pm[i as int], k0 - pre_len),
                                        ) == Some(set.model()[q2]));
                                        assert(entry_from_current(
                                            r@,
                                            pre_len,
                                            pm[i as int],
                                            set.model(),
                                            q2,
                                        ));
                                    }
                                } else {
                                    let kw = r@.len() - 1;
                                    assert(r@[kw].material_index == Some(q2 as usize));
                                    assert(seg_key((pm[i as int], kw - pre_len)) == Some(
                                        set.model()[q2],
                                    ));
                                    assert(entry_from_current(
                                        r@,
                                        pre_len,
                                        pm[i as int],
                                        set.model(),
                                        q2,
                                    ));
                                }
                            };
                        }
                    }
                    j = j + 1;
                }
                proof {
                    assert(sp_prop_segments(pm.take(i + 1)) =~= pre_segs + Seq::new(
                        model.meshes@.len(),
                        |q: int| (pm[i as int], q),
                    ));
                    if textures_on {
                        let pre_len = pre_segs.len() as int;
                        assert forall|q2: int|
                            old(set).model().len() <= q2 < set.model().len()
                                implies #[trigger] prop_entry_referenced(
                                r@,
                                sp_prop_segments(pm.take(i + 1)),
                                set.model(),
                                q2,
                            ) by {
                            assert(prop_entry_referenced(r@, pre_segs, set.model(), q2)
                                || entry_from_current(
                                r@,
                                pre_len,
                                pm[i as int],
                                set.model(),
                                q2,
                            ));
                            if prop_entry_referenced(r@, pre_segs, set.model(), q2) {
                                let k0 = choose|k: int|
                                    0 <= k < pre_segs.len() && k < r@.len() && (
                                    #[trigger] r@[k]).material_index == Some(q2 as usize)
                                        && seg_key(pre_segs[k]) == Some(set.model()[q2]);
                                assert(sp_prop_segments(pm.take(i + 1))[k0] == pre_segs[k0]);
                                assert(0 <= k0 < sp_prop_segments(pm.take(i + 1)).len() && k0
                                    < r@.len() && r@[k0].material_index == Some(q2 as usize)
                                    && seg_key(sp_prop_segments(pm.take(i + 1))[k0]) == Some(
                                    set.model()[q2],
                                ));
                            } else {
                                let k0 = choose|k: int|
                                    pre_len <= k < r@.len() && (#[trigger] r@[k]).material_index
                                        == Some(q2 as usize) && seg_key(
                                        (pm[i as int], k - pre_len),
                                    ) == Some(set.model()[q2]);
                                assert(sp_prop_segments(pm.take(i + 1))[k0] == (
                                    pm[i as int],
                                    k0 - pre_len,
                                ));
                                assert(0 <= k0 < sp_prop_segments(pm.take(i + 1)).len() && k0
                                    < r@.len() && r@[k0].material_index == Some(q2 as usize)
                                    && seg_key(sp_prop_segments(pm.take(i + 1))[k0]) == Some(
                                    set.model()[q2],
                                ));
                            }
                        };
                    }
                }
            },
        }
        proof {
            if pm[i as int].model is None {
                assert(sp_prop_segments(pm.take(i + 1)) =~= pre_segs);
                if textures_on {
                    assert forall|q2: int|
                        old(set).model().len() <= q2 < set.model().len()
                            implies #[trigger] prop_entry_referenced(
                            r@,
                            sp_prop_segments(pm.take(i + 1)),
                            set.model(),
                            q2,
                        ) by {
                        assert(prop_entry_referenced(
                            r@,
                            sp_prop_segments(pm.take(i as int)),
                            set.model(),
                            q2,
                        ));
                    };
                }
            }
        }
        i = i + 1;
    }
    proof {
        assert(pm.take(pm.len() as int) =~= pm);
    }
    r
}

/// Copy a scalar list.
fn copy_bytes_u32(v: &Vec<u32>) -> (r: Vec<u32>)
    ensures
        r@ == v@,
{
    let mut r: Vec<u32> = Vec::new();
    let mut i: usize = 0;
    while i < v.len()
        invariant
            i <= v@.len(),
            r@ == v@.take(i as int),
        decreases v.len() - i,
    {
        r.push(v[i]);
        i = i + 1;
    }
    proof {
        assert(v@.take(v@.len() as int) =~= v@);
    }
    r
}

/// Copy a triple list.
fn copy_triples(v: &Vec<(u32, u32, u32)>) -> (r: Vec<(u32, u32, u32)>)
    ensures
        r@ == v@,
{
    let mut r: Vec<(u32, u32, u32)> = Vec::new();
    let mut i: usize = 0;
    while i < v.len()
        invariant
            i <= v@.len(),
            r@ == v@.take(i as int),
        decreases v.len() - i,
    {
        r.push(v[i]);
        i = i + 1;
    }
    proof {
        assert(v@.take(v@.len() as int) =~= v@);
    }
    r
}

/// Copy a pair list.
fn copy_pairs_u32(v: &Vec<(u32, u32)>) -> (r: Vec<(u32, u32)>)
    ensures
        r@ == v@,
{
    let mut r: Vec<(u32, u32)> = Vec::new();
    let mut i: usize = 0;
    while i < v.len()
        invariant
            i <= v@.len(),
            r@ == v@.take(i as int),
        decreases v.len() - i,
    {
        r.push(v[i]);
        i = i + 1;
    }
    proof {
        assert(v@.take(v@.len() as int) =~= v@);
    }
    r
}

/// Copy a quadruple list.
fn copy_quads(v: &Vec<(u32, u32, u32, u32)>) -> (r: Vec<(u32, u32, u32, u32)>)
    ensures
        r@ == v@,
{
    let mut r: Vec<(u32, u32, u32, u32)> = Vec::new();
    let mut i: usize = 0;
    while i < v.len()
        invariant
            i <= v@.len(),
            r@ == v@.take(i as int),
        decreases v.len() - i,
    {
        r.push(v[i]);
        i = i + 1;
    }
    proof {
        assert(v@.take(v@.len() as int) =~= v@);
    }
    r
}

} // verus!
