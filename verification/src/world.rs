//! Visible level geometry, grouped by texture and merged.
//!
//! Faces arrive as plain records: a texture name, a visibility flag, and
//! vertices whose scalars are opaque 32-bit patterns (the application owns
//! every float operation: offsets, unit conversion and texture-coordinate
//! projection are applied before a face enters, normals and tangents are
//! computed after the merged buffers leave). The extractor discards the
//! faces marked invisible, fan-triangulates plain polygons, keeps the
//! pre-triangulated vertices of displaced faces, groups everything by
//! texture name in order of first appearance, and merges each group into
//! one non-indexed triangle list.

use vstd::prelude::*;
use crate::bytestr::{bytes_eq, copy_bytes};
use crate::table::{MaterialKey, MaterialSet, paths_model};

verus! {

/// One vertex crossing the extractor: position and texture coordinates as
/// opaque scalar patterns.
#[derive(Clone, Copy)]
pub struct FaceVertex {
    pub pos: (u32, u32, u32),
    pub uv: (u32, u32),
}

/// One level face.
pub struct LevelFace {
    /// Texture name (the grouping key).
    pub texture: Vec<u8>,
    /// Faces marked invisible (sky, triggers, tool textures) are dropped.
    pub visible: bool,
    /// Displaced faces come pre-triangulated; plain faces as polygons.
    pub triangulated: bool,
    /// Polygon vertices in winding order, or pre-triangulated vertices.
    pub vertices: Vec<FaceVertex>,
}

/// Mathematical value of a face.
pub struct FaceModel {
    pub texture: Seq<u8>,
    pub visible: bool,
    pub triangulated: bool,
    pub vertices: Seq<FaceVertex>,
}

pub open spec fn face_model(f: LevelFace) -> FaceModel {
    FaceModel {
        texture: f.texture@,
        visible: f.visible,
        triangulated: f.triangulated,
        vertices: f.vertices@,
    }
}

pub open spec fn faces_model(v: Seq<LevelFace>) -> Seq<FaceModel> {
    v.map_values(|f: LevelFace| face_model(f))
}

// --- fan triangulation ---------------------------------------------------

/// Triangles of a fan from vertex `k` on: the k-th triangle is
/// `(v[k+2], v[k+1], v[0])`, the winding the level format implies.
pub open spec fn sp_fan_from(vs: Seq<FaceVertex>, k: int) -> Seq<FaceVertex>
    decreases vs.len() - k,
{
    if k < 0 || k + 2 >= vs.len() {
        Seq::<FaceVertex>::empty()
    } else {
        seq![vs[k + 2], vs[k + 1], vs[0]] + sp_fan_from(vs, k + 1)
    }
}

/// Fan triangulation of a polygon's vertices.
pub open spec fn sp_fan(vs: Seq<FaceVertex>) -> Seq<FaceVertex> {
    sp_fan_from(vs, 0)
}

proof fn lemma_fan_from_len(vs: Seq<FaceVertex>, k: int)
    requires
        0 <= k,
    ensures
        k + 2 < vs.len() ==> sp_fan_from(vs, k).len() == 3 * (vs.len() - 2 - k),
        k + 2 >= vs.len() ==> sp_fan_from(vs, k).len() == 0,
    decreases vs.len() - k,
{
    if k + 2 < vs.len() {
        lemma_fan_from_len(vs, k + 1);
    }
}

/// A fan of `n` polygon vertices holds `n - 2` triangles.
pub proof fn lemma_fan_len(vs: Seq<FaceVertex>)
    ensures
        vs.len() >= 3 ==> sp_fan(vs).len() == 3 * (vs.len() - 2),
        vs.len() < 3 ==> sp_fan(vs).len() == 0,
{
    lemma_fan_from_len(vs, 0);
}

/// Fan-triangulate a polygon.
pub fn fan_triangulate(vs: &Vec<FaceVertex>) -> (r: Vec<FaceVertex>)
    ensures
        r@ == sp_fan(vs@),
{
    let mut r: Vec<FaceVertex> = Vec::new();
    if vs.len() < 3 {
        return r;
    }
    let mut k: usize = 0;
    while k < vs.len() - 2
        invariant
            k <= vs@.len(),
            vs@.len() >= 3,
            sp_fan(vs@) == r@ + sp_fan_from(vs@, k as int),
        decreases vs.len() - k,
    {
        let ghost old_r = r@;
        r.push(vs[k + 2]);
        r.push(vs[k + 1]);
        r.push(vs[0]);
        proof {
            assert(r@ =~= old_r + seq![vs@[k + 2], vs@[k + 1], vs@[0]]);
            assert(old_r + (seq![vs@[k + 2], vs@[k + 1], vs@[0]] + sp_fan_from(vs@, k + 1)) =~= r@
                + sp_fan_from(vs@, k + 1));
        }
        k = k + 1;
    }
    proof {
        assert(sp_fan_from(vs@, k as int) =~= Seq::<FaceVertex>::empty());
        assert(r@ =~= r@ + Seq::<FaceVertex>::empty());
    }
    r
}

/// The triangle list a face contributes: its vertices as they stand when
/// pre-triangulated, else its fan triangulation.
pub open spec fn sp_face_tris(f: FaceModel) -> Seq<FaceVertex> {
    if f.triangulated {
        f.vertices
    } else {
        sp_fan(f.vertices)
    }
}

// --- grouping ------------------------------------------------------------

/// Distinct textures of the visible faces, in order of first appearance,
/// after those already `seen`.
pub open spec fn sp_texture_order_acc(faces: Seq<FaceModel>, seen: Seq<Seq<u8>>) -> Seq<Seq<u8>>
    decreases faces.len(),
{
    if faces.len() == 0 {
        seen
    } else if faces[0].visible && !seen.contains(faces[0].texture) {
        sp_texture_order_acc(faces.skip(1), seen.push(faces[0].texture))
    } else {
        sp_texture_order_acc(faces.skip(1), seen)
    }
}

/// Distinct textures of the visible faces, in order of first appearance.
pub open spec fn sp_texture_order(faces: Seq<FaceModel>) -> Seq<Seq<u8>> {
    sp_texture_order_acc(faces, Seq::empty())
}

/// Merged triangle list of every visible face with texture `tex`, in face
/// order.
pub open spec fn sp_group_tris(faces: Seq<FaceModel>, tex: Seq<u8>) -> Seq<FaceVertex>
    decreases faces.len(),
{
    if faces.len() == 0 {
        Seq::<FaceVertex>::empty()
    } else {
        (if faces[0].visible && faces[0].texture == tex {
            sp_face_tris(faces[0])
        } else {
            Seq::<FaceVertex>::empty()
        }) + sp_group_tris(faces.skip(1), tex)
    }
}

/// Does the list hold these bytes?
fn contains_bytes(v: &Vec<Vec<u8>>, x: &[u8]) -> (r: bool)
    ensures
        r == v@.map_values(|b: Vec<u8>| b@).contains(x@),
{
    let ghost m = v@.map_values(|b: Vec<u8>| b@);
    let mut i: usize = 0;
    while i < v.len()
        invariant
            i <= v@.len(),
            m == v@.map_values(|b: Vec<u8>| b@),
            forall|j: int| 0 <= j < i ==> m[j] != x@,
        decreases v.len() - i,
    {
        if bytes_eq(v[i].as_slice(), x) {
            proof {
                assert(m[i as int] == x@);
            }
            return true;
        }
        i = i + 1;
    }
    proof {
        if m.contains(x@) {
            let j = choose|j: int| 0 <= j < m.len() && m[j] == x@;
            assert(m[j] != x@);
        }
    }
    false
}

/// The distinct textures of the visible faces, in order of first
/// appearance; mirrors `sp_texture_order`.
fn texture_order(faces: &Vec<LevelFace>) -> (r: Vec<Vec<u8>>)
    ensures
        r@.map_values(|b: Vec<u8>| b@) == sp_texture_order(faces_model(faces@)),
{
    let ghost fm = faces_model(faces@);
    let mut r: Vec<Vec<u8>> = Vec::new();
    let mut i: usize = 0;
    proof {
        assert(fm.skip(0) =~= fm);
        assert(r@.map_values(|b: Vec<u8>| b@) =~= Seq::<Seq<u8>>::empty());
    }
    while i < faces.len()
        invariant
            i <= faces@.len(),
            fm == faces_model(faces@),
            sp_texture_order(fm) == sp_texture_order_acc(
                fm.skip(i as int),
                r@.map_values(|b: Vec<u8>| b@),
            ),
        decreases faces.len() - i,
    {
        let ghost seen = r@.map_values(|b: Vec<u8>| b@);
        proof {
            assert(fm.skip(i as int)[0] == fm[i as int]);
            assert(fm.skip(i as int).skip(1) =~= fm.skip(i + 1));
        }
        if faces[i].visible && !contains_bytes(&r, faces[i].texture.as_slice()) {
            let t = copy_bytes(faces[i].texture.as_slice());
            r.push(t);
            proof {
                assert(r@.map_values(|b: Vec<u8>| b@) =~= seen.push(fm[i as int].texture));
            }
        }
        i = i + 1;
    }
    proof {
        assert(sp_texture_order_acc(fm.skip(faces@.len() as int), r@.map_values(|b: Vec<u8>| b@))
            == r@.map_values(|b: Vec<u8>| b@));
    }
    r
}

/// Append a copy of `src`'s entries to `dst`.
fn append_verts(dst: &mut Vec<FaceVertex>, src: &Vec<FaceVertex>)
    ensures
        final(dst)@ == old(dst)@ + src@,
{
    let mut i: usize = 0;
    while i < src.len()
        invariant
            i <= src@.len(),
            dst@ == old(dst)@ + src@.take(i as int),
        decreases src.len() - i,
    {
        dst.push(src[i]);
        proof {
            assert(old(dst)@ + src@.take(i + 1) =~= (old(dst)@ + src@.take(i as int)).push(
                src@[i as int],
            ));
        }
        i = i + 1;
    }
    proof {
        assert(src@.take(src@.len() as int) =~= src@);
    }
}

/// The merged triangle list of one texture group; mirrors `sp_group_tris`.
fn group_tris(faces: &Vec<LevelFace>, tex: &[u8]) -> (r: Vec<FaceVertex>)
    ensures
        r@ == sp_group_tris(faces_model(faces@), tex@),
{
    let ghost fm = faces_model(faces@);
    let mut r: Vec<FaceVertex> = Vec::new();
    let mut i: usize = 0;
    proof {
        assert(fm.skip(0) =~= fm);
    }
    while i < faces.len()
        invariant
            i <= faces@.len(),
            fm == faces_model(faces@),
            sp_group_tris(fm, tex@) == r@ + sp_group_tris(fm.skip(i as int), tex@),
        decreases faces.len() - i,
    {
        let ghost old_r = r@;
        proof {
            assert(fm.skip(i as int)[0] == fm[i as int]);
            assert(fm.skip(i as int).skip(1) =~= fm.skip(i + 1));
        }
        if faces[i].visible && bytes_eq(faces[i].texture.as_slice(), tex) {
            if faces[i].triangulated {
                append_verts(&mut r, &faces[i].vertices);
            } else {
                let tris = fan_triangulate(&faces[i].vertices);
                append_verts(&mut r, &tris);
            }
            proof {
                assert(r@ =~= old_r + sp_face_tris(fm[i as int]));
            }
        }
        proof {
            assert(old_r + ((if fm[i as int].visible && fm[i as int].texture == tex@ {
                sp_face_tris(fm[i as int])
            } else {
                Seq::<FaceVertex>::empty()
            }) + sp_group_tris(fm.skip(i + 1), tex@)) =~= r@ + sp_group_tris(fm.skip(i + 1), tex@));
        }
        i = i + 1;
    }
    proof {
        assert(r@ =~= r@ + Seq::<FaceVertex>::empty());
    }
    r
}

// --- extraction ----------------------------------------------------------

/// One merged world primitive: a non-indexed triangle list under one
/// texture, with its index into the shared material table (absent when
/// texture resolution is switched off).
pub struct WorldPrimitive {
    pub texture: Vec<u8>,
    pub vertices: Vec<FaceVertex>,
    pub material_index: Option<usize>,
}

/// Table entry `j` was registered by world extraction: some emitted
/// primitive carries exactly that index, and the entry is that primitive's
/// texture with no search paths.
pub open spec fn entry_from_world(
    prims: Seq<WorldPrimitive>,
    m: Seq<(Seq<u8>, Seq<Seq<u8>>)>,
    order: Seq<Seq<u8>>,
    j: int,
) -> bool {
    exists|k: int|
        0 <= k < prims.len() && (#[trigger] prims[k]).material_index == Some(j as usize) && m[j]
            == (order[k], Seq::<Seq<u8>>::empty())
}

/// Extract the visible world geometry: one primitive per distinct texture
/// of the visible faces, in order of first appearance, each holding the
/// merged triangle lists of its faces in face order. With `textures_on`
/// every primitive's texture is registered in the shared material table
/// (with no search paths) and the assigned index attached.
pub fn extract_world(faces: &Vec<LevelFace>, set: &mut MaterialSet, textures_on: bool) -> (r:
    Vec<WorldPrimitive>)
    requires
        old(set).inv(),
    ensures
        final(set).inv(),
        old(set).model().len() <= final(set).model().len(),
        forall|j: int|
            0 <= j < old(set).model().len() ==> final(set).model()[j] == old(set).model()[j],
        r@.len() == sp_texture_order(faces_model(faces@)).len(),
        forall|i: int|
            0 <= i < r@.len() ==> r@[i].texture@ == sp_texture_order(faces_model(faces@))[i],
        forall|i: int|
            0 <= i < r@.len() ==> r@[i].vertices@ == sp_group_tris(
                faces_model(faces@),
                sp_texture_order(faces_model(faces@))[i],
            ),
        forall|i: int|
            0 <= i < r@.len() ==> (!textures_on ==> r@[i].material_index is None),
        forall|i: int|
            0 <= i < r@.len() ==> (textures_on ==> (#[trigger] r@[i].material_index matches Some(
                mi,
            ) && mi < final(set).model().len() && final(set).model()[mi as int] == (
            sp_texture_order(faces_model(faces@))[i],
            Seq::<Seq<u8>>::empty(),
            ))),
        !textures_on ==> final(set).model() == old(set).model(),
        textures_on ==> forall|j: int|
            old(set).model().len() <= j < final(set).model().len() ==> #[trigger] entry_from_world(
                r@,
                final(set).model(),
                sp_texture_order(faces_model(faces@)),
                j,
            ),
    {
    let ghost fm = faces_model(faces@);
    let order = texture_order(faces);
    let ghost om = order@.map_values(|b: Vec<u8>| b@);
    let mut r: Vec<WorldPrimitive> = Vec::new();
    let mut i: usize = 0;
    while i < order.len()
        invariant
            i <= order@.len(),
            fm == faces_model(faces@),
            om == order@.map_values(|b: Vec<u8>| b@),
            om == sp_texture_order(fm),
            set.inv(),
            old(set).model().len() <= set.model().len(),
            forall|j: int|
                0 <= j < old(set).model().len() ==> set.model()[j] == old(set).model()[j],
            r@.len() == i,
            forall|k: int| 0 <= k < i ==> r@[k].texture@ == om[k],
            forall|k: int| 0 <= k < i ==> r@[k].vertices@ == sp_group_tris(fm, om[k]),
            forall|k: int| 0 <= k < i ==> (!textures_on ==> r@[k].material_index is None),
            forall|k: int|
                0 <= k < i ==> (textures_on ==> (#[trigger] r@[k].material_index matches Some(
                    mi,
                ) && mi < set.model().len() && set.model()[mi as int] == (
                om[k],
                Seq::<Seq<u8>>::empty(),
                ))),
            !textures_on ==> set.model() == old(set).model(),
            textures_on ==> forall|j: int|
                old(set).model().len() <= j < set.model().len() ==> #[trigger] entry_from_world(
                    r@,
                    set.model(),
                    om,
                    j,
                ),
        decreases order.len() - i,
    {
        let tex = copy_bytes(order[i].as_slice());
        let verts = group_tris(faces, tex.as_slice());
        let ghost entry_model = set.model();
        let ghost entry_r = r@;
        let material_index: Option<usize> = if textures_on {
            let key = MaterialKey { name: copy_bytes(tex.as_slice()), search_paths: Vec::new() };
            proof {
                assert(paths_model(key.search_paths) =~= Seq::<Seq<u8>>::empty());
            }
            let idx = set.get_index(key);
            Some(idx)
        } else {
            None
        };
        r.push(WorldPrimitive { texture: tex, vertices: verts, material_index });
        proof {
            if textures_on {
                // Every entry beyond the caller's is referenced by an
                // emitted primitive: earlier entries keep their witnesses,
                // and an entry this call appended is referenced by the
                // primitive just pushed.
                assert forall|j: int|
                    old(set).model().len() <= j < set.model().len() implies #[trigger]
                    entry_from_world(r@, set.model(), om, j) by {
                    if j < entry_model.len() {
                        assert(entry_from_world(entry_r, entry_model, om, j));
                        let k0 = choose|k: int|
                            0 <= k < entry_r.len() && (#[trigger] entry_r[k]).material_index
                                == Some(j as usize) && entry_model[j] == (
                            om[k],
                            Seq::<Seq<u8>>::empty(),
                            );
                        assert(r@[k0] == entry_r[k0]);
                        assert(set.model()[j] == entry_model[j]);
                        assert(0 <= k0 < r@.len() && r@[k0].material_index == Some(j as usize)
                            && set.model()[j] == (om[k0], Seq::<Seq<u8>>::empty()));
                    } else {
                        let kw = i as int;
                        assert(r@[kw].material_index == Some(j as usize));
                        assert(set.model()[j] == (om[kw], Seq::<Seq<u8>>::empty()));
                    }
                };
            }
        }
        i = i + 1;
    }
    r
}

} // verus!
