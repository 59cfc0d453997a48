//! Material resolution over a response log.
//!
//! The library performs no file access. Instead, a resolution function is
//! given the material name, its search paths, and an [`AssetLog`]: the
//! record of every byte fetch the surrounding application has answered so
//! far. The function either names the next path to fetch, or concludes
//! with a descriptor. The application's loop is then trivial: fetch the
//! named path, append the response to the log, call again. Fetches are
//! idempotent and side-effect-free, so recomputing from the log is sound.
//!
//! Failure never escapes: [`load_material_fallback`] replaces every failed
//! resolution by the conspicuous magenta fallback descriptor.

use vstd::prelude::*;
use crate::bytestr::{bytes_eq, copy_bytes, concat_bytes, is_prefix, lower_bytes, starts_with,
    to_lower, trim_end_matches, trim_leading, trim_start_matches_byte, trim_suffix};
use crate::material::{MaterialError, InfoModel, sp_classify, classify_doc, sp_is_patch,
    sp_patch_include, sp_patch_overrides, is_patch, patch_include, patch_overrides,
    apply_overrides, sp_apply_overrides};
use crate::texture::{TextureImage, vtf_decoded, decode_vtf, image_wf, sp_vtf_bounds_ok};
use crate::vdf::{MaterialDoc, DocModel, doc_model, sp_parse_text, parse_material_text};

verus! {

// --- path building -------------------------------------------------------

/// The bytes of `materials/`.
pub open spec fn p_materials_prefix() -> Seq<u8> {
    seq![109u8, 97u8, 116u8, 101u8, 114u8, 105u8, 97u8, 108u8, 115u8, 47u8]
}

fn lit_materials_prefix() -> (r: Vec<u8>)
    ensures
        r@ == p_materials_prefix(),
{
    let r: Vec<u8> = vec![109, 97, 116, 101, 114, 105, 97, 108, 115, 47];
    proof {
        assert(r@ =~= p_materials_prefix());
    }
    r
}

/// The bytes of `.vmt`.
pub open spec fn p_vmt_ext() -> Seq<u8> {
    seq![46u8, 118u8, 109u8, 116u8]
}

fn lit_vmt_ext() -> (r: Vec<u8>)
    ensures
        r@ == p_vmt_ext(),
{
    let r: Vec<u8> = vec![46, 118, 109, 116];
    proof {
        assert(r@ =~= p_vmt_ext());
    }
    r
}

/// The bytes of `.vtf`.
pub open spec fn p_vtf_ext() -> Seq<u8> {
    seq![46u8, 118u8, 116u8, 102u8]
}

fn lit_vtf_ext() -> (r: Vec<u8>)
    ensures
        r@ == p_vtf_ext(),
{
    let r: Vec<u8> = vec![46, 118, 116, 102];
    proof {
        assert(r@ =~= p_vtf_ext());
    }
    r
}

/// The description file of a material name: the name itself when it
/// already starts with the materials root, else the lower-cased name,
/// with at most one description extension, under the materials root.
pub open spec fn sp_material_path(name: Seq<u8>) -> Seq<u8> {
    if is_prefix(p_materials_prefix(), name) {
        name
    } else {
        p_materials_prefix() + trim_suffix(lower_bytes(name), p_vmt_ext()) + p_vmt_ext()
    }
}

/// Build the description file path of a material name.
pub fn material_path(name: &[u8]) -> (r: Vec<u8>)
    ensures
        r@ == sp_material_path(name@),
{
    let prefix = lit_materials_prefix();
    if starts_with(name, prefix.as_slice()) {
        return copy_bytes(name);
    }
    let ext = lit_vmt_ext();
    let lowered = to_lower(name);
    let trimmed = trim_end_matches(lowered.as_slice(), ext.as_slice());
    let head = concat_bytes(prefix.as_slice(), trimmed.as_slice());
    concat_bytes(head.as_slice(), ext.as_slice())
}

/// The image container path of a texture name: the name with at most one
/// container extension and no leading slash, under the materials root.
pub open spec fn sp_texture_path(name: Seq<u8>) -> Seq<u8> {
    p_materials_prefix() + trim_leading(trim_suffix(name, p_vtf_ext()), 47) + p_vtf_ext()
}

/// Build the image container path of a texture name.
pub fn texture_path(name: &[u8]) -> (r: Vec<u8>)
    ensures
        r@ == sp_texture_path(name@),
{
    let prefix = lit_materials_prefix();
    let ext = lit_vtf_ext();
    let trimmed = trim_end_matches(name, ext.as_slice());
    let deslashed = trim_start_matches_byte(trimmed.as_slice(), 47);
    let head = concat_bytes(prefix.as_slice(), deslashed.as_slice());
    concat_bytes(head.as_slice(), ext.as_slice())
}

/// One search-path prefix, normalised: lower-cased, without a leading
/// slash, under the materials root.
pub open spec fn sp_dir_norm(dir: Seq<u8>) -> Seq<u8> {
    p_materials_prefix() + trim_leading(lower_bytes(dir), 47)
}

/// A material name as a description file name: lower-cased, with exactly
/// one description extension.
pub open spec fn sp_vmt_name(name: Seq<u8>) -> Seq<u8> {
    trim_suffix(lower_bytes(name), p_vmt_ext()) + p_vmt_ext()
}

/// The candidate description paths of a key, probed in order: each search
/// path joined with the file name, first hit winning, and the default
/// materials-root path as the final candidate.
pub open spec fn sp_candidates(name: Seq<u8>, paths: Seq<Seq<u8>>) -> Seq<Seq<u8>> {
    if paths.len() == 0 {
        seq![sp_material_path(name)]
    } else {
        paths.map_values(|d: Seq<u8>| sp_dir_norm(d) + sp_vmt_name(name)) + seq![
            sp_material_path(name),
        ]
    }
}

/// Build the ordered candidate paths of a key.
pub fn candidate_paths(name: &[u8], paths: &Vec<Vec<u8>>) -> (r: Vec<Vec<u8>>)
    ensures
        r@.map_values(|c: Vec<u8>| c@) == sp_candidates(name@, crate::table::paths_model(*paths)),
{
    let ghost pm = crate::table::paths_model(*paths);
    let mut r: Vec<Vec<u8>> = Vec::new();
    if paths.len() > 0 {
        let ext = lit_vmt_ext();
        let lowered = to_lower(name);
        let trimmed = trim_end_matches(lowered.as_slice(), ext.as_slice());
        let fname = concat_bytes(trimmed.as_slice(), ext.as_slice());
        proof {
            assert(fname@ =~= sp_vmt_name(name@));
        }
        let mut i: usize = 0;
        while i < paths.len()
            invariant
                i <= paths@.len(),
                pm == crate::table::paths_model(*paths),
                fname@ == sp_vmt_name(name@),
                r@.map_values(|c: Vec<u8>| c@) == pm.take(i as int).map_values(
                    |d: Seq<u8>| sp_dir_norm(d) + sp_vmt_name(name@),
                ),
            decreases paths.len() - i,
        {
            let prefix = lit_materials_prefix();
            let lodir = to_lower(paths[i].as_slice());
            let deslashed = trim_start_matches_byte(lodir.as_slice(), 47);
            let dir = concat_bytes(prefix.as_slice(), deslashed.as_slice());
            let cand = concat_bytes(dir.as_slice(), fname.as_slice());
            proof {
                assert(cand@ =~= sp_dir_norm(pm[i as int]) + sp_vmt_name(name@));
            }
            let ghost old_rm = r@.map_values(|c: Vec<u8>| c@);
            let ghost cand_m = cand@;
            r.push(cand);
            proof {
                assert(r@.map_values(|c: Vec<u8>| c@) =~= old_rm.push(cand_m));
                assert(pm.take(i + 1).map_values(|d: Seq<u8>| sp_dir_norm(d) + sp_vmt_name(name@))
                    =~= pm.take(i as int).map_values(
                    |d: Seq<u8>| sp_dir_norm(d) + sp_vmt_name(name@),
                ).push(sp_dir_norm(pm[i as int]) + sp_vmt_name(name@)));
                assert(r@.map_values(|c: Vec<u8>| c@) =~= pm.take(i + 1).map_values(
                    |d: Seq<u8>| sp_dir_norm(d) + sp_vmt_name(name@),
                ));
            }
            i = i + 1;
        }
        proof {
            assert(pm.take(pm.len() as int) =~= pm);
        }
    }
    let last = material_path(name);
    r.push(last);
    proof {
        if pm.len() == 0 {
            assert(r@.map_values(|c: Vec<u8>| c@) =~= sp_candidates(name@, pm));
        } else {
            assert(r@.map_values(|c: Vec<u8>| c@) =~= sp_candidates(name@, pm));
        }
    }
    r
}

// --- the response log ----------------------------------------------------

/// The record of every asset fetch answered so far: pairs of path and
/// response, where `None` means the asset does not exist. The application
/// appends one entry per fetch; resolution only reads it.
pub struct AssetLog {
    pub entries: Vec<(Vec<u8>, Option<Vec<u8>>)>,
}

/// Mathematical value of the log.
pub open spec fn log_model(log: AssetLog) -> Seq<(Seq<u8>, Option<Seq<u8>>)> {
    log.entries@.map_values(
        |e: (Vec<u8>, Option<Vec<u8>>)|
            (
                e.0@,
                match e.1 {
                    Option::None => None,
                    Option::Some(v) => Some(v@),
                },
            ),
    )
}

/// The response recorded for `path`: `None` when the path was never
/// fetched, `Some(None)` when it was fetched and absent, `Some(Some(b))`
/// when it was fetched and held `b`.
pub open spec fn sp_log_find(m: Seq<(Seq<u8>, Option<Seq<u8>>)>, path: Seq<u8>) -> Option<
    Option<Seq<u8>>,
>
    decreases m.len(),
{
    if m.len() == 0 {
        None
    } else if m[0].0 == path {
        Some(m[0].1)
    } else {
        sp_log_find(m.skip(1), path)
    }
}

impl AssetLog {
    /// An empty log.
    pub fn new() -> (r: Self)
        ensures
            log_model(r) == Seq::<(Seq<u8>, Option<Seq<u8>>)>::empty(),
    {
        let r = AssetLog { entries: Vec::new() };
        proof {
            assert(log_model(r) =~= Seq::<(Seq<u8>, Option<Seq<u8>>)>::empty());
        }
        r
    }

    /// Record one fetch response.
    pub fn record(&mut self, path: Vec<u8>, response: Option<Vec<u8>>)
        ensures
            log_model(*final(self)) == log_model(*old(self)).push(
                (
                    path@,
                    match response {
                        Option::None => None,
                        Option::Some(v) => Some(v@),
                    },
                ),
            ),
    {
        let ghost old_model = log_model(*self);
        let ghost entry_model = (
            path@,
            match &response {
                Option::None => None,
                Option::Some(v) => Some(v@),
            },
        );
        self.entries.push((path, response));
        proof {
            assert(log_model(*self) =~= old_model.push(entry_model));
        }
    }

    /// Look a path's recorded response up.
    pub fn find(&self, path: &[u8]) -> (r: Option<Option<Vec<u8>>>)
        ensures
            match r {
                Option::None => sp_log_find(log_model(*self), path@) is None,
                Option::Some(Option::None) => sp_log_find(log_model(*self), path@) == Some(
                    Option::<Seq<u8>>::None,
                ),
                Option::Some(Option::Some(v)) => sp_log_find(log_model(*self), path@) == Some(
                    Some(v@),
                ),
            },
    {
        let ghost m = log_model(*self);
        let mut i: usize = 0;
        proof {
            assert(m.skip(0) =~= m);
        }
        while i < self.entries.len()
            invariant
                i <= self.entries@.len(),
                m == log_model(*self),
                sp_log_find(m, path@) == sp_log_find(m.skip(i as int), path@),
            decreases self.entries.len() - i,
        {
            proof {
                assert(m.skip(i as int)[0] == m[i as int]);
                assert(m.skip(i as int).skip(1) =~= m.skip(i + 1));
            }
            if bytes_eq(self.entries[i].0.as_slice(), path) {
                match &self.entries[i].1 {
                    Option::None => {
                        return Some(None);
                    },
                    Option::Some(v) => {
                        return Some(Some(copy_bytes(v.as_slice())));
                    },
                }
            }
            i = i + 1;
        }
        None
    }
}

// --- descriptors ---------------------------------------------------------

/// A decoded texture bound to its name.
#[derive(Debug)]
pub struct TextureData {
    pub name: Vec<u8>,
    pub image: TextureImage,
}

/// Mathematical value of a named texture.
pub struct TexDataModel {
    pub name: Seq<u8>,
    pub width: nat,
    pub height: nat,
    pub has_alpha: bool,
    pub rgba: Seq<u8>,
}

pub open spec fn texdata_model(t: TextureData) -> TexDataModel {
    TexDataModel {
        name: t.name@,
        width: t.image.width as nat,
        height: t.image.height as nat,
        has_alpha: t.image.has_alpha,
        rgba: t.image.rgba@,
    }
}

/// A resolved material descriptor: tint, decoded textures, and render
/// flags. A failed resolution collapses to the fallback value: magenta,
/// no textures, not translucent — conspicuous, never silent.
#[derive(Debug)]
pub struct MaterialData {
    /// The requested name (fallback) or the resolved description path.
    pub path: Vec<u8>,
    /// Colour tint, RGBA.
    pub color: [u8; 4],
    /// Decoded base texture.
    pub texture: Option<TextureData>,
    /// Alpha-test cutoff as its decimal literal.
    pub alpha_test: Option<Vec<u8>>,
    /// Decoded bump map; its absence is never an error.
    pub bump_map: Option<TextureData>,
    /// Render with translucency.
    pub translucent: bool,
}

/// Mathematical value of a material descriptor.
pub struct MatDataModel {
    pub path: Seq<u8>,
    pub color: Seq<u8>,
    pub texture: Option<TexDataModel>,
    pub alpha_test: Option<Seq<u8>>,
    pub bump_map: Option<TexDataModel>,
    pub translucent: bool,
}

pub open spec fn matdata_model(d: MaterialData) -> MatDataModel {
    MatDataModel {
        path: d.path@,
        color: d.color@,
        texture: match d.texture {
            Option::None => None,
            Option::Some(t) => Some(texdata_model(t)),
        },
        alpha_test: match d.alpha_test {
            Option::None => None,
            Option::Some(v) => Some(v@),
        },
        bump_map: match d.bump_map {
            Option::None => None,
            Option::Some(t) => Some(texdata_model(t)),
        },
        translucent: d.translucent,
    }
}

impl MaterialData {
    /// Whether the renderer must keep this material's alpha channel: only
    /// translucent or alpha-tested materials need one; everything else
    /// drops it before upload.
    pub fn keep_alpha(&self) -> (r: bool)
        ensures
            r == (self.translucent || !(self.alpha_test is None)),
    {
        self.translucent || self.alpha_test.is_some()
    }
}

/// The magenta tint of the fallback descriptor.
pub open spec fn fallback_color() -> Seq<u8> {
    seq![255u8, 0u8, 255u8, 255u8]
}

/// The fallback descriptor of a failed material: magenta, opaque, without
/// textures, named after the requested material.
pub open spec fn sp_fallback(name: Seq<u8>) -> MatDataModel {
    MatDataModel {
        path: name,
        color: fallback_color(),
        texture: None,
        alpha_test: None,
        bump_map: None,
        translucent: false,
    }
}

/// Build the fallback descriptor.
pub fn fallback_material(name: &[u8]) -> (r: MaterialData)
    ensures
        matdata_model(r) == sp_fallback(name@),
{
    let color: [u8; 4] = [255, 0, 255, 255];
    proof {
        assert(color@ =~= fallback_color());
    }
    MaterialData {
        path: copy_bytes(name),
        color,
        texture: None,
        alpha_test: None,
        bump_map: None,
        translucent: false,
    }
}

// --- resolution steps ----------------------------------------------------

/// Probing outcome over the candidate list.
pub enum SProbe {
    /// This candidate has not been fetched yet.
    Fetch(Seq<u8>),
    /// This candidate was found, with its bytes.
    Found(Seq<u8>, Seq<u8>),
    /// Every candidate was fetched and none exists.
    Missing,
}

/// Probe the candidates in order; the first found wins.
pub open spec fn sp_probe(
    cands: Seq<Seq<u8>>,
    log: Seq<(Seq<u8>, Option<Seq<u8>>)>,
) -> SProbe
    decreases cands.len(),
{
    if cands.len() == 0 {
        SProbe::Missing
    } else {
        match sp_log_find(log, cands[0]) {
            Option::None => SProbe::Fetch(cands[0]),
            Option::Some(Option::None) => sp_probe(cands.skip(1), log),
            Option::Some(Option::Some(b)) => SProbe::Found(cands[0], b),
        }
    }
}

/// Probing outcome, executable side.
enum ProbeOutcome {
    Fetch(Vec<u8>),
    Found(Vec<u8>, Vec<u8>),
    Missing,
}

/// Probe the candidate list against the log; mirrors `sp_probe`.
fn probe_candidates(cands: &Vec<Vec<u8>>, log: &AssetLog) -> (r: ProbeOutcome)
    ensures
        ({
            let s = sp_probe(cands@.map_values(|c: Vec<u8>| c@), log_model(*log));
            match r {
                ProbeOutcome::Fetch(p) => s == SProbe::Fetch(p@),
                ProbeOutcome::Found(p, b) => s == SProbe::Found(p@, b@),
                ProbeOutcome::Missing => s == SProbe::Missing,
            }
        }),
{
    let ghost cm = cands@.map_values(|c: Vec<u8>| c@);
    let mut i: usize = 0;
    proof {
        assert(cm.skip(0) =~= cm);
    }
    while i < cands.len()
        invariant
            i <= cands@.len(),
            cm == cands@.map_values(|c: Vec<u8>| c@),
            sp_probe(cm, log_model(*log)) == sp_probe(cm.skip(i as int), log_model(*log)),
        decreases cands.len() - i,
    {
        proof {
            assert(cm.skip(i as int)[0] == cm[i as int]);
            assert(cm.skip(i as int).skip(1) =~= cm.skip(i + 1));
        }
        match log.find(cands[i].as_slice()) {
            Option::None => {
                return ProbeOutcome::Fetch(copy_bytes(cands[i].as_slice()));
            },
            Option::Some(Option::None) => {},
            Option::Some(Option::Some(b)) => {
                return ProbeOutcome::Found(copy_bytes(cands[i].as_slice()), b);
            },
        }
        i = i + 1;
    }
    ProbeOutcome::Missing
}

/// How deep a patch chain may reach before resolution gives up. A chain
/// that revisits a description (a cycle) exhausts this bound.
pub const PATCH_DEPTH_LIMIT: usize = 16;

/// Patch-resolution outcome.
pub enum SRes {
    /// The included description must be fetched first.
    Fetch(Seq<u8>),
    /// The description with every include folded in.
    Resolved(DocModel),
    /// Resolution failed.
    Failed(MaterialError),
}

/// Resolve a description's patch chain against the log, depth-bounded.
///
/// A non-patch description is already resolved. A patch names an included
/// description: that is fetched, parsed and resolved first, then the
/// patch's override entries are applied to it one by one as shallow field
/// replacements.
pub open spec fn sp_resolve_doc(
    d: DocModel,
    log: Seq<(Seq<u8>, Option<Seq<u8>>)>,
    depth: nat,
) -> SRes
    decreases depth,
{
    if !sp_is_patch(d) {
        SRes::Resolved(d)
    } else if depth == 0 {
        SRes::Failed(MaterialError::PatchDepthExceeded)
    } else {
        match sp_patch_include(d) {
            Option::None => SRes::Failed(MaterialError::PatchIncludeMissing),
            Option::Some(p) => match sp_log_find(log, p) {
                Option::None => SRes::Fetch(p),
                Option::Some(Option::None) => SRes::Failed(MaterialError::NotFound),
                Option::Some(Option::Some(bytes)) => match sp_parse_text(bytes) {
                    Option::None => SRes::Failed(MaterialError::ParseFailed),
                    Option::Some(inner) => match sp_resolve_doc(inner, log, (depth - 1) as nat) {
                        SRes::Fetch(q) => SRes::Fetch(q),
                        SRes::Failed(e) => SRes::Failed(e),
                        SRes::Resolved(base) => SRes::Resolved(
                            DocModel {
                                shader: base.shader,
                                params: sp_apply_overrides(base.params, sp_patch_overrides(d)),
                            },
                        ),
                    },
                },
            },
        }
    }
}

/// Patch-resolution outcome, executable side.
pub enum ResolveOutcome {
    Fetch(Vec<u8>),
    Resolved(MaterialDoc),
    Failed(MaterialError),
}

/// Resolve a description's patch chain; mirrors `sp_resolve_doc`.
fn resolve_doc(doc: MaterialDoc, log: &AssetLog, depth: usize) -> (r: ResolveOutcome)
    ensures
        ({
            let s = sp_resolve_doc(doc_model(doc), log_model(*log), depth as nat);
            match r {
                ResolveOutcome::Fetch(p) => s == SRes::Fetch(p@),
                ResolveOutcome::Resolved(d) => s == SRes::Resolved(doc_model(d)),
                ResolveOutcome::Failed(e) => s == SRes::Failed(e),
            }
        }),
    decreases depth,
{
    if !is_patch(&doc) {
        return ResolveOutcome::Resolved(doc);
    }
    if depth == 0 {
        return ResolveOutcome::Failed(MaterialError::PatchDepthExceeded);
    }
    let inc_path = match patch_include(&doc) {
        Option::None => {
            return ResolveOutcome::Failed(MaterialError::PatchIncludeMissing);
        },
        Option::Some(p) => p,
    };
    let bytes = match log.find(inc_path.as_slice()) {
        Option::None => {
            return ResolveOutcome::Fetch(inc_path);
        },
        Option::Some(Option::None) => {
            return ResolveOutcome::Failed(MaterialError::NotFound);
        },
        Option::Some(Option::Some(b)) => b,
    };
    let inner = match parse_material_text(bytes.as_slice()) {
        Option::None => {
            return ResolveOutcome::Failed(MaterialError::ParseFailed);
        },
        Option::Some(d) => d,
    };
    match resolve_doc(inner, log, depth - 1) {
        ResolveOutcome::Fetch(q) => ResolveOutcome::Fetch(q),
        ResolveOutcome::Failed(e) => ResolveOutcome::Failed(e),
        ResolveOutcome::Resolved(base) => {
            let ovr = patch_overrides(&doc);
            let mut params = base.params;
            apply_overrides(&mut params, &ovr);
            ResolveOutcome::Resolved(MaterialDoc { shader: base.shader, params })
        },
    }
}

/// Texture-loading outcome.
pub enum STex {
    /// The container bytes must be fetched first.
    Fetch(Seq<u8>),
    /// Dimensions, source-alpha flag and RGBA pixels of the decoded image.
    Decoded((nat, nat, bool, Seq<u8>)),
    /// The bytes are absent or do not decode.
    Failed(MaterialError),
}

/// Load a texture by name against the log. Bytes the decoder could step
/// outside of (see `sp_vtf_bounds_ok`) count as undecodable.
pub open spec fn sp_load_texture(
    name: Seq<u8>,
    log: Seq<(Seq<u8>, Option<Seq<u8>>)>,
) -> STex {
    let path = sp_texture_path(name);
    match sp_log_find(log, path) {
        Option::None => STex::Fetch(path),
        Option::Some(Option::None) => STex::Failed(MaterialError::TextureNotFound),
        Option::Some(Option::Some(b)) => if !sp_vtf_bounds_ok(b) {
            STex::Failed(MaterialError::TextureUndecodable)
        } else {
            match vtf_decoded(b) {
                Option::None => STex::Failed(MaterialError::TextureUndecodable),
                Option::Some(img) => STex::Decoded(img),
            }
        },
    }
}

/// Texture-loading outcome, executable side.
pub enum TexOutcome {
    Fetch(Vec<u8>),
    Decoded(TextureImage),
    Failed(MaterialError),
}

/// Load a texture by name; mirrors `sp_load_texture`.
pub fn load_texture(name: &[u8], log: &AssetLog) -> (r: TexOutcome)
    ensures
        ({
            let s = sp_load_texture(name@, log_model(*log));
            match r {
                TexOutcome::Fetch(p) => s == STex::Fetch(p@),
                TexOutcome::Decoded(img) => s == STex::Decoded(
                    (img.width as nat, img.height as nat, img.has_alpha, img.rgba@),
                ) && image_wf(img),
                TexOutcome::Failed(e) => s == STex::Failed(e),
            }
        }),
{
    let path = texture_path(name);
    match log.find(path.as_slice()) {
        Option::None => TexOutcome::Fetch(path),
        Option::Some(Option::None) => TexOutcome::Failed(MaterialError::TextureNotFound),
        Option::Some(Option::Some(b)) => {
            if !crate::texture::vtf_decode_in_bounds(b.as_slice()) {
                return TexOutcome::Failed(MaterialError::TextureUndecodable);
            }
            match decode_vtf(&b) {
                Option::None => TexOutcome::Failed(MaterialError::TextureUndecodable),
                Option::Some(img) => TexOutcome::Decoded(img),
            }
        },
    }
}

// --- whole-material resolution -------------------------------------------

/// A descriptor assembled from a classified material and decoded textures.
pub open spec fn sp_assemble(
    path: Seq<u8>,
    info: InfoModel,
    base_name: Seq<u8>,
    img: (nat, nat, bool, Seq<u8>),
    bump: Option<(Seq<u8>, (nat, nat, bool, Seq<u8>))>,
) -> MatDataModel {
    MatDataModel {
        path,
        color: info.color,
        texture: Some(
            TexDataModel {
                name: base_name,
                width: img.0,
                height: img.1,
                has_alpha: img.2,
                rgba: img.3,
            },
        ),
        alpha_test: info.alpha_test,
        bump_map: match bump {
            Option::None => None,
            Option::Some((bn, bi)) => Some(
                TexDataModel {
                    name: bn,
                    width: bi.0,
                    height: bi.1,
                    has_alpha: bi.2,
                    rgba: bi.3,
                },
            ),
        },
        translucent: info.translucent,
    }
}

/// The descriptor of a texture-less classification (water): tint and
/// translucency carried over, no textures, no alpha test.
pub open spec fn sp_untextured(path: Seq<u8>, info: InfoModel) -> MatDataModel {
    MatDataModel {
        path,
        color: info.color,
        texture: None,
        alpha_test: info.alpha_test,
        bump_map: None,
        translucent: info.translucent,
    }
}

/// Resolution outcome of one material key.
pub enum SLoad {
    /// This path must be fetched and recorded before resolution can go on.
    Fetch(Seq<u8>),
    /// Resolution concluded.
    Done(Result<MatDataModel, MaterialError>),
}

/// Resolve one material key against the log: probe the candidates, parse,
/// fold the patch chain, classify, then decode the base texture and,
/// best-effort, the bump map (whose failure only omits it).
pub open spec fn sp_load_material(
    name: Seq<u8>,
    paths: Seq<Seq<u8>>,
    log: Seq<(Seq<u8>, Option<Seq<u8>>)>,
) -> SLoad {
    match sp_probe(sp_candidates(name, paths), log) {
        SProbe::Fetch(p) => SLoad::Fetch(p),
        SProbe::Missing => SLoad::Done(Err(MaterialError::NotFound)),
        SProbe::Found(path, bytes) => match sp_parse_text(bytes) {
            Option::None => SLoad::Done(Err(MaterialError::ParseFailed)),
            Option::Some(doc) => match sp_resolve_doc(doc, log, PATCH_DEPTH_LIMIT as nat) {
                SRes::Fetch(p) => SLoad::Fetch(p),
                SRes::Failed(e) => SLoad::Done(Err(e)),
                SRes::Resolved(rdoc) => match sp_classify(rdoc) {
                    Result::Err(e) => SLoad::Done(Err(e)),
                    Result::Ok(info) => match info.base_texture {
                        Option::None => SLoad::Done(Ok(sp_untextured(path, info))),
                        Option::Some(base_name) => match sp_load_texture(base_name, log) {
                            STex::Fetch(p) => SLoad::Fetch(p),
                            STex::Failed(e) => SLoad::Done(Err(e)),
                            STex::Decoded(img) => match info.bump_map {
                                Option::None => SLoad::Done(
                                    Ok(sp_assemble(path, info, base_name, img, None)),
                                ),
                                Option::Some(bn) => match sp_load_texture(bn, log) {
                                    STex::Fetch(p) => SLoad::Fetch(p),
                                    STex::Failed(_) => SLoad::Done(
                                        Ok(sp_assemble(path, info, base_name, img, None)),
                                    ),
                                    STex::Decoded(bi) => SLoad::Done(
                                        Ok(
                                            sp_assemble(
                                                path,
                                                info,
                                                base_name,
                                                img,
                                                Some((bn, bi)),
                                            ),
                                        ),
                                    ),
                                },
                            },
                        },
                    },
                },
            },
        },
    }
}

/// Resolution outcome, executable side.
pub enum LoadResult {
    /// Fetch this path, record the response, and call again.
    Fetch(Vec<u8>),
    /// Resolution concluded.
    Done(Result<MaterialData, MaterialError>),
}

/// Resolve one material key against the log; mirrors `sp_load_material`.
pub fn load_material(name: &[u8], search_paths: &Vec<Vec<u8>>, log: &AssetLog) -> (r: LoadResult)
    ensures
        ({
            let s = sp_load_material(
                name@,
                crate::table::paths_model(*search_paths),
                log_model(*log),
            );
            match r {
                LoadResult::Fetch(p) => s == SLoad::Fetch(p@),
                LoadResult::Done(Result::Ok(d)) => s == SLoad::Done(Ok(matdata_model(d))),
                LoadResult::Done(Result::Err(e)) => s == SLoad::Done(
                    Err::<MatDataModel, MaterialError>(e),
                ),
            }
        }),
{
    let cands = candidate_paths(name, search_paths);
    let (path, bytes) = match probe_candidates(&cands, log) {
        ProbeOutcome::Fetch(p) => {
            return LoadResult::Fetch(p);
        },
        ProbeOutcome::Missing => {
            return LoadResult::Done(Err(MaterialError::NotFound));
        },
        ProbeOutcome::Found(p, b) => (p, b),
    };
    let doc = match parse_material_text(bytes.as_slice()) {
        Option::None => {
            return LoadResult::Done(Err(MaterialError::ParseFailed));
        },
        Option::Some(d) => d,
    };
    let rdoc = match resolve_doc(doc, log, PATCH_DEPTH_LIMIT) {
        ResolveOutcome::Fetch(p) => {
            return LoadResult::Fetch(p);
        },
        ResolveOutcome::Failed(e) => {
            return LoadResult::Done(Err(e));
        },
        ResolveOutcome::Resolved(d) => d,
    };
    let info = match classify_doc(&rdoc) {
        Result::Err(e) => {
            return LoadResult::Done(Err(e));
        },
        Result::Ok(i) => i,
    };
    let base_name = match info.base_texture {
        Option::None => {
            return LoadResult::Done(
                Ok(
                    MaterialData {
                        path,
                        color: info.color,
                        texture: None,
                        alpha_test: info.alpha_test,
                        bump_map: None,
                        translucent: info.translucent,
                    },
                ),
            );
        },
        Option::Some(b) => b,
    };
    let img = match load_texture(base_name.as_slice(), log) {
        TexOutcome::Fetch(p) => {
            return LoadResult::Fetch(p);
        },
        TexOutcome::Failed(e) => {
            return LoadResult::Done(Err(e));
        },
        TexOutcome::Decoded(i) => i,
    };
    let bump: Option<TextureData> = match &info.bump_map {
        Option::None => None,
        Option::Some(bn) => match load_texture(bn.as_slice(), log) {
            TexOutcome::Fetch(p) => {
                return LoadResult::Fetch(p);
            },
            TexOutcome::Failed(_) => None,
            TexOutcome::Decoded(bi) => Some(
                TextureData { name: copy_bytes(bn.as_slice()), image: bi },
            ),
        },
    };
    LoadResult::Done(
        Ok(
            MaterialData {
                path,
                color: info.color,
                texture: Some(TextureData { name: base_name, image: img }),
                alpha_test: info.alpha_test,
                bump_map: bump,
                translucent: info.translucent,
            },
        ),
    )
}

/// Fallback resolution outcome.
pub enum SLoadF {
    Fetch(Seq<u8>),
    Done(MatDataModel),
}

/// Resolve one material key, substituting the fallback descriptor for any
/// failure: resolution never fails outward.
pub open spec fn sp_load_material_fallback(
    name: Seq<u8>,
    paths: Seq<Seq<u8>>,
    log: Seq<(Seq<u8>, Option<Seq<u8>>)>,
) -> SLoadF {
    match sp_load_material(name, paths, log) {
        SLoad::Fetch(p) => SLoadF::Fetch(p),
        SLoad::Done(Result::Ok(d)) => SLoadF::Done(d),
        SLoad::Done(Result::Err(_)) => SLoadF::Done(sp_fallback(name)),
    }
}

/// Fallback resolution outcome, executable side.
pub enum MaterialOutcome {
    /// Fetch this path, record the response, and call again.
    Fetch(Vec<u8>),
    /// The final descriptor: resolved, or the conspicuous fallback.
    Done(MaterialData),
}

/// Resolve one material key, substituting the fallback descriptor for any
/// failure; mirrors `sp_load_material_fallback`.
pub fn load_material_fallback(
    name: &[u8],
    search_paths: &Vec<Vec<u8>>,
    log: &AssetLog,
) -> (r: MaterialOutcome)
    ensures
        ({
            let s = sp_load_material_fallback(
                name@,
                crate::table::paths_model(*search_paths),
                log_model(*log),
            );
            match r {
                MaterialOutcome::Fetch(p) => s == SLoadF::Fetch(p@),
                MaterialOutcome::Done(d) => s == SLoadF::Done(matdata_model(d)),
            }
        }),
{
    match load_material(name, search_paths, log) {
        LoadResult::Fetch(p) => MaterialOutcome::Fetch(p),
        LoadResult::Done(Result::Ok(d)) => MaterialOutcome::Done(d),
        LoadResult::Done(Result::Err(_)) => MaterialOutcome::Done(fallback_material(name)),
    }
}

// --- laws ----------------------------------------------------------------

proof fn lemma_probe_all_missing(cands: Seq<Seq<u8>>, log: Seq<(Seq<u8>, Option<Seq<u8>>)>)
    requires
        forall|i: int|
            0 <= i < cands.len() ==> sp_log_find(log, #[trigger] cands[i]) == Some(
                Option::<Seq<u8>>::None,
            ),
    ensures
        sp_probe(cands, log) == SProbe::Missing,
    decreases cands.len(),
{
    if cands.len() > 0 {
        assert(sp_log_find(log, cands[0]) == Some(Option::<Seq<u8>>::None));
        assert(forall|i: int|
            0 <= i < cands.skip(1).len() ==> cands.skip(1)[i] == cands[i + 1]);
        lemma_probe_all_missing(cands.skip(1), log);
    }
}

/// Fallback never fails: a material whose description exists under none of
/// its candidate paths — for an empty or a non-empty search-path list —
/// resolves to the fallback descriptor: magenta opaque tint, no base
/// texture, no bump map, no alpha test.
pub proof fn lemma_missing_material_falls_back(
    name: Seq<u8>,
    paths: Seq<Seq<u8>>,
    log: Seq<(Seq<u8>, Option<Seq<u8>>)>,
)
    requires
        forall|i: int|
            0 <= i < sp_candidates(name, paths).len() ==> sp_log_find(
                log,
                #[trigger] sp_candidates(name, paths)[i],
            ) == Some(Option::<Seq<u8>>::None),
    ensures
        sp_load_material_fallback(name, paths, log) == SLoadF::Done(sp_fallback(name)),
        sp_fallback(name).color == fallback_color(),
        sp_fallback(name).texture is None,
{
    lemma_probe_all_missing(sp_candidates(name, paths), log);
}

/// Fallback never fails, whatever the log holds: for every material name,
/// search-path list and response log, the outcome is a fetch request or a
/// final descriptor — never an error — mirroring strict resolution with
/// every failure replaced by the conspicuous fallback descriptor for the
/// requested name. (That no outcome can abort is Verus's verification of
/// the executable resolution itself.)
pub proof fn lemma_fallback_never_fails(
    name: Seq<u8>,
    paths: Seq<Seq<u8>>,
    log: Seq<(Seq<u8>, Option<Seq<u8>>)>,
)
    ensures
        sp_load_material(name, paths, log) matches SLoad::Fetch(p)
            ==> sp_load_material_fallback(name, paths, log) == SLoadF::Fetch(p),
        sp_load_material(name, paths, log) matches SLoad::Done(Result::Ok(d))
            ==> sp_load_material_fallback(name, paths, log) == SLoadF::Done(d),
        sp_load_material(name, paths, log) matches SLoad::Done(Result::Err(e))
            ==> sp_load_material_fallback(name, paths, log) == SLoadF::Done(sp_fallback(name)),
        sp_fallback(name).color == fallback_color(),
        sp_fallback(name).texture is None,
        sp_fallback(name).bump_map is None,
        sp_fallback(name).alpha_test is None,
{
}

/// Patch resolution terminates on cycles: a description that includes a
/// description which parses back to itself (the direct cycle included)
/// exhausts the depth bound and resolves to an error — never an unbounded
/// recursion.
pub proof fn lemma_patch_cycle_fails(
    d: DocModel,
    log: Seq<(Seq<u8>, Option<Seq<u8>>)>,
    depth: nat,
)
    requires
        sp_is_patch(d),
        sp_patch_include(d) is Some,
        sp_log_find(log, sp_patch_include(d)->Some_0) matches Some(Some(bytes)) && sp_parse_text(
            bytes,
        ) == Some(d),
    ensures
        sp_resolve_doc(d, log, depth) == SRes::Failed(MaterialError::PatchDepthExceeded),
    decreases depth,
{
    if depth > 0 {
        lemma_patch_cycle_fails(d, log, (depth - 1) as nat);
    }
}

proof fn lemma_probe_fetch_unanswered(
    cands: Seq<Seq<u8>>,
    log: Seq<(Seq<u8>, Option<Seq<u8>>)>,
)
    ensures
        sp_probe(cands, log) matches SProbe::Fetch(p) ==> sp_log_find(log, p) is None,
    decreases cands.len(),
{
    if cands.len() > 0 {
        lemma_probe_fetch_unanswered(cands.skip(1), log);
    }
}

proof fn lemma_resolve_fetch_unanswered(
    d: DocModel,
    log: Seq<(Seq<u8>, Option<Seq<u8>>)>,
    depth: nat,
)
    ensures
        sp_resolve_doc(d, log, depth) matches SRes::Fetch(p) ==> sp_log_find(log, p) is None,
    decreases depth,
{
    if sp_is_patch(d) && depth > 0 {
        match sp_patch_include(d) {
            Option::Some(p) => {
                match sp_log_find(log, p) {
                    Option::Some(Option::Some(bytes)) => {
                        match sp_parse_text(bytes) {
                            Option::Some(inner) => {
                                lemma_resolve_fetch_unanswered(inner, log, (depth - 1) as nat);
                            },
                            Option::None => {},
                        }
                    },
                    _ => {},
                }
            },
            Option::None => {},
        }
    }
}

/// Resolution makes progress: every path it asks for is one the log does
/// not answer yet, so the application's fetch-record-retry loop adds one
/// entry per round and can never be asked for the same path twice.
pub proof fn lemma_fetch_is_unanswered(
    name: Seq<u8>,
    paths: Seq<Seq<u8>>,
    log: Seq<(Seq<u8>, Option<Seq<u8>>)>,
)
    ensures
        sp_load_material(name, paths, log) matches SLoad::Fetch(p) ==> sp_log_find(log, p)
            is None,
        sp_load_material_fallback(name, paths, log) matches SLoadF::Fetch(p) ==> sp_log_find(
            log,
            p,
        ) is None,
{
    lemma_probe_fetch_unanswered(sp_candidates(name, paths), log);
    match sp_probe(sp_candidates(name, paths), log) {
        SProbe::Found(path, bytes) => {
            match sp_parse_text(bytes) {
                Option::Some(dm) => {
                    lemma_resolve_fetch_unanswered(dm, log, PATCH_DEPTH_LIMIT as nat);
                },
                Option::None => {},
            }
        },
        _ => {},
    }
}

} // verus!
