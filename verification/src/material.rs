//! Material-description semantics: parameter lookup, flag and number
//! validation, patch inheritance, and shader classification.
//!
//! A parsed document (see `vdf`) is read here: the shader class picks the
//! handling (the water class without a base texture short-circuits to a
//! fixed translucent descriptor; the patch class names another material to
//! include), and the root parameters supply the base texture, the bump map,
//! translucency, and the alpha-test cutoff.

use vstd::prelude::*;
use crate::bytestr::{bytes_eq, copy_bytes};
use crate::vdf::{MaterialDoc, DocModel, ParamValue, ValModel, doc_model, params_model, pairs_model};

verus! {

/// Why one material failed to resolve. Each variant names the first step
/// that went wrong; the caller substitutes the fallback descriptor.
#[derive(Clone, Copy, Debug, PartialEq, Eq, Structural)]
pub enum MaterialError {
    /// No search-path candidate held the material's description.
    NotFound,
    /// The located description text did not parse.
    ParseFailed,
    /// A patch chain was still unresolved when the depth bound ran out.
    PatchDepthExceeded,
    /// A patch description lacked a usable include path.
    PatchIncludeMissing,
    /// The description names no base texture (and is not textureless water).
    NoBaseTexture,
    /// A boolean parameter held neither a true nor a false value.
    InvalidFlag,
    /// A numeric parameter was not a decimal number.
    InvalidNumber,
    /// The base texture's bytes were absent.
    TextureNotFound,
    /// The base texture's bytes did not decode.
    TextureUndecodable,
}

/// The bytes of `$basetexture`.
pub open spec fn p_basetexture() -> Seq<u8> {
    seq![36u8, 98u8, 97u8, 115u8, 101u8, 116u8, 101u8, 120u8, 116u8, 117u8, 114u8, 101u8]
}

fn lit_basetexture() -> (r: Vec<u8>)
    ensures
        r@ == p_basetexture(),
{
    let r: Vec<u8> = vec![36, 98, 97, 115, 101, 116, 101, 120, 116, 117, 114, 101];
    proof {
        assert(r@ =~= p_basetexture());
    }
    r
}

/// The bytes of `$bumpmap`.
pub open spec fn p_bumpmap() -> Seq<u8> {
    seq![36u8, 98u8, 117u8, 109u8, 112u8, 109u8, 97u8, 112u8]
}

fn lit_bumpmap() -> (r: Vec<u8>)
    ensures
        r@ == p_bumpmap(),
{
    let r: Vec<u8> = vec![36, 98, 117, 109, 112, 109, 97, 112];
    proof {
        assert(r@ =~= p_bumpmap());
    }
    r
}

/// The bytes of `$translucent`.
pub open spec fn p_translucent() -> Seq<u8> {
    seq![36u8, 116u8, 114u8, 97u8, 110u8, 115u8, 108u8, 117u8, 99u8, 101u8, 110u8, 116u8]
}

fn lit_translucent() -> (r: Vec<u8>)
    ensures
        r@ == p_translucent(),
{
    let r: Vec<u8> = vec![36, 116, 114, 97, 110, 115, 108, 117, 99, 101, 110, 116];
    proof {
        assert(r@ =~= p_translucent());
    }
    r
}

/// The bytes of `$alphatest`.
pub open spec fn p_alphatest() -> Seq<u8> {
    seq![36u8, 97u8, 108u8, 112u8, 104u8, 97u8, 116u8, 101u8, 115u8, 116u8]
}

fn lit_alphatest() -> (r: Vec<u8>)
    ensures
        r@ == p_alphatest(),
{
    let r: Vec<u8> = vec![36, 97, 108, 112, 104, 97, 116, 101, 115, 116];
    proof {
        assert(r@ =~= p_alphatest());
    }
    r
}

/// The bytes of `$alphatestreference`.
pub open spec fn p_alphatestreference() -> Seq<u8> {
    seq![36u8, 97u8, 108u8, 112u8, 104u8, 97u8, 116u8, 101u8, 115u8, 116u8, 114u8, 101u8, 102u8, 101u8, 114u8, 101u8, 110u8, 99u8, 101u8]
}

fn lit_alphatestreference() -> (r: Vec<u8>)
    ensures
        r@ == p_alphatestreference(),
{
    let r: Vec<u8> = vec![36, 97, 108, 112, 104, 97, 116, 101, 115, 116, 114, 101, 102, 101, 114, 101, 110, 99, 101];
    proof {
        assert(r@ =~= p_alphatestreference());
    }
    r
}

/// The bytes of `$surfaceprop`.
pub open spec fn p_surfaceprop() -> Seq<u8> {
    seq![36u8, 115u8, 117u8, 114u8, 102u8, 97u8, 99u8, 101u8, 112u8, 114u8, 111u8, 112u8]
}

fn lit_surfaceprop() -> (r: Vec<u8>)
    ensures
        r@ == p_surfaceprop(),
{
    let r: Vec<u8> = vec![36, 115, 117, 114, 102, 97, 99, 101, 112, 114, 111, 112];
    proof {
        assert(r@ =~= p_surfaceprop());
    }
    r
}

/// The bytes of `include`.
pub open spec fn p_include() -> Seq<u8> {
    seq![105u8, 110u8, 99u8, 108u8, 117u8, 100u8, 101u8]
}

fn lit_include() -> (r: Vec<u8>)
    ensures
        r@ == p_include(),
{
    let r: Vec<u8> = vec![105, 110, 99, 108, 117, 100, 101];
    proof {
        assert(r@ =~= p_include());
    }
    r
}

/// The bytes of `replace`.
pub open spec fn p_replace() -> Seq<u8> {
    seq![114u8, 101u8, 112u8, 108u8, 97u8, 99u8, 101u8]
}

fn lit_replace() -> (r: Vec<u8>)
    ensures
        r@ == p_replace(),
{
    let r: Vec<u8> = vec![114, 101, 112, 108, 97, 99, 101];
    proof {
        assert(r@ =~= p_replace());
    }
    r
}

/// The bytes of `patch`.
pub open spec fn p_patch() -> Seq<u8> {
    seq![112u8, 97u8, 116u8, 99u8, 104u8]
}

fn lit_patch() -> (r: Vec<u8>)
    ensures
        r@ == p_patch(),
{
    let r: Vec<u8> = vec![112, 97, 116, 99, 104];
    proof {
        assert(r@ =~= p_patch());
    }
    r
}

/// The bytes of `water`.
pub open spec fn p_water() -> Seq<u8> {
    seq![119u8, 97u8, 116u8, 101u8, 114u8]
}

fn lit_water() -> (r: Vec<u8>)
    ensures
        r@ == p_water(),
{
    let r: Vec<u8> = vec![119, 97, 116, 101, 114];
    proof {
        assert(r@ =~= p_water());
    }
    r
}

/// The bytes of `glass`.
pub open spec fn p_glass() -> Seq<u8> {
    seq![103u8, 108u8, 97u8, 115u8, 115u8]
}

fn lit_glass() -> (r: Vec<u8>)
    ensures
        r@ == p_glass(),
{
    let r: Vec<u8> = vec![103, 108, 97, 115, 115];
    proof {
        assert(r@ =~= p_glass());
    }
    r
}

/// The bytes of `1`.
pub open spec fn p_one() -> Seq<u8> {
    seq![49u8]
}

fn lit_one() -> (r: Vec<u8>)
    ensures
        r@ == p_one(),
{
    let r: Vec<u8> = vec![49];
    proof {
        assert(r@ =~= p_one());
    }
    r
}

/// The bytes of `true`.
pub open spec fn p_truelit() -> Seq<u8> {
    seq![116u8, 114u8, 117u8, 101u8]
}

fn lit_truelit() -> (r: Vec<u8>)
    ensures
        r@ == p_truelit(),
{
    let r: Vec<u8> = vec![116, 114, 117, 101];
    proof {
        assert(r@ =~= p_truelit());
    }
    r
}

/// The bytes of `0`.
pub open spec fn p_zero() -> Seq<u8> {
    seq![48u8]
}

fn lit_zero() -> (r: Vec<u8>)
    ensures
        r@ == p_zero(),
{
    let r: Vec<u8> = vec![48];
    proof {
        assert(r@ =~= p_zero());
    }
    r
}

/// The bytes of `false`.
pub open spec fn p_falselit() -> Seq<u8> {
    seq![102u8, 97u8, 108u8, 115u8, 101u8]
}

fn lit_falselit() -> (r: Vec<u8>)
    ensures
        r@ == p_falselit(),
{
    let r: Vec<u8> = vec![102, 97, 108, 115, 101];
    proof {
        assert(r@ =~= p_falselit());
    }
    r
}
// --- parameter lookup ----------------------------------------------------

/// Value of the first parameter named `key`, if any.
pub open spec fn sp_lookup(params: Seq<(Seq<u8>, ValModel)>, key: Seq<u8>) -> Option<ValModel>
    decreases params.len(),
{
    if params.len() == 0 {
        None
    } else if params[0].0 == key {
        Some(params[0].1)
    } else {
        sp_lookup(params.skip(1), key)
    }
}

/// String value of the first parameter named `key`; a nested table where a
/// string is expected counts as absent.
pub open spec fn sp_lookup_str(params: Seq<(Seq<u8>, ValModel)>, key: Seq<u8>) -> Option<Seq<u8>> {
    match sp_lookup(params, key) {
        Option::Some(ValModel::Str(v)) => Some(v),
        _ => None,
    }
}

/// Nested-table value of the first parameter named `key`; a string where a
/// table is expected counts as absent.
pub open spec fn sp_lookup_sub(params: Seq<(Seq<u8>, ValModel)>, key: Seq<u8>) -> Option<
    Seq<(Seq<u8>, Seq<u8>)>,
> {
    match sp_lookup(params, key) {
        Option::Some(ValModel::Sub(v)) => Some(v),
        _ => None,
    }
}

/// Position of the first parameter named `key`.
fn find_param(params: &Vec<(Vec<u8>, ParamValue)>, key: &[u8]) -> (r: Option<usize>)
    ensures
        match r {
            Option::None => sp_lookup(params_model(params@), key@) is None,
            Option::Some(i) => i < params@.len() && params@[i as int].0@ == key@ && sp_lookup(
                params_model(params@),
                key@,
            ) == Some(crate::vdf::val_model(params@[i as int].1)),
        },
{
    let ghost m = params_model(params@);
    let mut i: usize = 0;
    proof {
        assert(m.skip(0) =~= m);
    }
    while i < params.len()
        invariant
            i <= params@.len(),
            m == params_model(params@),
            sp_lookup(m, key@) == sp_lookup(m.skip(i as int), key@),
        decreases params.len() - i,
    {
        if bytes_eq(params[i].0.as_slice(), key) {
            proof {
                assert(m.skip(i as int)[0] == m[i as int]);
            }
            return Some(i);
        }
        proof {
            assert(m.skip(i as int)[0] == m[i as int]);
            assert(m.skip(i as int).skip(1) =~= m.skip(i + 1));
        }
        i = i + 1;
    }
    None
}

/// Look a string parameter up.
pub fn lookup_str(doc: &MaterialDoc, key: &[u8]) -> (r: Option<Vec<u8>>)
    ensures
        match r {
            Option::None => sp_lookup_str(doc_model(*doc).params, key@) is None,
            Option::Some(v) => sp_lookup_str(doc_model(*doc).params, key@) == Some(v@),
        },
{
    match find_param(&doc.params, key) {
        Option::None => None,
        Option::Some(i) => {
            match &doc.params[i].1 {
                ParamValue::Str(v) => Some(copy_bytes(v.as_slice())),
                ParamValue::Sub(_) => None,
            }
        },
    }
}

/// Copy a nested table's entry list.
fn copy_pairs(v: &Vec<(Vec<u8>, Vec<u8>)>) -> (r: Vec<(Vec<u8>, Vec<u8>)>)
    ensures
        pairs_model(r@) == pairs_model(v@),
{
    let mut r: Vec<(Vec<u8>, Vec<u8>)> = Vec::new();
    let mut i: usize = 0;
    while i < v.len()
        invariant
            i <= v@.len(),
            pairs_model(r@) == pairs_model(v@.take(i as int)),
        decreases v.len() - i,
    {
        let pair = (copy_bytes(v[i].0.as_slice()), copy_bytes(v[i].1.as_slice()));
        r.push(pair);
        proof {
            assert(pairs_model(v@.take(i + 1)) =~= pairs_model(v@.take(i as int)).push(
                (v@[i as int].0@, v@[i as int].1@),
            ));
            assert(pairs_model(r@) =~= pairs_model(v@.take(i + 1)));
        }
        i = i + 1;
    }
    proof {
        assert(v@.take(v@.len() as int) =~= v@);
    }
    r
}

/// Look a nested-table parameter up.
pub fn lookup_sub(doc: &MaterialDoc, key: &[u8]) -> (r: Option<Vec<(Vec<u8>, Vec<u8>)>>)
    ensures
        match r {
            Option::None => sp_lookup_sub(doc_model(*doc).params, key@) is None,
            Option::Some(v) => sp_lookup_sub(doc_model(*doc).params, key@) == Some(
                pairs_model(v@),
            ),
        },
{
    match find_param(&doc.params, key) {
        Option::None => None,
        Option::Some(i) => {
            match &doc.params[i].1 {
                ParamValue::Str(_) => None,
                ParamValue::Sub(v) => Some(copy_pairs(v)),
            }
        },
    }
}

// --- flags and numbers ---------------------------------------------------

/// A value that sets a boolean parameter.
pub open spec fn sp_truthy(v: Seq<u8>) -> bool {
    v == p_one() || v == p_truelit()
}

/// A value that clears a boolean parameter.
pub open spec fn sp_falsy(v: Seq<u8>) -> bool {
    v == p_zero() || v == p_falselit()
}

/// Boolean parameter `key`: absent means false; any other value than the
/// true and false spellings is an error.
pub open spec fn sp_flag(params: Seq<(Seq<u8>, ValModel)>, key: Seq<u8>) -> Result<
    bool,
    MaterialError,
> {
    match sp_lookup_str(params, key) {
        Option::None => Ok(false),
        Option::Some(v) => if sp_truthy(v) {
            Ok(true)
        } else if sp_falsy(v) {
            Ok(false)
        } else {
            Err(MaterialError::InvalidFlag)
        },
    }
}

/// Read a boolean parameter.
pub fn flag_param(doc: &MaterialDoc, key: &[u8]) -> (r: Result<bool, MaterialError>)
    ensures
        r == sp_flag(doc_model(*doc).params, key@),
{
    match lookup_str(doc, key) {
        Option::None => Ok(false),
        Option::Some(v) => {
            let one = lit_one();
            let tru = lit_truelit();
            let zero = lit_zero();
            let fal = lit_falselit();
            if bytes_eq(v.as_slice(), one.as_slice()) || bytes_eq(v.as_slice(), tru.as_slice()) {
                Ok(true)
            } else if bytes_eq(v.as_slice(), zero.as_slice()) || bytes_eq(
                v.as_slice(),
                fal.as_slice(),
            ) {
                Ok(false)
            } else {
                Err(MaterialError::InvalidFlag)
            }
        },
    }
}

/// A decimal digit.
pub open spec fn is_digit(b: u8) -> bool {
    48 <= b && b <= 57
}

/// Rest of a decimal literal: digits with at most one point, at least one
/// digit over the whole literal.
pub open spec fn sp_dec_rest(s: Seq<u8>, seen_dot: bool, seen_digit: bool) -> bool
    decreases s.len(),
{
    if s.len() == 0 {
        seen_digit
    } else if is_digit(s[0]) {
        sp_dec_rest(s.skip(1), seen_dot, true)
    } else if s[0] == 46 && !seen_dot {
        sp_dec_rest(s.skip(1), true, seen_digit)
    } else {
        false
    }
}

/// A decimal number: an optional sign, digits, at most one decimal point,
/// at least one digit.
pub open spec fn sp_is_decimal(v: Seq<u8>) -> bool {
    if v.len() > 0 && (v[0] == 43 || v[0] == 45) {
        sp_dec_rest(v.skip(1), false, false)
    } else {
        sp_dec_rest(v, false, false)
    }
}

/// Check a decimal literal.
pub fn is_decimal(v: &[u8]) -> (r: bool)
    ensures
        r == sp_is_decimal(v@),
{
    let mut i: usize = 0;
    if v.len() > 0 && (v[0] == 43 || v[0] == 45) {
        i = 1;
    }
    let mut seen_dot = false;
    let mut seen_digit = false;
    proof {
        assert(v@.skip(0) =~= v@);
    }
    while i < v.len()
        invariant
            i <= v@.len(),
            sp_is_decimal(v@) == sp_dec_rest(v@.skip(i as int), seen_dot, seen_digit),
        decreases v.len() - i,
    {
        let b = v[i];
        proof {
            assert(v@.skip(i as int)[0] == v@[i as int]);
            assert(v@.skip(i as int).skip(1) =~= v@.skip(i + 1));
        }
        if 48 <= b && b <= 57 {
            seen_digit = true;
        } else if b == 46 && !seen_dot {
            seen_dot = true;
        } else {
            return false;
        }
        i = i + 1;
    }
    seen_digit
}

// --- slash normalisation -------------------------------------------------

/// Backslashes replaced by forward slashes.
pub open spec fn norm_slash_byte(b: u8) -> u8 {
    if b == 92 {
        47
    } else {
        b
    }
}

/// Path with backslashes replaced by forward slashes.
pub open spec fn norm_slashes(s: Seq<u8>) -> Seq<u8> {
    s.map_values(|b: u8| norm_slash_byte(b))
}

/// Replace backslashes by forward slashes.
pub fn normalize_slashes(s: &[u8]) -> (r: Vec<u8>)
    ensures
        r@ == norm_slashes(s@),
{
    let mut r: Vec<u8> = Vec::new();
    let mut i: usize = 0;
    while i < s.len()
        invariant
            i <= s@.len(),
            r@ == norm_slashes(s@.take(i as int)),
        decreases s.len() - i,
    {
        let b = s[i];
        if b == 92 {
            r.push(47);
        } else {
            r.push(b);
        }
        proof {
            assert(norm_slashes(s@.take(i + 1)) =~= norm_slashes(s@.take(i as int)).push(
                norm_slash_byte(s@[i as int]),
            ));
        }
        i = i + 1;
    }
    proof {
        assert(s@.take(s@.len() as int) =~= s@);
    }
    r
}

// --- patch inheritance ---------------------------------------------------

/// Is this document a patch (it includes and overrides another material)?
pub open spec fn sp_is_patch(d: DocModel) -> bool {
    d.shader == p_patch()
}

/// The include path a patch names, slash-normalised; `None` when absent.
pub open spec fn sp_patch_include(d: DocModel) -> Option<Seq<u8>> {
    match sp_lookup_str(d.params, p_include()) {
        Option::None => None,
        Option::Some(p) => Some(norm_slashes(p)),
    }
}

/// The override entries of a patch: its `replace` table, or empty.
pub open spec fn sp_patch_overrides(d: DocModel) -> Seq<(Seq<u8>, Seq<u8>)> {
    match sp_lookup_sub(d.params, p_replace()) {
        Option::None => Seq::empty(),
        Option::Some(t) => t,
    }
}

/// Is this document a patch?
pub fn is_patch(doc: &MaterialDoc) -> (r: bool)
    ensures
        r == sp_is_patch(doc_model(*doc)),
{
    let p = lit_patch();
    bytes_eq(doc.shader.as_slice(), p.as_slice())
}

/// The include path of a patch document.
pub fn patch_include(doc: &MaterialDoc) -> (r: Option<Vec<u8>>)
    ensures
        match r {
            Option::None => sp_patch_include(doc_model(*doc)) is None,
            Option::Some(p) => sp_patch_include(doc_model(*doc)) == Some(p@),
        },
{
    let inc = lit_include();
    match lookup_str(doc, inc.as_slice()) {
        Option::None => None,
        Option::Some(p) => Some(normalize_slashes(p.as_slice())),
    }
}

/// The override entries of a patch document.
pub fn patch_overrides(doc: &MaterialDoc) -> (r: Vec<(Vec<u8>, Vec<u8>)>)
    ensures
        pairs_model(r@) == sp_patch_overrides(doc_model(*doc)),
{
    let rep = lit_replace();
    match lookup_sub(doc, rep.as_slice()) {
        Option::None => {
            let r: Vec<(Vec<u8>, Vec<u8>)> = Vec::new();
            proof {
                assert(pairs_model(r@) =~= Seq::<(Seq<u8>, Seq<u8>)>::empty());
            }
            r
        },
        Option::Some(t) => t,
    }
}

/// One shallow field replacement: the first parameter named `k` is replaced
/// by the string value `v`; a fresh parameter is appended when none exists.
pub open spec fn sp_set_param(params: Seq<(Seq<u8>, ValModel)>, k: Seq<u8>, v: Seq<u8>) -> Seq<
    (Seq<u8>, ValModel),
>
    decreases params.len(),
{
    if params.len() == 0 {
        seq![(k, ValModel::Str(v))]
    } else if params[0].0 == k {
        seq![(k, ValModel::Str(v))] + params.skip(1)
    } else {
        seq![params[0]] + sp_set_param(params.skip(1), k, v)
    }
}

/// All overrides applied in order, each as a shallow field replacement.
pub open spec fn sp_apply_overrides(
    params: Seq<(Seq<u8>, ValModel)>,
    ovr: Seq<(Seq<u8>, Seq<u8>)>,
) -> Seq<(Seq<u8>, ValModel)>
    decreases ovr.len(),
{
    if ovr.len() == 0 {
        params
    } else {
        sp_apply_overrides(sp_set_param(params, ovr[0].0, ovr[0].1), ovr.skip(1))
    }
}

proof fn lemma_set_param_update(m: Seq<(Seq<u8>, ValModel)>, k: Seq<u8>, v: Seq<u8>, fi: int)
    requires
        0 <= fi < m.len(),
        forall|j: int| 0 <= j < fi ==> m[j].0 != k,
        m[fi].0 == k,
    ensures
        sp_set_param(m, k, v) =~= m.update(fi, (k, ValModel::Str(v))),
    decreases fi,
{
    if fi == 0 {
        assert(sp_set_param(m, k, v) =~= seq![(k, ValModel::Str(v))] + m.skip(1));
        assert(seq![(k, ValModel::Str(v))] + m.skip(1) =~= m.update(0, (k, ValModel::Str(v))));
    } else {
        assert(m[0].0 != k);
        lemma_set_param_update(m.skip(1), k, v, fi - 1);
        assert(m.skip(1).update(fi - 1, (k, ValModel::Str(v))) =~= m.update(
            fi,
            (k, ValModel::Str(v)),
        ).skip(1));
        assert(seq![m[0]] + m.skip(1).update(fi - 1, (k, ValModel::Str(v))) =~= m.update(
            fi,
            (k, ValModel::Str(v)),
        ));
    }
}

proof fn lemma_set_param_append(m: Seq<(Seq<u8>, ValModel)>, k: Seq<u8>, v: Seq<u8>)
    requires
        forall|j: int| 0 <= j < m.len() ==> m[j].0 != k,
    ensures
        sp_set_param(m, k, v) =~= m.push((k, ValModel::Str(v))),
    decreases m.len(),
{
    if m.len() == 0 {
        assert(sp_set_param(m, k, v) =~= m.push((k, ValModel::Str(v))));
    } else {
        assert(m[0].0 != k);
        lemma_set_param_append(m.skip(1), k, v);
        assert(seq![m[0]] + m.skip(1).push((k, ValModel::Str(v))) =~= m.push(
            (k, ValModel::Str(v)),
        ));
    }
}

/// Replace the first parameter named `k` by the string `v`, appending when
/// no parameter has that name.
fn set_param(params: &mut Vec<(Vec<u8>, ParamValue)>, k: &[u8], v: &[u8])
    ensures
        params_model(final(params)@) == sp_set_param(params_model(old(params)@), k@, v@),
{
    let ghost m = params_model(params@);
    let mut i: usize = 0;
    while i < params.len()
        invariant
            i <= params@.len(),
            params@ == old(params)@,
            m == params_model(params@),
            forall|j: int| 0 <= j < i ==> m[j].0 != k@,
        decreases params.len() - i,
    {
        if bytes_eq(params[i].0.as_slice(), k) {
            let pair = (copy_bytes(k), ParamValue::Str(copy_bytes(v)));
            params.set(i, pair);
            proof {
                lemma_set_param_update(m, k@, v@, i as int);
                assert(params_model(params@) =~= m.update(i as int, (k@, ValModel::Str(v@))));
            }
            return ;
        }
        i = i + 1;
    }
    let pair = (copy_bytes(k), ParamValue::Str(copy_bytes(v)));
    params.push(pair);
    proof {
        lemma_set_param_append(m, k@, v@);
        assert(params_model(params@) =~= m.push((k@, ValModel::Str(v@))));
    }
}

/// Apply a patch's overrides to an included material's parameters, in
/// order, each as a shallow field replacement (nested tables are never
/// merged).
pub fn apply_overrides(params: &mut Vec<(Vec<u8>, ParamValue)>, ovr: &Vec<(Vec<u8>, Vec<u8>)>)
    ensures
        params_model(final(params)@) == sp_apply_overrides(
            params_model(old(params)@),
            pairs_model(ovr@),
        ),
{
    let ghost om = pairs_model(ovr@);
    let mut i: usize = 0;
    proof {
        assert(om.skip(0) =~= om);
    }
    while i < ovr.len()
        invariant
            i <= ovr@.len(),
            om == pairs_model(ovr@),
            sp_apply_overrides(params_model(old(params)@), om) == sp_apply_overrides(
                params_model(params@),
                om.skip(i as int),
            ),
        decreases ovr.len() - i,
    {
        proof {
            assert(om.skip(i as int)[0] == om[i as int]);
            assert(om.skip(i as int).skip(1) =~= om.skip(i + 1));
        }
        set_param(params, ovr[i].0.as_slice(), ovr[i].1.as_slice());
        i = i + 1;
    }
}

// --- classification ------------------------------------------------------

/// A classified material: tint, texture names, and render flags, before
/// any texture bytes are decoded.
pub struct MaterialInfo {
    /// Colour tint, RGBA.
    pub color: [u8; 4],
    /// Base texture name; `None` only for textureless water.
    pub base_texture: Option<Vec<u8>>,
    /// Optional bump map name.
    pub bump_map: Option<Vec<u8>>,
    /// Render with translucency.
    pub translucent: bool,
    /// Alpha-test cutoff as its decimal literal; `None` when not tested.
    pub alpha_test: Option<Vec<u8>>,
}

/// Mathematical value of a classified material.
pub struct InfoModel {
    pub color: Seq<u8>,
    pub base_texture: Option<Seq<u8>>,
    pub bump_map: Option<Seq<u8>>,
    pub translucent: bool,
    pub alpha_test: Option<Seq<u8>>,
}

pub open spec fn info_model(i: MaterialInfo) -> InfoModel {
    InfoModel {
        color: i.color@,
        base_texture: match i.base_texture {
            Option::None => None,
            Option::Some(v) => Some(v@),
        },
        bump_map: match i.bump_map {
            Option::None => None,
            Option::Some(v) => Some(v@),
        },
        translucent: i.translucent,
        alpha_test: match i.alpha_test {
            Option::None => None,
            Option::Some(v) => Some(v@),
        },
    }
}

/// The fixed tint of textureless water: a translucent blue.
pub open spec fn water_color() -> Seq<u8> {
    seq![82u8, 180u8, 217u8, 128u8]
}

/// Opaque white: the tint of every textured material.
pub open spec fn white_color() -> Seq<u8> {
    seq![255u8, 255u8, 255u8, 255u8]
}

/// The alpha-test cutoff: the validated decimal override, or `1` when the
/// flag is set without an override.
pub open spec fn sp_alpha_cutoff(params: Seq<(Seq<u8>, ValModel)>) -> Result<
    Option<Seq<u8>>,
    MaterialError,
> {
    match sp_flag(params, p_alphatest()) {
        Result::Err(e) => Err(e),
        Result::Ok(false) => Ok(None),
        Result::Ok(true) => match sp_lookup_str(params, p_alphatestreference()) {
            Option::None => Ok(Some(p_one())),
            Option::Some(v) => if sp_is_decimal(v) {
                Ok(Some(v))
            } else {
                Err(MaterialError::InvalidNumber)
            },
        },
    }
}

/// Classify a resolved (patch-free) document.
///
/// The water shader without a base texture short-circuits to the fixed
/// translucent blue descriptor. Any other shader must name a base texture.
/// Translucency is the explicit flag or the glass surface heuristic; the
/// alpha-test flag supplies a cutoff of `1` unless a decimal override is
/// present.
pub open spec fn sp_classify(d: DocModel) -> Result<InfoModel, MaterialError> {
    if sp_is_patch(d) {
        Err(MaterialError::PatchDepthExceeded)
    } else {
        let water = d.shader == p_water();
        let base = sp_lookup_str(d.params, p_basetexture());

        if water && base is None {
            Ok(
                InfoModel {
                    color: water_color(),
                    base_texture: None,
                    bump_map: None,
                    translucent: true,
                    alpha_test: None,
                },
            )
        } else {
            match base {
                Option::None => Err(MaterialError::NoBaseTexture),
                Option::Some(b) => {
                    match sp_flag(d.params, p_translucent()) {
                        Result::Err(e) => Err(e),
                        Result::Ok(tflag) => {
                            let glass = sp_lookup_str(d.params, p_surfaceprop()) == Some(
                                p_glass(),
                            );
                            match sp_alpha_cutoff(d.params) {
                                Result::Err(e) => Err(e),
                                Result::Ok(alpha) => Ok(
                                    InfoModel {
                                        color: white_color(),
                                        base_texture: Some(norm_slashes(b)),
                                        bump_map: match sp_lookup_str(d.params, p_bumpmap()) {
                                            Option::None => None,
                                            Option::Some(m) => Some(norm_slashes(m)),
                                        },
                                        translucent: tflag || glass,
                                        alpha_test: alpha,
                                    },
                                ),
                            }
                        },
                    }
                },
            }
        }
    }
}

/// Classify a document; mirrors `sp_classify`.
pub fn classify_doc(doc: &MaterialDoc) -> (r: Result<MaterialInfo, MaterialError>)
    ensures
        match r {
            Result::Ok(i) => sp_classify(doc_model(*doc)) == Ok::<InfoModel, MaterialError>(info_model(i)),
            Result::Err(e) => sp_classify(doc_model(*doc)) == Err::<InfoModel, MaterialError>(e),
        },
{
    if is_patch(doc) {
        return Err(MaterialError::PatchDepthExceeded);
    }
    let wat = lit_water();
    let water = bytes_eq(doc.shader.as_slice(), wat.as_slice());
    let bt = lit_basetexture();
    let base = lookup_str(doc, bt.as_slice());
    if water && base.is_none() {
        let color: [u8; 4] = [82, 180, 217, 128];
        proof {
            assert(color@ =~= water_color());
        }
        return Ok(
            MaterialInfo {
                color,
                base_texture: None,
                bump_map: None,
                translucent: true,
                alpha_test: None,
            },
        );
    }
    let base = match base {
        Option::None => {
            return Err(MaterialError::NoBaseTexture);
        },
        Option::Some(b) => b,
    };
    let tr = lit_translucent();
    let tflag = match flag_param(doc, tr.as_slice()) {
        Result::Err(e) => {
            return Err(e);
        },
        Result::Ok(t) => t,
    };
    let sp = lit_surfaceprop();
    let gl = lit_glass();
    let glass = match lookup_str(doc, sp.as_slice()) {
        Option::None => false,
        Option::Some(v) => bytes_eq(v.as_slice(), gl.as_slice()),
    };
    let at = lit_alphatest();
    let atflag = match flag_param(doc, at.as_slice()) {
        Result::Err(e) => {
            return Err(e);
        },
        Result::Ok(t) => t,
    };
    let alpha: Option<Vec<u8>> = if atflag {
        let atr = lit_alphatestreference();
        match lookup_str(doc, atr.as_slice()) {
            Option::None => Some(lit_one()),
            Option::Some(v) => {
                if is_decimal(v.as_slice()) {
                    Some(v)
                } else {
                    return Err(MaterialError::InvalidNumber);
                }
            },
        }
    } else {
        None
    };
    let bm = lit_bumpmap();
    let bump = match lookup_str(doc, bm.as_slice()) {
        Option::None => None,
        Option::Some(m) => Some(normalize_slashes(m.as_slice())),
    };
    let color: [u8; 4] = [255, 255, 255, 255];
    proof {
        assert(color@ =~= white_color());
    }
    Ok(
        MaterialInfo {
            color,
            base_texture: Some(normalize_slashes(base.as_slice())),
            bump_map: bump,
            translucent: tflag || glass,
            alpha_test: alpha,
        },
    )
}

} // verus!
