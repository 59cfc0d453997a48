use levelgeom::material::MaterialError;
use levelgeom::resolve::{AssetLog, LoadResult, MaterialData, MaterialOutcome, load_material,
    load_material_fallback, material_path, texture_path};
use levelgeom::vdf::{ParamValue, parse_material_text};

/// Drive the fetch-record-retry loop against a fixed asset set; a path not
/// in the set is recorded as absent.
fn resolve_with(name: &[u8], paths: Vec<Vec<u8>>, assets: &[(&[u8], Vec<u8>)]) -> MaterialData {
    let mut log = AssetLog::new();
    for _round in 0..100 {
        match load_material_fallback(name, &paths, &log) {
            MaterialOutcome::Fetch(p) => {
                let found = assets.iter().find(|(ap, _)| *ap == p.as_slice());
                let response = found.map(|(_, bytes)| bytes.clone());
                log.record(p, response);
            }
            MaterialOutcome::Done(d) => return d,
        }
    }
    panic!("material resolution did not conclude within the round bound");
}

fn resolve_strict(
    name: &[u8],
    paths: Vec<Vec<u8>>,
    assets: &[(&[u8], Vec<u8>)],
) -> Result<MaterialData, MaterialError> {
    let mut log = AssetLog::new();
    for _round in 0..100 {
        match load_material(name, &paths, &log) {
            LoadResult::Fetch(p) => {
                let found = assets.iter().find(|(ap, _)| *ap == p.as_slice());
                let response = found.map(|(_, bytes)| bytes.clone());
                log.record(p, response);
            }
            LoadResult::Done(r) => return r,
        }
    }
    panic!("material resolution did not conclude within the round bound");
}

#[test]
fn parse_simple_document() {
    let text = b"\"LightmappedGeneric\"\n{\n\t\"$basetexture\" \"some/Tex\"\n\t// a comment\n\t$translucent 1\n}\n";
    let doc = parse_material_text(text).expect("should parse");
    assert_eq!(doc.shader, b"lightmappedgeneric".to_vec());
    assert_eq!(doc.params.len(), 2);
    assert_eq!(doc.params[0].0, b"$basetexture".to_vec());
    match &doc.params[0].1 {
        ParamValue::Str(v) => assert_eq!(v, &b"some/tex".to_vec()),
        _ => panic!("expected a string value"),
    }
    match &doc.params[1].1 {
        ParamValue::Str(v) => assert_eq!(v, &b"1".to_vec()),
        _ => panic!("expected a string value"),
    }
}

#[test]
fn parse_rejects_trailing_tokens() {
    assert!(parse_material_text(b"\"a\" { } extra").is_none());
    assert!(parse_material_text(b"").is_none());
    assert!(parse_material_text(b"\"a\" \"b\"").is_none());
}

#[test]
fn parse_keeps_nested_table_strings_and_skips_deeper_tables() {
    let text = b"patch { include \"materials/base.vmt\" replace { \"$alpha\" \"0.5\" deep { x y } \"$k\" \"v\" } }";
    let doc = parse_material_text(text).expect("should parse");
    assert_eq!(doc.shader, b"patch".to_vec());
    match &doc.params[1].1 {
        ParamValue::Sub(pairs) => {
            assert_eq!(pairs.len(), 2);
            assert_eq!(pairs[0].0, b"$alpha".to_vec());
            assert_eq!(pairs[1].0, b"$k".to_vec());
        }
        _ => panic!("expected a nested table"),
    }
}

#[test]
fn fallback_missing_material(){
    for paths in [vec![], vec![b"props/".to_vec(), b"custom/".to_vec()]] {
        let d = resolve_with(b"does/not_exist", paths, &[]);
        assert_eq!(d.color, [255, 0, 255, 255]);
        assert!(d.texture.is_none());
        assert!(d.bump_map.is_none());
        assert!(d.alpha_test.is_none());
        assert!(!d.translucent);
        assert_eq!(d.path, b"does/not_exist".to_vec());
    }
}

#[test]
fn patch_cycle_falls_back() {
    let cyclic = b"patch { include \"materials/selfref.vmt\" replace { \"$translucent\" \"1\" } }".to_vec();
    let assets: Vec<(&[u8], Vec<u8>)> = vec![(b"materials/selfref.vmt", cyclic)];
    let r = resolve_strict(b"selfref", vec![], &assets);
    assert_eq!(r.unwrap_err(), MaterialError::PatchDepthExceeded);
    let d = resolve_with(b"selfref", vec![], &assets);
    assert_eq!(d.color, [255, 0, 255, 255]);
}

#[test]
fn water_without_base_texture_short_circuits() {
    let water = b"Water { $fogenable 1 }".to_vec();
    let assets: Vec<(&[u8], Vec<u8>)> = vec![(b"materials/sea.vmt", water)];
    let d = resolve_with(b"sea", vec![], &assets);
    assert_eq!(d.color, [82, 180, 217, 128]);
    assert!(d.translucent);
    assert!(d.texture.is_none());
    assert_eq!(d.path, b"materials/sea.vmt".to_vec());
}

#[test]
fn patch_resolves_through_include() {
    let patch = b"patch { include \"materials/sea.vmt\" replace { \"$fogenable\" \"0\" } }".to_vec();
    let water = b"Water { $fogenable 1 }".to_vec();
    let assets: Vec<(&[u8], Vec<u8>)> = vec![
        (b"materials/patched.vmt", patch),
        (b"materials/sea.vmt", water),
    ];
    let d = resolve_with(b"patched", vec![], &assets);
    assert_eq!(d.color, [82, 180, 217, 128]);
    assert!(d.translucent);
    assert_eq!(d.path, b"materials/patched.vmt".to_vec());
}

#[test]
fn missing_base_texture_falls_back() {
    let doc = b"LightmappedGeneric { $surfaceprop concrete }".to_vec();
    let assets: Vec<(&[u8], Vec<u8>)> = vec![(b"materials/bare.vmt", doc)];
    let r = resolve_strict(b"bare", vec![], &assets);
    assert_eq!(r.unwrap_err(), MaterialError::NoBaseTexture);
    let d = resolve_with(b"bare", vec![], &assets);
    assert_eq!(d.color, [255, 0, 255, 255]);
}

fn tiny_vtf() -> (Vec<u8>, Vec<u8>) {
    let pixels: Vec<u8> = vec![
        255, 0, 0, 255, 0, 255, 0, 128, 0, 0, 255, 255, 10, 20, 30, 40,
    ];
    let img = image::RgbaImage::from_raw(2, 2, pixels.clone()).unwrap();
    let bytes = vtf::create(image::DynamicImage::ImageRgba8(img), vtf::ImageFormat::Rgba8888)
        .expect("encode should succeed");
    (bytes, pixels)
}

#[test]
fn texture_decode_reproduces_pixels() {
    let (vtf_bytes, pixels) = tiny_vtf();
    let vmt = b"LightmappedGeneric { $basetexture \"test/px\" $translucent 1 }".to_vec();
    let assets: Vec<(&[u8], Vec<u8>)> = vec![
        (b"materials/wall.vmt", vmt),
        (b"materials/test/px.vtf", vtf_bytes),
    ];
    let d = resolve_with(b"wall", vec![], &assets);
    assert_eq!(d.color, [255, 255, 255, 255]);
    assert!(d.translucent);
    let tex = d.texture.expect("base texture should be decoded");
    assert_eq!(tex.name, b"test/px".to_vec());
    assert_eq!(tex.image.width, 2);
    assert_eq!(tex.image.height, 2);
    assert!(tex.image.has_alpha);
    assert_eq!(tex.image.rgba, pixels);
}

#[test]
fn undecodable_texture_falls_back() {
    let vmt = b"LightmappedGeneric { $basetexture \"test/px\" }".to_vec();
    let assets: Vec<(&[u8], Vec<u8>)> = vec![
        (b"materials/wall.vmt", vmt),
        (b"materials/test/px.vtf", b"not a texture".to_vec()),
    ];
    let r = resolve_strict(b"wall", vec![], &assets);
    assert_eq!(r.unwrap_err(), MaterialError::TextureUndecodable);
}

#[test]
fn missing_texture_falls_back() {
    let vmt = b"LightmappedGeneric { $basetexture \"test/px\" }".to_vec();
    let assets: Vec<(&[u8], Vec<u8>)> = vec![(b"materials/wall.vmt", vmt)];
    let r = resolve_strict(b"wall", vec![], &assets);
    assert_eq!(r.unwrap_err(), MaterialError::TextureNotFound);
}

#[test]
fn bump_map_failure_is_tolerated() {
    let (vtf_bytes, _) = tiny_vtf();
    let vmt = b"LightmappedGeneric { $basetexture \"test/px\" $bumpmap \"test/missing\" }".to_vec();
    let assets: Vec<(&[u8], Vec<u8>)> = vec![
        (b"materials/wall.vmt", vmt),
        (b"materials/test/px.vtf", vtf_bytes),
    ];
    let d = resolve_with(b"wall", vec![], &assets);
    assert_eq!(d.color, [255, 255, 255, 255]);
    assert!(d.texture.is_some());
    assert!(d.bump_map.is_none());
}

#[test]
fn alpha_test_cutoff_defaults_to_one() {
    let (vtf_bytes, _) = tiny_vtf();
    let vmt = b"LightmappedGeneric { $basetexture \"test/px\" $alphatest 1 }".to_vec();
    let assets: Vec<(&[u8], Vec<u8>)> = vec![
        (b"materials/wall.vmt", vmt),
        (b"materials/test/px.vtf", vtf_bytes.clone()),
    ];
    let d = resolve_with(b"wall", vec![], &assets);
    assert_eq!(d.alpha_test, Some(b"1".to_vec()));

    let vmt2 = b"LightmappedGeneric { $basetexture \"test/px\" $alphatest 1 $alphatestreference \"0.25\" }".to_vec();
    let assets2: Vec<(&[u8], Vec<u8>)> = vec![
        (b"materials/wall.vmt", vmt2),
        (b"materials/test/px.vtf", vtf_bytes),
    ];
    let d2 = resolve_with(b"wall", vec![], &assets2);
    assert_eq!(d2.alpha_test, Some(b"0.25".to_vec()));
    let cutoff: f32 = String::from_utf8(d2.alpha_test.unwrap()).unwrap().parse().unwrap();
    assert!((cutoff - 0.25).abs() < 1e-6);
}

#[test]
fn invalid_alpha_reference_falls_back() {
    let vmt = b"LightmappedGeneric { $basetexture \"t\" $alphatest 1 $alphatestreference abc }".to_vec();
    let assets: Vec<(&[u8], Vec<u8>)> = vec![(b"materials/wall.vmt", vmt)];
    let r = resolve_strict(b"wall", vec![], &assets);
    assert_eq!(r.unwrap_err(), MaterialError::InvalidNumber);
}

#[test]
fn invalid_flag_falls_back() {
    let vmt = b"LightmappedGeneric { $basetexture \"t\" $translucent maybe }".to_vec();
    let assets: Vec<(&[u8], Vec<u8>)> = vec![(b"materials/wall.vmt", vmt)];
    let r = resolve_strict(b"wall", vec![], &assets);
    assert_eq!(r.unwrap_err(), MaterialError::InvalidFlag);
}

#[test]
fn glass_surface_is_translucent() {
    let (vtf_bytes, _) = tiny_vtf();
    let vmt = b"LightmappedGeneric { $basetexture \"test/px\" $surfaceprop Glass }".to_vec();
    let assets: Vec<(&[u8], Vec<u8>)> = vec![
        (b"materials/pane.vmt", vmt),
        (b"materials/test/px.vtf", vtf_bytes),
    ];
    let d = resolve_with(b"pane", vec![], &assets);
    assert!(d.translucent);
}

#[test]
fn parse_failure_falls_back() {
    let assets: Vec<(&[u8], Vec<u8>)> = vec![(b"materials/junk.vmt", b"{ {".to_vec())];
    let r = resolve_strict(b"junk", vec![], &assets);
    assert_eq!(r.unwrap_err(), MaterialError::ParseFailed);
}

#[test]
fn search_paths_probe_in_order() {
    let water = b"Water { }".to_vec();
    let assets: Vec<(&[u8], Vec<u8>)> = vec![(b"materials/second/glow.vmt", water)];
    let paths = vec![b"first/".to_vec(), b"second/".to_vec()];
    let d = resolve_with(b"glow", paths, &assets);
    assert_eq!(d.path, b"materials/second/glow.vmt".to_vec());
}

#[test]
fn path_building() {
    assert_eq!(material_path(b"Props/Metal.vmt"), b"materials/props/metal.vmt".to_vec());
    assert_eq!(material_path(b"materials/kept/AS-IS.vmt"), b"materials/kept/AS-IS.vmt".to_vec());
    assert_eq!(texture_path(b"/test/px.vtf"), b"materials/test/px.vtf".to_vec());
    assert_eq!(texture_path(b"test/px"), b"materials/test/px.vtf".to_vec());
}

#[test]
fn not_found_error_variant() {
    let r = resolve_strict(b"missing", vec![b"props/".to_vec()], &[]);
    assert_eq!(r.unwrap_err(), MaterialError::NotFound);
}

#[test]
fn patch_without_include_falls_back() {
    let vmt = b"patch { replace { \"$translucent\" \"1\" } }".to_vec();
    let assets: Vec<(&[u8], Vec<u8>)> = vec![(b"materials/hollow.vmt", vmt)];
    let r = resolve_strict(b"hollow", vec![], &assets);
    assert_eq!(r.unwrap_err(), MaterialError::PatchIncludeMissing);
}

#[test]
fn parse_quote_and_comment_edges() {
    // An unterminated quote swallows the rest of the input, so the root
    // table never closes and the document is rejected.
    assert!(parse_material_text(b"water { $fogenable \"1 }").is_none());
    // A comment may end the input without a newline.
    let doc2 = parse_material_text(b"water { } // trailing").expect("should parse");
    assert_eq!(doc2.shader, b"water".to_vec());
    assert!(doc2.params.is_empty());
}

#[test]
fn duplicate_parameters_read_first_occurrence() {
    let vmt = b"Water { $basetexture \"a/b\" }".to_vec();
    let doc = parse_material_text(&vmt).unwrap();
    assert_eq!(doc.params.len(), 1);
    // The first occurrence of a key wins on lookup; a patch override
    // replaces that first occurrence in place.
    let dup = parse_material_text(b"x { k 1 k 2 }").unwrap();
    assert_eq!(dup.params.len(), 2);
    assert_eq!(levelgeom::material::lookup_str(&dup, b"k"), Some(b"1".to_vec()));
}

fn oversized_header_vtf() -> Vec<u8> {
    // A complete 63-byte version 7.1 header whose declared image runs far
    // past the end of the input.
    let mut b = vec![0u8; 63];
    b[0..4].copy_from_slice(b"VTF\0");
    b[4] = 7; // version major
    b[8] = 1; // version minor
    b[12] = 63; // header size (used as the low-res offset)
    b[16] = 4; // width
    b[18] = 4; // height
    b[24] = 1; // frames
    b[52] = 0; // high-res format: 32-bit RGBA
    b[56] = 1; // mip count
    // low-res format: none
    b[57] = 0xFF;
    b[58] = 0xFF;
    b[59] = 0xFF;
    b[60] = 0xFF;
    b
}

fn overflowing_header_vtf() -> Vec<u8> {
    // Declared dimensions whose frame size overflows 32-bit arithmetic.
    let mut b = oversized_header_vtf();
    b[16] = 0xFF;
    b[17] = 0xFF; // width 65535
    b[18] = 0xFF;
    b[19] = 0xFF; // height 65535
    b
}

#[test]
fn truncated_texture_falls_back_cleanly() {
    // The decoder would slice past the end of these bytes; the library's
    // bounds check refuses them and resolution degrades to the fallback.
    let probe = oversized_header_vtf();
    assert!(!levelgeom::texture::vtf_decode_in_bounds(&probe));
    let vmt = b"LightmappedGeneric { $basetexture \"test/px\" }".to_vec();
    let assets: Vec<(&[u8], Vec<u8>)> = vec![
        (b"materials/wall.vmt", vmt),
        (b"materials/test/px.vtf", probe),
    ];
    let r = resolve_strict(b"wall", vec![], &assets);
    assert_eq!(r.unwrap_err(), MaterialError::TextureUndecodable);
    let d = resolve_with(b"wall", vec![], &assets);
    assert_eq!(d.color, [255, 0, 255, 255]);
}

#[test]
fn overflowing_texture_header_is_refused() {
    let probe = overflowing_header_vtf();
    assert!(!levelgeom::texture::vtf_decode_in_bounds(&probe));
    let (good, _) = tiny_vtf();
    // A well-formed container passes the same check.
    assert!(levelgeom::texture::vtf_decode_in_bounds(&good));
}

#[test]
fn textured_water_translucency_follows_flags_alone() {
    // Only the textureless-water case forces translucency; a water material
    // with a base texture is translucent exactly per the explicit flag or
    // the glass surface property.
    let (vtf_bytes, _) = tiny_vtf();
    let vmt = b"Water { $basetexture \"test/px\" }".to_vec();
    let assets: Vec<(&[u8], Vec<u8>)> = vec![
        (b"materials/pond.vmt", vmt),
        (b"materials/test/px.vtf", vtf_bytes.clone()),
    ];
    let d = resolve_with(b"pond", vec![], &assets);
    assert!(d.texture.is_some());
    assert!(!d.translucent);

    let vmt2 = b"Water { $basetexture \"test/px\" $translucent 1 }".to_vec();
    let assets2: Vec<(&[u8], Vec<u8>)> = vec![
        (b"materials/pond.vmt", vmt2),
        (b"materials/test/px.vtf", vtf_bytes),
    ];
    let d2 = resolve_with(b"pond", vec![], &assets2);
    assert!(d2.translucent);
}

#[test]
fn zero_width_block_compressed_header_is_refused() {
    // A complete version 7.0 header declaring a block-compressed image of
    // width 0: every size is 0 and in bounds, but the block decompressor
    // would chunk its output by zero.
    let mut b = vec![0u8; 63];
    b[0..4].copy_from_slice(b"VTF\0");
    b[4] = 7; // version major
    b[8] = 0; // version minor
    b[12] = 63; // header size
    b[16] = 0; // width 0
    b[18] = 1; // height 1
    b[24] = 1; // frames
    b[52] = 13; // high-res format: first block-compressed code
    b[56] = 1; // mip count
    b[57] = 0xFF;
    b[58] = 0xFF;
    b[59] = 0xFF;
    b[60] = 0xFF; // low-res format: none
    assert!(!levelgeom::texture::vtf_decode_in_bounds(&b));
    let vmt = b"LightmappedGeneric { $basetexture \"test/px\" }".to_vec();
    let assets: Vec<(&[u8], Vec<u8>)> = vec![
        (b"materials/wall.vmt", vmt),
        (b"materials/test/px.vtf", b),
    ];
    let r = resolve_strict(b"wall", vec![], &assets);
    assert_eq!(r.unwrap_err(), MaterialError::TextureUndecodable);
}

#[test]
fn non_text_description_is_rejected() {
    // The boundary decodes descriptions as UTF-8 text; other bytes fail.
    assert!(parse_material_text(b"water { k \xFF }").is_none());
    assert!(parse_material_text(b"water { k \xED\xA0\x80 }").is_none()); // surrogate
    assert!(parse_material_text(b"water { k \xC0\xAF }").is_none()); // overlong
    // Well-formed multi-byte text parses.
    let doc = parse_material_text(b"water { k \"caf\xC3\xA9\" }").unwrap();
    assert_eq!(doc.shader, b"water".to_vec());
    match &doc.params[0].1 {
        ParamValue::Str(v) => assert_eq!(v, &b"caf\xC3\xA9".to_vec()),
        _ => panic!("expected a string value"),
    }
    // A description whose fetched bytes are not text falls back.
    let assets: Vec<(&[u8], Vec<u8>)> = vec![(b"materials/bin.vmt", b"water { \xFE }".to_vec())];
    let r = resolve_strict(b"bin", vec![], &assets);
    assert_eq!(r.unwrap_err(), MaterialError::ParseFailed);
}
