use levelgeom::bytestr::{to_lower, trim_end_matches, trim_start_matches_byte};
use levelgeom::material::is_decimal;
use levelgeom::texture::{TextureImage, TexturePayload, strip_alpha, texture_payload};

#[test]
fn ascii_lowering() {
    assert_eq!(to_lower(b"Props/METAL.vmt"), b"props/metal.vmt".to_vec());
    assert_eq!(to_lower(b"already lower 123"), b"already lower 123".to_vec());
}

#[test]
fn suffix_trimming_repeats() {
    assert_eq!(trim_end_matches(b"a.vmt.vmt", b".vmt"), b"a".to_vec());
    assert_eq!(trim_end_matches(b"a.vtf", b".vmt"), b"a.vtf".to_vec());
    assert_eq!(trim_start_matches_byte(b"//x/y", b'/'), b"x/y".to_vec());
}

#[test]
fn decimal_validation() {
    assert!(is_decimal(b"1"));
    assert!(is_decimal(b"0.25"));
    assert!(is_decimal(b"-3."));
    assert!(is_decimal(b"+.5"));
    assert!(!is_decimal(b""));
    assert!(!is_decimal(b"."));
    assert!(!is_decimal(b"1.2.3"));
    assert!(!is_decimal(b"abc"));
    assert!(!is_decimal(b"1e3"));
}

#[test]
fn alpha_stripping() {
    assert_eq!(strip_alpha(&[1, 2, 3, 4, 5, 6, 7, 8]), vec![1, 2, 3, 5, 6, 7]);
    assert_eq!(strip_alpha(&[]), Vec::<u8>::new());

    let img = TextureImage { width: 1, height: 2, has_alpha: true, rgba: vec![9, 8, 7, 6, 5, 4, 3, 2] };
    match texture_payload(&img, false) {
        TexturePayload::Rgb(v) => assert_eq!(v, vec![9, 8, 7, 5, 4, 3]),
        _ => panic!("alpha should be dropped"),
    }
    match texture_payload(&img, true) {
        TexturePayload::Rgba(v) => assert_eq!(v, vec![9, 8, 7, 6, 5, 4, 3, 2]),
        _ => panic!("alpha should be kept"),
    }
}
