use levelgeom::wrapping::{unwrap, wrap};

#[test]
fn test_unwrap() {
    assert_eq!((101, 99), unwrap(1, 99, 0, 100));
    assert_eq!((99, 101), unwrap(99, 1, 0, 100));

    assert_eq!((120, 99), unwrap(-80, 99, -100, 100));
}

#[test]
fn wrap_folds_back_into_the_interval() {
    assert_eq!(wrap(190, -180, 180), -170);
    assert_eq!(wrap(-190, -180, 180), 170);
    assert_eq!(wrap(20, -180, 180), 20);
}
