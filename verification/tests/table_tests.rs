use levelgeom::table::{MaterialKey, MaterialSet};

fn key(name: &[u8], paths: &[&[u8]]) -> MaterialKey {
    MaterialKey {
        name: name.to_vec(),
        search_paths: paths.iter().map(|p| p.to_vec()).collect(),
    }
}

#[test]
fn same_key_twice_returns_same_index() {
    let mut set = MaterialSet::new();
    let a = set.get_index(key(b"metal/plate", &[b"props/"]));
    let b = set.get_index(key(b"wood/floor", &[b"props/"]));
    let a_again = set.get_index(key(b"metal/plate", &[b"props/"]));
    assert_eq!(a, 0);
    assert_eq!(b, 1);
    assert_eq!(a_again, a);
    assert_eq!(set.len(), 2);
}

#[test]
fn search_path_order_makes_keys_distinct() {
    let mut set = MaterialSet::new();
    let ab = set.get_index(key(b"metal/plate", &[b"a/", b"b/"]));
    let ba = set.get_index(key(b"metal/plate", &[b"b/", b"a/"]));
    assert_ne!(ab, ba);
    assert_eq!(set.len(), 2);
    let ab_again = set.get_index(key(b"metal/plate", &[b"a/", b"b/"]));
    assert_eq!(ab_again, ab);
}

#[test]
fn differing_names_and_paths_are_distinct() {
    let mut set = MaterialSet::new();
    let plain = set.get_index(key(b"metal/plate", &[]));
    let with_path = set.get_index(key(b"metal/plate", &[b"props/"]));
    let other = set.get_index(key(b"metal/grate", &[]));
    assert_eq!(plain, 0);
    assert_eq!(with_path, 1);
    assert_eq!(other, 2);
}

#[test]
fn into_materials_keeps_insertion_order() {
    let mut set = MaterialSet::new();
    set.get_index(key(b"one", &[]));
    set.get_index(key(b"two", &[b"p/"]));
    set.get_index(key(b"one", &[]));
    let keys = set.into_materials();
    assert_eq!(keys.len(), 2);
    assert_eq!(keys[0].name, b"one".to_vec());
    assert_eq!(keys[1].name, b"two".to_vec());
    assert_eq!(keys[1].search_paths, vec![b"p/".to_vec()]);
}
