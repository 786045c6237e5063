use librmrfd::{InternedName, InternedNames};

#[test]
fn interned_name_keeps_its_bytes() {
    let name = InternedName::new(b"file.txt");
    assert_eq!(name.len(), 8);
    assert_eq!(name.as_bytes(), b"file.txt");
    let copy = name.clone();
    assert_eq!(copy.as_bytes(), b"file.txt");
    let empty = InternedName::new(b"");
    assert_eq!(empty.len(), 0);
}

#[test]
fn interning_the_same_name_gives_the_same_storage() {
    let mut names = InternedNames::new();
    assert_eq!(names.len(), 0);
    let a = names.interning(b"alpha");
    let b = names.interning(b"alpha");
    let c = names.interning(b"beta");
    assert_eq!(a.as_bytes(), b"alpha");
    assert_eq!(b.as_bytes(), b"alpha");
    assert_eq!(c.as_bytes(), b"beta");
    // equal names share their bytes, different names do not
    assert!(std::ptr::eq(a.as_bytes().as_ptr(), b.as_bytes().as_ptr()));
    assert!(!std::ptr::eq(a.as_bytes().as_ptr(), c.as_bytes().as_ptr()));
    assert_eq!(names.len(), 2);
}

#[test]
fn the_pool_counts_the_different_names() {
    let mut names = InternedNames::new();
    let seen: [&[u8]; 8] = [b"m", b"a", b"z", b"m", b"", b"a", b"mm", b"z"];
    for name in seen.iter() {
        let handle = names.interning(name);
        assert_eq!(handle.as_bytes(), *name);
    }
    assert_eq!(names.len(), 5);
    assert!(names.contains(b"m"));
    assert!(names.contains(b""));
    assert!(names.contains(b"mm"));
    assert!(!names.contains(b"q"));
    assert!(!names.contains(b"M"));
}

#[test]
fn a_name_made_outside_the_pool_is_not_shared() {
    let mut names = InternedNames::new();
    let inside = names.interning(b"x");
    let outside = InternedName::new(b"x");
    assert_eq!(inside.as_bytes(), outside.as_bytes());
    assert!(!std::ptr::eq(inside.as_bytes().as_ptr(), outside.as_bytes().as_ptr()));
    assert_eq!(names.len(), 1);
}
