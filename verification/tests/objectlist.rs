use librmrfd::{InternedName, ObjectList, ObjectPath};

#[test]
fn objectlist_insert_uniq() {
    let mut ol = ObjectList::new();

    ol.insert(ObjectPath::new(b"foo"));
    ol.insert(ObjectPath::new(b"bar"));
    ol.insert(ObjectPath::new(b"baz"));
    ol.insert(ObjectPath::new(b"foo"));
    println!("{:?}", ol);
    assert_eq!(ol.len(), 3);
}

#[test]
fn objectlist_keeps_sorted_order() {
    let mut ol = ObjectList::new();
    assert!(ol.is_empty());
    assert!(ol.get(0).is_none());
    ol.insert(ObjectPath::new(b"foo"));
    ol.insert(ObjectPath::new(b"bar"));
    ol.insert(ObjectPath::new(b"baz"));
    ol.insert(ObjectPath::new(b"bar").subobject(InternedName::new(b"x")));
    assert!(!ol.is_empty());
    assert_eq!(ol.len(), 4);
    assert_eq!(ol.get(0).unwrap().to_pathbuf(), b"bar".to_vec());
    assert_eq!(ol.get(1).unwrap().to_pathbuf(), b"bar/x".to_vec());
    assert_eq!(ol.get(2).unwrap().to_pathbuf(), b"baz".to_vec());
    assert_eq!(ol.get(3).unwrap().to_pathbuf(), b"foo".to_vec());
    assert!(ol.get(4).is_none());
}

#[test]
fn objectlist_contains_and_remove() {
    let mut ol = ObjectList::new();
    ol.insert(ObjectPath::new(b"foo"));
    ol.insert(ObjectPath::new(b"bar"));
    assert!(ol.contains(ObjectPath::new(b"foo")));
    assert!(ol.contains(ObjectPath::new(b"bar")));
    assert!(!ol.contains(ObjectPath::new(b"baz")));
    ol.remove(ObjectPath::new(b"baz"));
    assert_eq!(ol.len(), 2);
    ol.remove(ObjectPath::new(b"foo"));
    assert_eq!(ol.len(), 1);
    assert!(!ol.contains(ObjectPath::new(b"foo")));
    assert!(ol.contains(ObjectPath::new(b"bar")));
    ol.remove(ObjectPath::new(b"bar"));
    assert!(ol.is_empty());
    ol.remove(ObjectPath::new(b"bar"));
    assert!(ol.is_empty());
}
