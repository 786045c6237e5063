use librmrfd::{InternedName, ObjectPath, Order};
use std::collections::hash_map::DefaultHasher;
use std::hash::{Hash, Hasher};

#[test]
fn directory_path_smoke() {
    assert_eq!(ObjectPath::new(b".").to_pathbuf(), b".".to_vec());
}

#[test]
fn directory_path_subobject() {
    let p = ObjectPath::new(b".");
    assert_eq!(
        ObjectPath::subobject(p, InternedName::new(b"foo")).to_pathbuf(),
        b"./foo".to_vec()
    );
}

#[test]
fn objectpath_path_smoke() {
    assert_eq!(ObjectPath::new(b".").to_pathbuf(), b".".to_vec());
}

#[test]
fn objectpath_path_subobject() {
    let p = ObjectPath::new(b".");
    let mut pathbuf = Vec::new();
    p.subobject(InternedName::new(b"foo")).write_pathbuf(&mut pathbuf);
    assert_eq!(pathbuf, b"./foo".to_vec());
}

#[test]
fn write_pathbuf_replaces_what_the_buffer_held() {
    let p = ObjectPath::new(b"/srv").subobject(InternedName::new(b"data"));
    let mut buffer = b"something else entirely".to_vec();
    p.write_pathbuf(&mut buffer);
    assert_eq!(buffer, b"/srv/data".to_vec());
    p.write_pathbuf(&mut buffer);
    assert_eq!(buffer, b"/srv/data".to_vec());
}

#[test]
fn path_is_the_names_joined_by_separators() {
    let node = ObjectPath::new(b"/home/user")
        .subobject(InternedName::new(b"a"))
        .subobject(InternedName::new(b"bb"))
        .subobject(InternedName::new(b"ccc"));
    assert_eq!(node.to_pathbuf(), b"/home/user/a/bb/ccc".to_vec());
    assert_eq!(node.depth(), 3);
    assert_eq!(node.name().as_bytes(), b"ccc");
    assert_eq!(node.parent().unwrap().to_pathbuf(), b"/home/user/a/bb".to_vec());
}

#[test]
fn separators_are_normalised_like_the_platform_does() {
    let root = ObjectPath::new(b"/");
    assert_eq!(root.clone().subobject(InternedName::new(b"etc")).to_pathbuf(), b"/etc".to_vec());
    let empty = ObjectPath::new(b"");
    assert_eq!(empty.subobject(InternedName::new(b"x")).to_pathbuf(), b"x".to_vec());
    let trailing = ObjectPath::new(b"dir/");
    assert_eq!(trailing.subobject(InternedName::new(b"x")).to_pathbuf(), b"dir/x".to_vec());
    // an absolute component replaces what stands before it
    let replaced = ObjectPath::new(b"dir").subobject(InternedName::new(b"/abs"));
    assert_eq!(replaced.to_pathbuf(), b"/abs".to_vec());
    // an empty component leaves a trailing separator
    let open = ObjectPath::new(b"dir").subobject(InternedName::new(b""));
    assert_eq!(open.to_pathbuf(), b"dir/".to_vec());
}

#[test]
fn names_may_hold_any_bytes() {
    let node = ObjectPath::new(b".").subobject(InternedName::new(&[0xff, 0x00, 0x80]));
    assert_eq!(node.to_pathbuf(), vec![b'.', b'/', 0xff, 0x00, 0x80]);
}

#[test]
fn depth_counts_the_nodes_above() {
    let root = ObjectPath::new(b"r");
    assert_eq!(root.depth(), 0);
    assert!(root.parent().is_none());
    let mut node = root;
    for i in 1..=300u16 {
        node = node.subobject(InternedName::new(b"d"));
        assert_eq!(node.depth(), i);
    }
}

#[test]
fn path_ordering() {
    let foo = ObjectPath::new(b"foo");
    let bar = ObjectPath::new(b"bar");
    assert!(bar < foo);

    let bar2 = ObjectPath::new(b"bar");
    assert!(bar == bar2);

    let foobar = foo.clone().subobject(InternedName::new(b"bar"));
    let barfoo = bar.clone().subobject(InternedName::new(b"foo"));
    assert!(barfoo < foobar);
    assert_eq!(barfoo.compare(&foobar), Order::Less);
    assert_eq!(foobar.compare(&barfoo), Order::Greater);
    assert_eq!(bar.compare(&bar2), Order::Equal);
}

#[test]
fn paths_are_ordered_like_words_in_a_dictionary() {
    let z = ObjectPath::new(b"z");
    let a_b = ObjectPath::new(b"a").subobject(InternedName::new(b"b"));
    // the first name decides, however long the paths are
    assert!(a_b < z);
    // a prefix comes first
    let a = ObjectPath::new(b"a");
    assert!(a < a_b);
    // names are compared whole, not as joined text
    let ab = ObjectPath::new(b"a").subobject(InternedName::new(b"b"));
    let a_slash = ObjectPath::new(b"a!").subobject(InternedName::new(b"b"));
    assert!(ab < a_slash);
    let short = ObjectPath::new(b"ab");
    let long = ObjectPath::new(b"abc");
    assert!(short < long);
    assert!(long > short);
}

#[test]
fn equal_names_are_equal_paths_whatever_the_nodes() {
    let one = ObjectPath::new(b"r").subobject(InternedName::new(b"x"));
    let other_root = ObjectPath::new(b"r");
    let two = other_root.subobject(InternedName::new(b"x"));
    assert!(one == two);
    assert!(!(one < two));
    assert!(!(one > two));
    let three = ObjectPath::new(b"r").subobject(InternedName::new(b"y"));
    assert!(one != three);
}

#[test]
fn equal_paths_hash_alike() {
    let one = ObjectPath::new(b"r").subobject(InternedName::new(b"x"));
    let two = ObjectPath::new(b"r").subobject(InternedName::new(b"x"));
    let mut first = DefaultHasher::new();
    one.hash(&mut first);
    let mut second = DefaultHasher::new();
    two.hash(&mut second);
    assert_eq!(first.finish(), second.finish());
}
