//! Space efficient storage of paths.
//!
//! A path node holds the interned name of one object and a shared reference
//! to the node of its parent. A whole tree of paths then costs one node per
//! object. The full path is written out on demand by walking up to the
//! root.
use crate::internednames::InternedName;
use crate::order::{
    bytes_lex, bytes_order, compare_bytes, lemma_lex_skip, names_lex, Order,
};
use std::sync::Arc;
use vstd::prelude::*;

verus! {

/// The byte that separates the components of a path.
pub const SEPARATOR: u8 = 47;

/// The deepest level that [`ObjectPath::depth`] tells apart.
pub const MAX_DEPTH: u16 = 0xffff;

/// The path after one more component was pushed, by the rules of the
/// platform: a component that starts at the root replaces the path, and a
/// separator is put in between unless the path is empty or ends in one.
pub open spec fn push_component(path: Seq<u8>, name: Seq<u8>) -> Seq<u8> {
    if name.len() > 0 && name[0] == SEPARATOR {
        name
    } else if path.len() > 0 && path.last() != SEPARATOR {
        path + seq![SEPARATOR] + name
    } else {
        path + name
    }
}

/// `base` after the components `names` were pushed, first to last.
pub open spec fn join_onto(base: Seq<u8>, names: Seq<Seq<u8>>) -> Seq<u8>
    decreases names.len(),
{
    if names.len() == 0 {
        base
    } else {
        push_component(join_onto(base, names.drop_last()), names.last())
    }
}

/// The path that the components `names` spell, root first.
pub open spec fn path_bytes(names: Seq<Seq<u8>>) -> Seq<u8> {
    join_onto(Seq::empty(), names)
}

/// A single component of a path: not empty, and no separator in it.
pub open spec fn is_component(name: Seq<u8>) -> bool {
    name.len() > 0 && forall|i: int| 0 <= i < name.len() ==> name[i] != SEPARATOR
}

/// `root`, then each of `children` behind a separator.
pub open spec fn joined(root: Seq<u8>, children: Seq<Seq<u8>>) -> Seq<u8>
    decreases children.len(),
{
    if children.len() == 0 {
        root
    } else {
        joined(root, children.drop_last()) + seq![SEPARATOR] + children.last()
    }
}

/// The path of a node is its names joined by separators. Take a root that
/// is not empty and does not end in a separator, and below it any chain of
/// single components. The path is then the root, a separator, the first
/// component, a separator, and so on down to the node's own name. (A root
/// that is empty or ends in a separator gets none put behind it: that is
/// what `path_bytes` says in general.)
pub proof fn theorem_path_is_joined_names(root: Seq<u8>, children: Seq<Seq<u8>>)
    requires
        root.len() > 0,
        root.last() != SEPARATOR,
        forall|i: int| 0 <= i < children.len() ==> is_component(#[trigger] children[i]),
    ensures
        path_bytes(seq![root] + children) == joined(root, children),
        joined(root, children).len() > 0,
        joined(root, children).last() != SEPARATOR,
    decreases children.len(),
{
    let names = seq![root] + children;
    if children.len() == 0 {
        assert(names =~= seq![root]);
        assert(names.drop_last() =~= Seq::<Seq<u8>>::empty());
        assert(names.last() == root);
        assert(join_onto(Seq::empty(), names.drop_last()) == Seq::<u8>::empty());
        assert(path_bytes(names) == push_component(Seq::empty(), root));
        assert(Seq::<u8>::empty() + root =~= root);
    } else {
        let front = children.drop_last();
        let last = children.last();
        assert(is_component(last));
        assert forall|i: int| 0 <= i < front.len() implies is_component(#[trigger] front[i]) by {
            assert(front[i] == children[i]);
        }
        theorem_path_is_joined_names(root, front);
        assert(names.drop_last() =~= seq![root] + front);
        assert(names.last() == last);
        assert(last[0] != SEPARATOR);
        assert(last[last.len() - 1] != SEPARATOR);
        let above = joined(root, front);
        assert(join_onto(Seq::empty(), names.drop_last()) == above);
        assert(path_bytes(names) == push_component(above, last));
        assert((above + seq![SEPARATOR] + last).last() == last.last());
    }
}

/// The views of a list of borrowed names.
pub open spec fn views(list: Seq<&InternedName>) -> Seq<Seq<u8>> {
    Seq::new(list.len(), |i: int| list[i]@)
}

/// Pushes one component onto a path.
fn push_bytes(target: &mut Vec<u8>, name: &[u8])
    ensures
        final(target)@ == push_component(old(target)@, name@),
{
    if name.len() > 0 && name[0] == SEPARATOR {
        target.clear();
    } else if target.len() > 0 && target[target.len() - 1] != SEPARATOR {
        target.push(SEPARATOR);
    }
    target.extend_from_slice(name);
    assert(target@ =~= push_component(old(target)@, name@));
}

/// Compares two lists of names like words in a dictionary.
fn compare_name_lists(a: &Vec<&InternedName>, b: &Vec<&InternedName>) -> (r: Order)
    ensures
        r == names_lex(views(a@), views(b@)),
{
    let ghost va = views(a@);
    let ghost vb = views(b@);
    let mut i: usize = 0;
    while i < a.len() && i < b.len()
        invariant
            0 <= i <= a@.len(),
            i <= b@.len(),
            va == views(a@),
            vb == views(b@),
            forall|k: int| 0 <= k < i ==> (#[trigger] bytes_order()(va[k], vb[k])) == Order::Equal,
        decreases a@.len() - i,
    {
        let c = compare_bytes(a[i].as_bytes(), b[i].as_bytes());
        assert(c == bytes_lex(va[i as int], vb[i as int]));
        match c {
            Order::Equal => {},
            _ => {
                proof {
                    lemma_lex_skip(va, vb, bytes_order(), i as int);
                    assert(va.skip(i as int)[0] == va[i as int]);
                    assert(vb.skip(i as int)[0] == vb[i as int]);
                }
                return c;
            },
        }
        i = i + 1;
    }
    proof {
        lemma_lex_skip(va, vb, bytes_order(), i as int);
    }
    if i < b.len() {
        Order::Less
    } else if i < a.len() {
        Order::Greater
    } else {
        Order::Equal
    }
}

/// One node of a path: the name of an object and the path of its parent.
#[derive(Debug, Hash)]
pub struct ObjectPath {
    parent: Option<Arc<ObjectPath>>,
    name: InternedName,
}

impl ObjectPath {
    /// The names from the root down to this node.
    pub closed spec fn names(&self) -> Seq<Seq<u8>>
        decreases self,
    {
        match self.parent {
            None => seq![self.name@],
            Some(parent) => parent.names().push(self.name@),
        }
    }

    /// The number of nodes above this one: 0 for a root.
    pub open spec fn depth_spec(&self) -> nat {
        (self.names().len() - 1) as nat
    }

    /// A path has at least its own name.
    pub proof fn lemma_names_nonempty(&self)
        ensures
            self.names().len() >= 1,
        decreases self,
    {
        match self.parent {
            None => {},
            Some(parent) => {
                parent.lemma_names_nonempty();
            },
        }
    }

    /// Creates a new ObjectPath without a parent.
    pub fn new(path: &[u8]) -> (node: Arc<ObjectPath>)
        ensures
            node.names() == seq![path@],
    {
        Arc::new(ObjectPath { parent: None, name: InternedName::new(path) })
    }

    /// Creates a new ObjectPath as subobject to some existing ObjectPath
    /// object.
    pub fn subobject(self: Arc<Self>, name: InternedName) -> (node: Arc<ObjectPath>)
        ensures
            node.names() == self.names().push(name@),
    {
        Arc::new(ObjectPath { parent: Some(self), name })
    }

    /// The name of the object, without the path that leads to it.
    pub fn name(&self) -> (name: &InternedName)
        ensures
            name@ == self.names().last(),
    {
        &self.name
    }

    /// The node of the parent; `None` for a root.
    pub fn parent(&self) -> (parent: Option<&Arc<ObjectPath>>)
        ensures
            self.names().len() == 1 <==> parent is None,
            parent matches Some(p) ==> p.names() == self.names().drop_last(),
    {
        proof {
            self.lemma_names_nonempty();
        }
        match &self.parent {
            None => None,
            Some(p) => {
                proof {
                    p.lemma_names_nonempty();
                    assert(p.names().push(self.name@).drop_last() =~= p.names());
                }
                Some(p)
            },
        }
    }

    /// The number of nodes above this one, up to `MAX_DEPTH`: a deeper node
    /// reports `MAX_DEPTH`.
    pub fn depth(&self) -> (d: u16)
        ensures
            d == if self.depth_spec() < MAX_DEPTH {
                self.depth_spec()
            } else {
                MAX_DEPTH as nat
            },
        decreases self,
    {
        match &self.parent {
            None => 0,
            Some(parent) => {
                proof {
                    parent.lemma_names_nonempty();
                }
                let above = parent.depth();
                if above < MAX_DEPTH {
                    above + 1
                } else {
                    MAX_DEPTH
                }
            },
        }
    }

    /// Pushes the names from the root down to this node onto `target`.
    /// `len` counts the bytes that the nodes below will add, so that the
    /// root can make room for the whole path at once.
    fn pathbuf_push_parents(&self, target: &mut Vec<u8>, len: usize)
        ensures
            final(target)@ == join_onto(old(target)@, self.names()),
        decreases self,
    {
        let room = len.saturating_add(self.name.len());
        match &self.parent {
            Some(parent) => {
                parent.pathbuf_push_parents(target, room.saturating_add(1));
                proof {
                    assert(self.names().drop_last() =~= parent.names());
                }
            },
            None => {
                let _ = target.try_reserve(room);
                proof {
                    assert(self.names().drop_last() =~= Seq::<Seq<u8>>::empty());
                }
            },
        }
        let ghost above = target@;
        assert(above == join_onto(old(target)@, self.names().drop_last()));
        push_bytes(target, self.name.as_bytes());
        proof {
            self.lemma_names_nonempty();
            assert(self.names().last() == self.name@);
            assert(target@ == push_component(above, self.name@));
        }
    }

    /// Writes the full path into `target`, whatever it held before.
    pub fn write_pathbuf(&self, target: &mut Vec<u8>)
        ensures
            final(target)@ == path_bytes(self.names()),
    {
        target.clear();
        self.pathbuf_push_parents(target, 1);
    }

    /// Creates the full path as a new byte string.
    pub fn to_pathbuf(&self) -> (path: Vec<u8>)
        ensures
            path@ == path_bytes(self.names()),
    {
        let mut target: Vec<u8> = Vec::new();
        self.pathbuf_push_parents(&mut target, 1);
        target
    }

    /// Appends the names from the root down to this node to `out`.
    fn collect_names<'a>(&'a self, out: &mut Vec<&'a InternedName>)
        ensures
            views(final(out)@) == views(old(out)@) + self.names(),
        decreases self,
    {
        match &self.parent {
            Some(parent) => {
                parent.collect_names(out);
            },
            None => {},
        }
        let ghost before = out@;
        out.push(&self.name);
        proof {
            assert(views(out@) =~= views(before).push(self.name@));
            match &self.parent {
                Some(parent) => {
                    assert(views(old(out)@) + parent.names().push(self.name@) =~= (views(old(out)@)
                        + parent.names()).push(self.name@));
                },
                None => {
                    assert(views(old(out)@) + seq![self.name@] =~= views(old(out)@).push(
                        self.name@,
                    ));
                },
            }
        }
    }

    /// Compares two paths by their names from the root down, like words in
    /// a dictionary. The shape of the parent chains does not count.
    pub fn compare(&self, other: &ObjectPath) -> (r: Order)
        ensures
            r == names_lex(self.names(), other.names()),
    {
        let mut mine: Vec<&InternedName> = Vec::new();
        let mut theirs: Vec<&InternedName> = Vec::new();
        self.collect_names(&mut mine);
        other.collect_names(&mut theirs);
        proof {
            assert(views(mine@) =~= self.names());
            assert(views(theirs@) =~= other.names());
        }
        compare_name_lists(&mine, &theirs)
    }
}

} // verus!
