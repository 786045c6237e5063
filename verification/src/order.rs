//! Lexicographic order on sequences.
//!
//! File names are byte strings and paths are sequences of file names; both
//! are ordered like words in a dictionary. The order of bytes is the order
//! of numbers.
use vstd::prelude::*;

verus! {

/// How one value stands to another.
#[derive(Debug, Clone, Copy, PartialEq, Eq, Structural)]
pub enum Order {
    /// It comes first.
    Less,
    /// The two are the same.
    Equal,
    /// It comes last.
    Greater,
}

/// `ord` compares like a total order: equal means identical, the two
/// directions agree, and less is transitive.
pub open spec fn total_order<T>(ord: spec_fn(T, T) -> Order) -> bool {
    &&& forall|a: T, b: T| (#[trigger] ord(a, b)) == Order::Equal <==> a == b
    &&& forall|a: T, b: T| (#[trigger] ord(a, b)) == Order::Less <==> ord(b, a) == Order::Greater
    &&& forall|a: T, b: T, c: T|
        (#[trigger] ord(a, b)) == Order::Less && (#[trigger] ord(b, c)) == Order::Less ==> ord(a, c)
            == Order::Less
}

/// Dictionary order: the first place where the two differ decides, and a
/// proper prefix comes first.
pub open spec fn lex<T>(a: Seq<T>, b: Seq<T>, ord: spec_fn(T, T) -> Order) -> Order
    decreases a.len(),
{
    if a.len() == 0 {
        if b.len() == 0 {
            Order::Equal
        } else {
            Order::Less
        }
    } else if b.len() == 0 {
        Order::Greater
    } else {
        match ord(a[0], b[0]) {
            Order::Equal => lex(a.drop_first(), b.drop_first(), ord),
            o => o,
        }
    }
}

/// The order of bytes.
pub open spec fn byte_order() -> spec_fn(u8, u8) -> Order {
    |x: u8, y: u8|
        if x < y {
            Order::Less
        } else if x == y {
            Order::Equal
        } else {
            Order::Greater
        }
}

/// The order of byte strings.
pub open spec fn bytes_lex(a: Seq<u8>, b: Seq<u8>) -> Order {
    lex(a, b, byte_order())
}

/// The order of byte strings, as a function value.
pub open spec fn bytes_order() -> spec_fn(Seq<u8>, Seq<u8>) -> Order {
    |a: Seq<u8>, b: Seq<u8>| bytes_lex(a, b)
}

/// The order of sequences of byte strings.
pub open spec fn names_lex(a: Seq<Seq<u8>>, b: Seq<Seq<u8>>) -> Order {
    lex(a, b, bytes_order())
}

/// The order of sequences of byte strings, as a function value.
pub open spec fn names_order() -> spec_fn(Seq<Seq<u8>>, Seq<Seq<u8>>) -> Order {
    |a: Seq<Seq<u8>>, b: Seq<Seq<u8>>| names_lex(a, b)
}

/// Two sequences compare equal exactly when they are the same.
pub proof fn lemma_lex_equal<T>(a: Seq<T>, b: Seq<T>, ord: spec_fn(T, T) -> Order)
    requires
        total_order(ord),
    ensures
        lex(a, b, ord) == Order::Equal <==> a == b,
    decreases a.len(),
{
    if a.len() > 0 && b.len() > 0 {
        lemma_lex_equal(a.drop_first(), b.drop_first(), ord);
        if lex(a, b, ord) == Order::Equal {
            assert(ord(a[0], b[0]) == Order::Equal);
            assert(a[0] == b[0]);
            assert(a.drop_first() == b.drop_first());
            assert(a =~= seq![a[0]] + a.drop_first());
            assert(b =~= seq![b[0]] + b.drop_first());
        }
        if a == b {
            assert(ord(a[0], b[0]) == Order::Equal);
        }
    } else if a == b {
        assert(a.len() == b.len());
    } else if lex(a, b, ord) == Order::Equal {
        assert(a =~= b);
    }
}

/// Swapping the two sides swaps less and greater.
pub proof fn lemma_lex_flip<T>(a: Seq<T>, b: Seq<T>, ord: spec_fn(T, T) -> Order)
    requires
        total_order(ord),
    ensures
        lex(a, b, ord) == Order::Less <==> lex(b, a, ord) == Order::Greater,
        lex(a, b, ord) == Order::Greater <==> lex(b, a, ord) == Order::Less,
        lex(a, b, ord) == Order::Equal <==> lex(b, a, ord) == Order::Equal,
    decreases a.len(),
{
    if a.len() > 0 && b.len() > 0 {
        lemma_lex_flip(a.drop_first(), b.drop_first(), ord);
        let x = ord(a[0], b[0]);
        let y = ord(b[0], a[0]);
        assert(x == Order::Equal <==> y == Order::Equal);
        assert(x == Order::Less <==> y == Order::Greater);
        assert(y == Order::Less <==> x == Order::Greater);
    }
}

/// Less is transitive.
pub proof fn lemma_lex_transitive<T>(a: Seq<T>, b: Seq<T>, c: Seq<T>, ord: spec_fn(T, T) -> Order)
    requires
        total_order(ord),
        lex(a, b, ord) == Order::Less,
        lex(b, c, ord) == Order::Less,
    ensures
        lex(a, c, ord) == Order::Less,
    decreases a.len(),
{
    if a.len() > 0 {
        assert(b.len() > 0 && c.len() > 0);
        let ab = ord(a[0], b[0]);
        let bc = ord(b[0], c[0]);
        let ac = ord(a[0], c[0]);
        if ab == Order::Equal {
            assert(a[0] == b[0]);
            if bc == Order::Equal {
                assert(b[0] == c[0]);
                lemma_lex_transitive(a.drop_first(), b.drop_first(), c.drop_first(), ord);
            }
        } else {
            assert(ab == Order::Less);
            if bc == Order::Equal {
                assert(b[0] == c[0]);
            } else {
                assert(bc == Order::Less);
                assert(ac == Order::Less);
            }
        }
    }
}

/// The order of bytes is total.
pub proof fn lemma_byte_order_total()
    ensures
        total_order(byte_order()),
{
}

/// The order of byte strings is total.
pub proof fn lemma_bytes_order_total()
    ensures
        total_order(bytes_order()),
{
    lemma_byte_order_total();
    assert forall|a: Seq<u8>, b: Seq<u8>| (#[trigger] bytes_order()(a, b)) == Order::Equal <==> a
        == b by {
        lemma_lex_equal(a, b, byte_order());
    }
    assert forall|a: Seq<u8>, b: Seq<u8>| (#[trigger] bytes_order()(a, b)) == Order::Less
        <==> bytes_order()(b, a) == Order::Greater by {
        lemma_lex_flip(a, b, byte_order());
    }
    assert forall|a: Seq<u8>, b: Seq<u8>, c: Seq<u8>|
        (#[trigger] bytes_order()(a, b)) == Order::Less && (#[trigger] bytes_order()(b, c))
            == Order::Less implies bytes_order()(a, c) == Order::Less by {
        lemma_lex_transitive(a, b, c, byte_order());
    }
}

/// The order of sequences of byte strings is total.
pub proof fn lemma_names_order_total()
    ensures
        total_order(names_order()),
{
    lemma_bytes_order_total();
    assert forall|a: Seq<Seq<u8>>, b: Seq<Seq<u8>>| (#[trigger] names_order()(a, b))
        == Order::Equal <==> a == b by {
        lemma_lex_equal(a, b, bytes_order());
    }
    assert forall|a: Seq<Seq<u8>>, b: Seq<Seq<u8>>| (#[trigger] names_order()(a, b)) == Order::Less
        <==> names_order()(b, a) == Order::Greater by {
        lemma_lex_flip(a, b, bytes_order());
    }
    assert forall|a: Seq<Seq<u8>>, b: Seq<Seq<u8>>, c: Seq<Seq<u8>>|
        (#[trigger] names_order()(a, b)) == Order::Less && (#[trigger] names_order()(b, c))
            == Order::Less implies names_order()(a, c) == Order::Less by {
        lemma_lex_transitive(a, b, c, bytes_order());
    }
}

/// Comparing from place `i` on decides, once the places before agree.
pub proof fn lemma_lex_skip<T>(a: Seq<T>, b: Seq<T>, ord: spec_fn(T, T) -> Order, i: int)
    requires
        0 <= i <= a.len(),
        i <= b.len(),
        forall|k: int| 0 <= k < i ==> (#[trigger] ord(a[k], b[k])) == Order::Equal,
    ensures
        lex(a, b, ord) == lex(a.skip(i), b.skip(i), ord),
    decreases i,
{
    if i == 0 {
        assert(a.skip(0) =~= a);
        assert(b.skip(0) =~= b);
    } else {
        assert(ord(a[0], b[0]) == Order::Equal);
        let ta = a.drop_first();
        let tb = b.drop_first();
        assert forall|k: int| 0 <= k < i - 1 implies (#[trigger] ord(ta[k], tb[k]))
            == Order::Equal by {
            assert(ord(a[k + 1], b[k + 1]) == Order::Equal);
        }
        lemma_lex_skip(ta, tb, ord, i - 1);
        assert(ta.skip(i - 1) =~= a.skip(i));
        assert(tb.skip(i - 1) =~= b.skip(i));
    }
}

/// Compares two byte strings.
pub fn compare_bytes(a: &[u8], b: &[u8]) -> (r: Order)
    ensures
        r == bytes_lex(a@, b@),
{
    let mut i: usize = 0;
    while i < a.len() && i < b.len()
        invariant
            0 <= i <= a@.len(),
            i <= b@.len(),
            forall|k: int| 0 <= k < i ==> (#[trigger] byte_order()(a@[k], b@[k])) == Order::Equal,
        decreases a@.len() - i,
    {
        let x = a[i];
        let y = b[i];
        if x != y {
            proof {
                lemma_lex_skip(a@, b@, byte_order(), i as int);
            }
            if x < y {
                return Order::Less;
            } else {
                return Order::Greater;
            }
        }
        i = i + 1;
    }
    proof {
        lemma_lex_skip(a@, b@, byte_order(), i as int);
    }
    if i < b.len() {
        Order::Less
    } else if i < a.len() {
        Order::Greater
    } else {
        Order::Equal
    }
}

} // verus!
