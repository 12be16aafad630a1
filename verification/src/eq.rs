use vstd::prelude::*;

use core::cmp::Ordering;

use crate::{Child, Node, NodeOrToken, Token, Tree};

verus! {

broadcast use vstd::std_specs::vec::group_vec_axioms;

/// Three-way comparison of two integers by numeric value.
pub open spec fn cmp_nums(a: int, b: int) -> Ordering {
    if a < b {
        Ordering::Less
    } else if a == b {
        Ordering::Equal
    } else {
        Ordering::Greater
    }
}

/// Lexicographic three-way comparison of two byte sequences.
pub open spec fn cmp_bytes(a: Seq<u8>, b: Seq<u8>) -> Ordering
    decreases a.len(),
{
    if a.len() == 0 && b.len() == 0 {
        Ordering::Equal
    } else if a.len() == 0 {
        Ordering::Less
    } else if b.len() == 0 {
        Ordering::Greater
    } else if a[0] != b[0] {
        cmp_nums(a[0] as int, b[0] as int)
    } else {
        cmp_bytes(a.drop_first(), b.drop_first())
    }
}

/// Total order on trees: every interior record sorts before every leaf;
/// records of one shape compare by their keys, category first, then the
/// span length or text, then the children element by element, recursively.
pub open spec fn cmp_tree(a: Tree, b: Tree) -> Ordering
    decreases a,
{
    match (a, b) {
        (Tree::Node { .. }, Tree::Token { .. }) => Ordering::Less,
        (Tree::Token { .. }, Tree::Node { .. }) => Ordering::Greater,
        (
            Tree::Token { kind: k1, text: t1 },
            Tree::Token { kind: k2, text: t2 },
        ) => if k1 != k2 {
            cmp_nums(k1 as int, k2 as int)
        } else {
            cmp_bytes(t1, t2)
        },
        (
            Tree::Node { kind: k1, text_len: l1, children: c1 },
            Tree::Node { kind: k2, text_len: l2, children: c2 },
        ) => if k1 != k2 {
            cmp_nums(k1 as int, k2 as int)
        } else if l1 != l2 {
            cmp_nums(l1 as int, l2 as int)
        } else {
            cmp_trees(c1, c2)
        },
    }
}

/// Lexicographic three-way comparison of two child sequences, element by
/// element under `cmp_tree`.
pub open spec fn cmp_trees(a: Seq<Tree>, b: Seq<Tree>) -> Ordering
    decreases a,
{
    if a.len() == 0 && b.len() == 0 {
        Ordering::Equal
    } else if a.len() == 0 {
        Ordering::Less
    } else if b.len() == 0 {
        Ordering::Greater
    } else if cmp_tree(a[0], b[0]) != Ordering::Equal {
        cmp_tree(a[0], b[0])
    } else {
        cmp_trees(a.drop_first(), b.drop_first())
    }
}

fn cmp_u8_slices(x: &[u8], y: &[u8]) -> (o: Ordering)
    ensures
        o == cmp_bytes(x@, y@),
{
    let mut i: usize = 0;
    proof {
        assert(x@.skip(0) =~= x@);
        assert(y@.skip(0) =~= y@);
    }
    while i < x.len() && i < y.len()
        invariant
            i <= x@.len(),
            i <= y@.len(),
            cmp_bytes(x@, y@) == cmp_bytes(x@.skip(i as int), y@.skip(i as int)),
        decreases x@.len() - i,
    {
        let a: u8 = *vstd::slice::slice_index_get(x, i);
        let b: u8 = *vstd::slice::slice_index_get(y, i);
        if a < b {
            return Ordering::Less;
        }
        if a > b {
            return Ordering::Greater;
        }
        proof {
            assert(x@.skip(i as int).drop_first() =~= x@.skip(i + 1));
            assert(y@.skip(i as int).drop_first() =~= y@.skip(i + 1));
        }
        i = i + 1;
    }
    proof {
        assert(x@.skip(i as int).len() == 0 || y@.skip(i as int).len() == 0);
    }
    if x.len() == y.len() {
        Ordering::Equal
    } else if x.len() < y.len() {
        Ordering::Less
    } else {
        Ordering::Greater
    }
}

impl Token {
    /// Three-way comparison by the leaf's key: category, then text.
    pub fn cmp(&self, other: &Token) -> (o: Ordering)
        ensures
            o == cmp_tree(self@, other@),
    {
        let k1: u16 = self.data.kind.0;
        let k2: u16 = other.data.kind.0;
        if k1 < k2 {
            Ordering::Less
        } else if k1 > k2 {
            Ordering::Greater
        } else {
            cmp_u8_slices(self.data.text.as_str().as_bytes(), other.data.text.as_str().as_bytes())
        }
    }
}

impl Node {
    /// Three-way comparison by the record's key: category, then span
    /// length, then the children element by element, recursively.
    #[verifier::loop_isolation(false)]
    pub fn cmp(&self, other: &Node) -> (o: Ordering)
        ensures
            o == cmp_tree(self@, other@),
        decreases self@, 0int,
    {
        let k1: u16 = self.data.kind.0;
        let k2: u16 = other.data.kind.0;
        if k1 < k2 {
            return Ordering::Less;
        }
        if k1 > k2 {
            return Ordering::Greater;
        }
        let l1: u32 = self.data.text_len.0;
        let l2: u32 = other.data.text_len.0;
        if l1 < l2 {
            return Ordering::Less;
        }
        if l1 > l2 {
            return Ordering::Greater;
        }
        let cs1 = &self.data.children;
        let cs2 = &other.data.children;
        let ghost s1 = self@->Node_children;
        let ghost s2 = other@->Node_children;
        let mut i: usize = 0;
        proof {
            assert(s1.skip(0) =~= s1);
            assert(s2.skip(0) =~= s2);
        }
        while i < cs1.len() && i < cs2.len()
            invariant
                i <= s1.len(),
                i <= s2.len(),
                cs1@.len() == s1.len(),
                cs2@.len() == s2.len(),
                forall|j: int| 0 <= j < s1.len() ==> cs1@[j]@ == s1[j],
                forall|j: int| 0 <= j < s2.len() ==> cs2@[j]@ == s2[j],
                cs1 == self.data.children,
                cs2 == other.data.children,
                cmp_trees(s1, s2) == cmp_trees(s1.skip(i as int), s2.skip(i as int)),
            decreases s1.len() - i,
        {
            let c1 = &cs1[i];
            let c2 = &cs2[i];
            proof {
                assert(decreases_to!(self@ => self@->Node_children));
                assert(s1 == self@->Node_children);
                assert(decreases_to!(s1 => s1[i as int]));
                assert(s1.skip(i as int)[0] == s1[i as int]);
                assert(s2.skip(i as int)[0] == s2[i as int]);
            }
            let o = c1.cmp(c2);
            match o {
                Ordering::Equal => {
                    proof {
                        assert(s1.skip(i as int).drop_first() =~= s1.skip(i + 1));
                        assert(s2.skip(i as int).drop_first() =~= s2.skip(i + 1));
                    }
                    i = i + 1;
                },
                _ => {
                    return o;
                },
            }
        }
        proof {
            assert(s1.skip(i as int).len() == 0 || s2.skip(i as int).len() == 0);
        }
        if cs1.len() == cs2.len() {
            Ordering::Equal
        } else if cs1.len() < cs2.len() {
            Ordering::Less
        } else {
            Ordering::Greater
        }
    }
}

/// The mirror image of an ordering outcome.
pub open spec fn flip(o: Ordering) -> Ordering {
    match o {
        Ordering::Less => Ordering::Greater,
        Ordering::Equal => Ordering::Equal,
        Ordering::Greater => Ordering::Less,
    }
}

/// `cmp_bytes` answers `Equal` exactly on equal sequences.
pub proof fn lemma_cmp_bytes_equal(a: Seq<u8>, b: Seq<u8>)
    ensures
        (cmp_bytes(a, b) == Ordering::Equal) <==> a == b,
    decreases a.len(),
{
    if a.len() == 0 && b.len() == 0 {
        assert(a =~= b);
    } else if a.len() == 0 || b.len() == 0 {
    } else if a[0] != b[0] {
    } else {
        lemma_cmp_bytes_equal(a.drop_first(), b.drop_first());
        if cmp_bytes(a, b) == Ordering::Equal {
            assert forall|i: int| 0 <= i < a.len() implies a[i] == b[i] by {
                if i > 0 {
                    assert(a.drop_first()[i - 1] == a[i]);
                    assert(b.drop_first()[i - 1] == b[i]);
                }
            }
            assert(a =~= b);
        } else if a == b {
            assert(a.drop_first() =~= b.drop_first());
        }
    }
}

/// `cmp_trees` answers `Equal` exactly on equal sequences.
pub proof fn lemma_cmp_trees_equal(a: Seq<Tree>, b: Seq<Tree>)
    ensures
        (cmp_trees(a, b) == Ordering::Equal) <==> a == b,
    decreases a,
{
    if a.len() == 0 && b.len() == 0 {
        assert(a =~= b);
    } else if a.len() == 0 || b.len() == 0 {
    } else {
        lemma_cmp_tree_equal(a[0], b[0]);
        lemma_cmp_trees_equal(a.drop_first(), b.drop_first());
        if cmp_trees(a, b) == Ordering::Equal {
            assert forall|i: int| 0 <= i < a.len() implies a[i] == b[i] by {
                if i > 0 {
                    assert(a.drop_first()[i - 1] == a[i]);
                    assert(b.drop_first()[i - 1] == b[i]);
                }
            }
            assert(a =~= b);
        } else if a == b {
            assert(a.drop_first() =~= b.drop_first());
        }
    }
}

/// Comparing answers `Equal` exactly on equal trees: the order is
/// antisymmetric, and equality under it is structural, whichever two
/// handles the trees came from.
pub proof fn lemma_cmp_tree_equal(a: Tree, b: Tree)
    ensures
        (cmp_tree(a, b) == Ordering::Equal) <==> a == b,
    decreases a,
{
    match (a, b) {
        (
            Tree::Node { kind: k1, text_len: l1, children: c1 },
            Tree::Node { kind: k2, text_len: l2, children: c2 },
        ) => {
            if k1 == k2 && l1 == l2 {
                lemma_cmp_trees_equal(c1, c2);
                if cmp_trees(c1, c2) == Ordering::Equal {
                    assert(a =~= b);
                }
            }
        },
        (Tree::Token { kind: k1, text: t1 }, Tree::Token { kind: k2, text: t2 }) => {
            if k1 == k2 {
                lemma_cmp_bytes_equal(t1, t2);
                if cmp_bytes(t1, t2) == Ordering::Equal {
                    assert(a =~= b);
                }
            }
        },
        _ => {},
    }
}

/// Swapping the arguments of `cmp_bytes` mirrors the outcome.
pub proof fn lemma_cmp_bytes_flip(a: Seq<u8>, b: Seq<u8>)
    ensures
        cmp_bytes(b, a) == flip(cmp_bytes(a, b)),
    decreases a.len(),
{
    if a.len() > 0 && b.len() > 0 && a[0] == b[0] {
        lemma_cmp_bytes_flip(a.drop_first(), b.drop_first());
    }
}

/// Swapping the arguments of `cmp_trees` mirrors the outcome.
pub proof fn lemma_cmp_trees_flip(a: Seq<Tree>, b: Seq<Tree>)
    ensures
        cmp_trees(b, a) == flip(cmp_trees(a, b)),
    decreases a,
{
    if a.len() > 0 && b.len() > 0 {
        lemma_cmp_tree_flip(a[0], b[0]);
        if cmp_tree(a[0], b[0]) == Ordering::Equal {
            lemma_cmp_trees_flip(a.drop_first(), b.drop_first());
        }
    }
}

/// Swapping the arguments of `cmp_tree` mirrors the outcome: the order is
/// antisymmetric.
pub proof fn lemma_cmp_tree_flip(a: Tree, b: Tree)
    ensures
        cmp_tree(b, a) == flip(cmp_tree(a, b)),
    decreases a,
{
    match (a, b) {
        (
            Tree::Node { kind: k1, text_len: l1, children: c1 },
            Tree::Node { kind: k2, text_len: l2, children: c2 },
        ) => {
            if k1 == k2 && l1 == l2 {
                lemma_cmp_trees_flip(c1, c2);
            }
        },
        (Tree::Token { kind: k1, text: t1 }, Tree::Token { kind: k2, text: t2 }) => {
            if k1 == k2 {
                lemma_cmp_bytes_flip(t1, t2);
            }
        },
        _ => {},
    }
}

/// `cmp_bytes` is transitive in `Less`.
pub proof fn lemma_cmp_bytes_trans(a: Seq<u8>, b: Seq<u8>, c: Seq<u8>)
    requires
        cmp_bytes(a, b) == Ordering::Less,
        cmp_bytes(b, c) == Ordering::Less,
    ensures
        cmp_bytes(a, c) == Ordering::Less,
    decreases a.len(),
{
    if a.len() > 0 && b.len() > 0 && c.len() > 0 && a[0] == b[0] && b[0] == c[0] {
        lemma_cmp_bytes_trans(a.drop_first(), b.drop_first(), c.drop_first());
    }
}

/// `cmp_trees` is transitive in `Less`.
pub proof fn lemma_cmp_trees_trans(a: Seq<Tree>, b: Seq<Tree>, c: Seq<Tree>)
    requires
        cmp_trees(a, b) == Ordering::Less,
        cmp_trees(b, c) == Ordering::Less,
    ensures
        cmp_trees(a, c) == Ordering::Less,
    decreases a,
{
    if a.len() > 0 && b.len() > 0 && c.len() > 0 {
        let oab = cmp_tree(a[0], b[0]);
        let obc = cmp_tree(b[0], c[0]);
        lemma_cmp_tree_equal(a[0], b[0]);
        lemma_cmp_tree_equal(b[0], c[0]);
        lemma_cmp_tree_equal(a[0], c[0]);
        if oab == Ordering::Less && obc == Ordering::Less {
            lemma_cmp_tree_trans(a[0], b[0], c[0]);
        } else if oab == Ordering::Equal && obc == Ordering::Equal {
            lemma_cmp_trees_trans(a.drop_first(), b.drop_first(), c.drop_first());
        }
    }
}

/// The order on trees is transitive.
pub proof fn lemma_cmp_tree_trans(a: Tree, b: Tree, c: Tree)
    requires
        cmp_tree(a, b) == Ordering::Less,
        cmp_tree(b, c) == Ordering::Less,
    ensures
        cmp_tree(a, c) == Ordering::Less,
    decreases a,
{
    match (a, b, c) {
        (
            Tree::Node { kind: k1, text_len: l1, children: c1 },
            Tree::Node { kind: k2, text_len: l2, children: c2 },
            Tree::Node { kind: k3, text_len: l3, children: c3 },
        ) => {
            if k1 == k2 && l1 == l2 && k2 == k3 && l2 == l3 {
                lemma_cmp_trees_trans(c1, c2, c3);
            }
        },
        (
            Tree::Token { kind: k1, text: t1 },
            Tree::Token { kind: k2, text: t2 },
            Tree::Token { kind: k3, text: t3 },
        ) => {
            if k1 == k2 && k2 == k3 {
                lemma_cmp_bytes_trans(t1, t2, t3);
            }
        },
        _ => {},
    }
}

/// Ordering totality: of "a sorts below b", "a equals b" and "b sorts
/// below a", exactly one holds of any two trees.
pub proof fn lemma_cmp_tree_total(a: Tree, b: Tree)
    ensures
        cmp_tree(a, b) == Ordering::Less || a == b || cmp_tree(b, a) == Ordering::Less,
        cmp_tree(a, b) == Ordering::Less ==> a != b && cmp_tree(b, a) != Ordering::Less,
        a == b ==> cmp_tree(a, b) == Ordering::Equal && cmp_tree(b, a) != Ordering::Less,
{
    lemma_cmp_tree_equal(a, b);
    lemma_cmp_tree_flip(a, b);
}

impl Child {
    /// Three-way comparison of whichever records the two handles own:
    /// every interior record sorts before every leaf.
    pub fn cmp(&self, other: &Child) -> (o: Ordering)
        ensures
            o == cmp_tree(self@, other@),
        decreases self@, 1int,
    {
        match (&self.inner, &other.inner) {
            (NodeOrToken::Node(n1), NodeOrToken::Node(n2)) => n1.cmp(n2),
            (NodeOrToken::Token(t1), NodeOrToken::Token(t2)) => t1.cmp(t2),
            (NodeOrToken::Node(_), NodeOrToken::Token(_)) => Ordering::Less,
            (NodeOrToken::Token(_), NodeOrToken::Node(_)) => Ordering::Greater,
        }
    }
}


impl PartialEq for Token {
    /// Structural equality: equal category and equal text.
    fn eq(&self, other: &Token) -> (r: bool) {
        proof {
            lemma_cmp_tree_equal(self@, other@);
        }
        matches!(self.cmp(other), Ordering::Equal)
    }
}

impl Eq for Token {

}

impl vstd::std_specs::cmp::PartialEqSpecImpl for Token {
    open spec fn obeys_eq_spec() -> bool {
        true
    }

    open spec fn eq_spec(&self, other: &Token) -> bool {
        self@ == other@
    }
}

impl PartialOrd for Token {
    /// Total order by the leaf's key.
    fn partial_cmp(&self, other: &Token) -> (r: Option<Ordering>) {
        Some(self.cmp(other))
    }
}

impl vstd::std_specs::cmp::PartialOrdSpecImpl for Token {
    open spec fn obeys_partial_cmp_spec() -> bool {
        true
    }

    open spec fn partial_cmp_spec(&self, other: &Token) -> Option<Ordering> {
        Some(cmp_tree(self@, other@))
    }
}

impl PartialEq for Node {
    /// Structural equality: equal category, span length and children,
    /// recursively; two independently built records with equal content
    /// are equal.
    fn eq(&self, other: &Node) -> (r: bool) {
        proof {
            lemma_cmp_tree_equal(self@, other@);
        }
        matches!(self.cmp(other), Ordering::Equal)
    }
}

impl Eq for Node {

}

impl vstd::std_specs::cmp::PartialEqSpecImpl for Node {
    open spec fn obeys_eq_spec() -> bool {
        true
    }

    open spec fn eq_spec(&self, other: &Node) -> bool {
        self@ == other@
    }
}

impl PartialOrd for Node {
    /// Total order by the record's key.
    fn partial_cmp(&self, other: &Node) -> (r: Option<Ordering>) {
        Some(self.cmp(other))
    }
}

impl vstd::std_specs::cmp::PartialOrdSpecImpl for Node {
    open spec fn obeys_partial_cmp_spec() -> bool {
        true
    }

    open spec fn partial_cmp_spec(&self, other: &Node) -> Option<Ordering> {
        Some(cmp_tree(self@, other@))
    }
}

impl PartialEq for Child {
    /// Structural equality of whichever records the two handles own.
    fn eq(&self, other: &Child) -> (r: bool) {
        proof {
            lemma_cmp_tree_equal(self@, other@);
        }
        matches!(self.cmp(other), Ordering::Equal)
    }
}

impl Eq for Child {

}

impl vstd::std_specs::cmp::PartialEqSpecImpl for Child {
    open spec fn obeys_eq_spec() -> bool {
        true
    }

    open spec fn eq_spec(&self, other: &Child) -> bool {
        self@ == other@
    }
}

impl PartialOrd for Child {
    /// Total order on child handles.
    fn partial_cmp(&self, other: &Child) -> (r: Option<Ordering>) {
        Some(self.cmp(other))
    }
}

impl vstd::std_specs::cmp::PartialOrdSpecImpl for Child {
    open spec fn obeys_partial_cmp_spec() -> bool {
        true
    }

    open spec fn partial_cmp_spec(&self, other: &Child) -> Option<Ordering> {
        Some(cmp_tree(self@, other@))
    }
}

} // verus!
