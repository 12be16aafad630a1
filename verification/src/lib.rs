//! Compact, immutable, structurally shared trees: interior records
//! (`Node`) with a category, a span length and an ordered child sequence,
//! and leaves (`Token`) with a category and text. Handles share their
//! record by reference counting; a `Child` owns exactly one record of
//! either shape and recovers the shape by inspection. Equality, ordering
//! and hashing are structural, by the recursively defined key that the
//! spec-level `Tree` model captures.
//!
//! Reference counts are updated atomically (`std::sync::Arc`), so handles
//! may be cloned and released from different threads; records are
//! immutable after construction, so readers need no further coordination.

mod eq;
mod iter;

pub use crate::iter::{AllChildren, NodeChildren, TokenChildren};

use vstd::prelude::*;

use std::sync::Arc;

verus! {

broadcast use vstd::std_specs::vec::group_vec_axioms;

/// The mathematical shape of a tree: an interior record with a category,
/// a span length and an ordered child sequence, or a leaf with a category
/// and its text given as UTF-8 bytes.
#[verifier::ext_equal]
pub enum Tree {
    Node { kind: u16, text_len: u32, children: Seq<Tree> },
    Token { kind: u16, text: Seq<u8> },
}

/// Grammar-defined category code of a node or token; opaque to this layer.
#[derive(Clone, Copy, PartialEq, Eq, Structural, Debug, Hash)]
pub struct Kind(pub u16);

/// Span size in text units, stored explicitly and never recomputed.
#[derive(Clone, Copy, PartialEq, Eq, Structural, Debug, Hash)]
pub struct TextLen(pub u32);

#[derive(Debug, Hash)]
pub(crate) struct NodeData {
    pub(crate) kind: Kind,
    pub(crate) text_len: TextLen,
    pub(crate) children: Vec<Child>,
}

#[derive(Debug, Hash)]
pub(crate) struct TokenData {
    pub(crate) kind: Kind,
    pub(crate) text: String,
}

/// Shared, immutable interior record: a category, a span length and an
/// ordered sequence of children, in one reference-counted allocation.
#[derive(Debug, Hash)]
pub struct Node {
    pub(crate) data: Arc<NodeData>,
}

/// Shared, immutable leaf record: a category and its text, in one
/// reference-counted allocation.
#[derive(Debug, Hash)]
pub struct Token {
    pub(crate) data: Arc<TokenData>,
}

/// Two-sided view: either an interior node or a leaf token. Used both to
/// hand ownership of children into `Node::new` and as the borrowed result
/// of inspecting a child.
#[derive(Clone, Copy, Debug, PartialEq, Eq, PartialOrd, Ord, Hash)]
pub enum NodeOrToken<N, T> {
    Node(N),
    Token(T),
}

/// Owning handle to exactly one child, which is either a `Node` or a
/// `Token`; the side is recovered by inspecting the handle itself, never
/// from separate storage.
#[derive(Debug, Hash)]
pub struct Child {
    pub(crate) inner: NodeOrToken<Node, Token>,
}

/// Relies on `std::sync::Arc::clone`: the returned handle shares the same
/// allocation as the argument (raising its reference count), so it carries
/// the same value.
#[verifier::external_body]
fn arc_clone<T>(a: &Arc<T>) -> (r: Arc<T>)
    ensures
        r == *a,
{
    Arc::clone(a)
}

impl Token {
    /// The leaf this handle stands for, as a mathematical tree.
    pub closed spec fn tree(&self) -> Tree {
        Tree::Token {
            kind: self.data.kind.0,
            text: vstd::utf8::encode_utf8(self.data.text@),
        }
    }

    #[verifier::type_invariant]
    spec fn wf(&self) -> bool {
        vstd::utf8::encode_utf8(self.data.text@).len() <= u32::MAX
    }
}

impl Node {
    /// The interior record this handle stands for, as a mathematical tree.
    pub closed spec fn tree(&self) -> Tree
        decreases self,
        via Self::tree_decreases
    {
        Tree::Node {
            kind: self.data.kind.0,
            text_len: self.data.text_len.0,
            children: Seq::new(
                self.data.children@.len(),
                |i: int| if 0 <= i < self.data.children@.len() {
                    match self.data.children@[i].inner {
                        NodeOrToken::Node(n) => n.tree(),
                        NodeOrToken::Token(t) => t.tree(),
                    }
                } else {
                    // Never read: `Seq::new` consults the closure only
                    // below the length; the guard keeps it total.
                    Tree::Token { kind: 0, text: Seq::empty() }
                },
            ),
        }
    }

    #[via_fn]
    proof fn tree_decreases(&self) {
        let cs = self.data.children;
        assert forall|i: int| 0 <= i < cs@.len() implies decreases_to!(self => cs@[i]) by {
            assert(decreases_to!(self => self.data));
            assert(decreases_to!(self.data => cs));
            assert(decreases_to!(cs => cs@));
            assert(decreases_to!(cs@ => cs@[i]));
        }
    }
}

impl Child {
    /// The tree of whichever record this handle owns.
    pub closed spec fn tree(&self) -> Tree {
        match self.inner {
            NodeOrToken::Node(n) => n.tree(),
            NodeOrToken::Token(t) => t.tree(),
        }
    }
}

impl View for Token {
    type V = Tree;

    open spec fn view(&self) -> Tree {
        self.tree()
    }
}

impl View for Node {
    type V = Tree;

    open spec fn view(&self) -> Tree {
        self.tree()
    }
}

impl View for Child {
    type V = Tree;

    open spec fn view(&self) -> Tree {
        self.tree()
    }
}

/// The tree a two-sided view hands over or lends out.
pub open spec fn view_tree(v: NodeOrToken<Node, Token>) -> Tree {
    match v {
        NodeOrToken::Node(n) => n@,
        NodeOrToken::Token(t) => t@,
    }
}

/// Every `Token` handle designates a leaf.
pub broadcast proof fn lemma_token_view(t: &Token)
    ensures
        #[trigger] t@ is Token,
{
}

/// Every `Node` handle designates an interior record.
pub broadcast proof fn lemma_node_view(n: &Node)
    ensures
        #[trigger] n@ is Node,
{
}

/// The byte-level text model loses nothing: two texts with one UTF-8
/// encoding are one text, so leaves equal under the model carry equal
/// text.
pub proof fn lemma_encoding_injective(s1: Seq<char>, s2: Seq<char>)
    requires
        vstd::utf8::encode_utf8(s1) == vstd::utf8::encode_utf8(s2),
    ensures
        s1 == s2,
{
    vstd::utf8::encode_utf8_decode_utf8(s1);
    vstd::utf8::encode_utf8_decode_utf8(s2);
}

/// Tag round trip: a child built from a leaf is always inspected as a
/// leaf, and one built from an interior record as an interior record;
/// no handle is ever taken for the other side.
pub proof fn lemma_tag_round_trip(v: NodeOrToken<Node, Token>)
    ensures
        v is Node <==> view_tree(v) is Node,
        v is Token <==> view_tree(v) is Token,
{
}

impl Clone for Node {
    /// A new handle to the same record.
    fn clone(&self) -> (res: Self)
        ensures
            res@ == self@,
    {
        Node { data: arc_clone(&self.data) }
    }
}

impl Clone for Token {
    /// A new handle to the same record.
    fn clone(&self) -> (res: Self)
        ensures
            res@ == self@,
    {
        proof {
            use_type_invariant(self);
        }
        Token { data: arc_clone(&self.data) }
    }
}

impl Clone for Child {
    /// A new handle to the same record the child owns.
    fn clone(&self) -> (res: Self)
        ensures
            res@ == self@,
    {
        match &self.inner {
            NodeOrToken::Node(n) => Child { inner: NodeOrToken::Node(n.clone()) },
            NodeOrToken::Token(t) => Child { inner: NodeOrToken::Token(t.clone()) },
        }
    }
}

impl Node {
    /// Builds an interior record from a category, a span length and an
    /// exact-size sequence of children, absorbing ownership of every child.
    pub fn new(kind: Kind, text_len: TextLen, children: Vec<NodeOrToken<Node, Token>>) -> (n: Node)
        requires
            children@.len() <= u32::MAX,
        ensures
            n@ == (Tree::Node {
                kind: kind.0,
                text_len: text_len.0,
                children: Seq::new(children@.len(), |i: int| view_tree(children@[i])),
            }),
    {
        let ghost orig = children@;
        let mut children = children;
        let mut packed: Vec<Child> = Vec::new();
        let n: usize = children.len();
        while children.len() > 0
            invariant
                packed@.len() + children@.len() == n == orig.len(),
                children@ == orig.skip(packed@.len() as int),
                forall|j: int| 0 <= j < packed@.len() ==> packed@[j]@ == view_tree(orig[j]),
            decreases children@.len(),
        {
            let c = children.remove(0);
            assert(c == orig[packed@.len() as int]);
            packed.push(Child::new(c));
        }
        let ghost packedv = packed@;
        let res = Node { data: Arc::new(NodeData { kind, text_len, children: packed }) };
        proof {
            assert forall|i: int| 0 <= i < orig.len() implies res@->Node_children[i] == view_tree(
                orig[i],
            ) by {
                assert(res.data.children@ == packedv);
                assert(packedv[i]@ == view_tree(orig[i]));
            }
            assert(res@->Node_children =~= Seq::new(orig.len(), |i: int| view_tree(orig[i])));
        }
        res
    }

    /// The category stored in the record's header.
    pub fn kind(&self) -> (k: Kind)
        ensures
            k.0 == self@->Node_kind,
    {
        Kind(self.data.kind.0)
    }

    /// The span length stored in the record's header, exactly as it was
    /// supplied at construction.
    pub fn text_len(&self) -> (l: TextLen)
        ensures
            l.0 == self@->Node_text_len,
    {
        TextLen(self.data.text_len.0)
    }

    /// A fresh cursor over every child, in stored order.
    pub fn all_children<'a>(&'a self) -> (it: AllChildren<'a>)
        ensures
            it.source() == self@->Node_children,
            it.remaining() == self@->Node_children,
    {
        let cs = self.children();
        proof {
            assert(crate::iter::child_trees(cs@) =~= self@->Node_children);
        }
        AllChildren::over(cs)
    }

    /// A fresh cursor over the child interior records only, in stored
    /// order.
    pub fn node_children<'a>(&'a self) -> (it: NodeChildren<'a>)
        ensures
            it.source() == self@->Node_children,
            it.remaining() == self@->Node_children,
    {
        let cs = self.children();
        proof {
            assert(crate::iter::child_trees(cs@) =~= self@->Node_children);
        }
        NodeChildren::over(cs)
    }

    /// A fresh cursor over the child leaves only, in stored order.
    pub fn token_children<'a>(&'a self) -> (it: TokenChildren<'a>)
        ensures
            it.source() == self@->Node_children,
            it.remaining() == self@->Node_children,
    {
        let cs = self.children();
        proof {
            assert(crate::iter::child_trees(cs@) =~= self@->Node_children);
        }
        TokenChildren::over(cs)
    }

    /// The stored child sequence.
    pub(crate) fn children(&self) -> (cs: &Vec<Child>)
        ensures
            cs@.len() == self@->Node_children.len(),
            forall|i: int| 0 <= i < cs@.len() ==> cs@[i]@ == self@->Node_children[i],
    {
        &self.data.children
    }
}

impl Token {
    /// Builds a leaf from a category and a text slice, copying the text
    /// into the new record.
    pub fn new(kind: Kind, text: &str) -> (t: Token)
        requires
            vstd::utf8::encode_utf8(text@).len() <= u32::MAX,
        ensures
            t@ == (Tree::Token { kind: kind.0, text: vstd::utf8::encode_utf8(text@) }),
    {
        Token { data: Arc::new(TokenData { kind, text: text.to_owned() }) }
    }

    /// The category stored in the record's header.
    pub fn kind(&self) -> (k: Kind)
        ensures
            k.0 == self@->Token_kind,
    {
        Kind(self.data.kind.0)
    }

    /// The stored text's size in bytes.
    pub fn text_len(&self) -> (l: TextLen)
        ensures
            l.0 == self@->Token_text.len(),
    {
        proof {
            use_type_invariant(self);
        }
        TextLen(self.data.text.as_str().len() as u32)
    }

    /// The stored text.
    pub fn text(&self) -> (s: &str)
        ensures
            vstd::utf8::encode_utf8(s@) == self@->Token_text,
    {
        self.data.text.as_str()
    }
}

impl Child {
    /// Absorbs ownership of a two-sided view into a bare child handle.
    pub fn new(node_or_token: NodeOrToken<Node, Token>) -> (c: Child)
        ensures
            c@ == view_tree(node_or_token),
    {
        Child { inner: node_or_token }
    }

    /// Recovers which side this handle owns, lending the record out. This
    /// is the sole site of discrimination in the whole crate.
    pub fn as_ref(&self) -> (r: NodeOrToken<&Node, &Token>)
        ensures
            match r {
                NodeOrToken::Node(n) => n@ == self@ && self@ is Node,
                NodeOrToken::Token(t) => t@ == self@ && self@ is Token,
            },
    {
        match &self.inner {
            NodeOrToken::Node(n) => NodeOrToken::Node(n),
            NodeOrToken::Token(t) => NodeOrToken::Token(t),
        }
    }
}

/// Whether a child handle designates a leaf; the safe analogue of reading
/// the discriminating bit of a tagged handle.
pub fn has_tag(child: &Child) -> (b: bool)
    ensures
        b == (child@ is Token),
{
    match &child.inner {
        NodeOrToken::Node(_) => false,
        NodeOrToken::Token(_) => true,
    }
}


} // verus!
