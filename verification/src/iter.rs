use vstd::prelude::*;

use crate::{Child, Node, NodeOrToken, Token, Tree};

verus! {

broadcast use vstd::std_specs::vec::group_vec_axioms;

/// The trees of a child sequence, in stored order.
pub open spec fn child_trees(cs: Seq<Child>) -> Seq<Tree> {
    Seq::new(cs.len(), |i: int| cs[i]@)
}

/// The subsequence of interior-record trees, in unchanged relative order.
pub open spec fn nodes_of(s: Seq<Tree>) -> Seq<Tree>
    decreases s.len(),
{
    if s.len() == 0 {
        Seq::empty()
    } else if s[0] is Node {
        seq![s[0]] + nodes_of(s.drop_first())
    } else {
        nodes_of(s.drop_first())
    }
}

/// The subsequence of leaf trees, in unchanged relative order.
pub open spec fn tokens_of(s: Seq<Tree>) -> Seq<Tree>
    decreases s.len(),
{
    if s.len() == 0 {
        Seq::empty()
    } else if s[0] is Token {
        seq![s[0]] + tokens_of(s.drop_first())
    } else {
        tokens_of(s.drop_first())
    }
}

/// Cursor over every child of one record, in stored order. Each cursor is
/// independent; walking it never changes the record.
pub struct AllChildren<'a> {
    pub(crate) children: &'a Vec<Child>,
    pub(crate) pos: usize,
}

/// Cursor over the child interior records only, in stored order.
pub struct NodeChildren<'a> {
    pub(crate) children: &'a Vec<Child>,
    pub(crate) pos: usize,
}

/// Cursor over the child leaves only, in stored order.
pub struct TokenChildren<'a> {
    pub(crate) children: &'a Vec<Child>,
    pub(crate) pos: usize,
}

impl<'a> AllChildren<'a> {
    /// The full child sequence this cursor walks.
    pub closed spec fn source(&self) -> Seq<Tree> {
        child_trees(self.children@)
    }

    /// What the cursor has not yet yielded.
    pub closed spec fn remaining(&self) -> Seq<Tree> {
        self.source().skip(self.pos as int)
    }

    #[verifier::type_invariant]
    pub(crate) open spec fn wf(&self) -> bool {
        self.pos <= self.children@.len()
    }

    pub(crate) fn over(children: &'a Vec<Child>) -> (it: AllChildren<'a>)
        ensures
            it.source() == child_trees(children@),
            it.remaining() == child_trees(children@),
    {
        let it = AllChildren { children, pos: 0 };
        proof {
            assert(it.remaining() =~= it.source());
        }
        it
    }

    /// Yields the next child as a borrowed two-sided view, or nothing
    /// once every child has been yielded.
    pub fn next(&mut self) -> (r: Option<NodeOrToken<&'a Node, &'a Token>>)
        ensures
            final(self).source() == old(self).source(),
            match r {
                Some(v) => {
                    &&& old(self).remaining().len() > 0
                    &&& (match v {
                        NodeOrToken::Node(n) => n@ == old(self).remaining()[0],
                        NodeOrToken::Token(t) => t@ == old(self).remaining()[0],
                    })
                    &&& final(self).remaining() == old(self).remaining().drop_first()
                },
                None => {
                    &&& old(self).remaining().len() == 0
                    &&& *final(self) == *old(self)
                },
            },
    {
        proof {
            use_type_invariant(&*self);
        }
        let cs: &'a Vec<Child> = self.children;
        if self.pos < cs.len() {
            let c = &cs[self.pos];
            proof {
                assert(old(self).remaining()[0] == c@);
                assert(old(self).remaining().drop_first() =~= self.source().skip(
                    self.pos + 1,
                ));
            }
            self.pos = self.pos + 1;
            Some(c.as_ref())
        } else {
            None
        }
    }

    /// How many children are still to be yielded.
    pub fn len(&self) -> (l: usize)
        ensures
            l == self.remaining().len(),
    {
        proof {
            use_type_invariant(self);
        }
        self.children.len() - self.pos
    }
}

impl<'a> NodeChildren<'a> {
    /// The full child sequence this cursor filters.
    pub closed spec fn source(&self) -> Seq<Tree> {
        child_trees(self.children@)
    }

    /// What the cursor has not yet looked at.
    pub closed spec fn remaining(&self) -> Seq<Tree> {
        self.source().skip(self.pos as int)
    }

    #[verifier::type_invariant]
    pub(crate) open spec fn wf(&self) -> bool {
        self.pos <= self.children@.len()
    }

    pub(crate) fn over(children: &'a Vec<Child>) -> (it: NodeChildren<'a>)
        ensures
            it.source() == child_trees(children@),
            it.remaining() == child_trees(children@),
    {
        let it = NodeChildren { children, pos: 0 };
        proof {
            assert(it.remaining() =~= it.source());
        }
        it
    }

    /// Yields the next child interior record, skipping leaves, or nothing
    /// once no interior record is left.
    #[verifier::loop_isolation(false)]
    pub fn next(&mut self) -> (r: Option<&'a Node>)
        ensures
            final(self).source() == old(self).source(),
            match r {
                Some(n) => {
                    &&& nodes_of(old(self).remaining()).len() > 0
                    &&& n@ == nodes_of(old(self).remaining())[0]
                    &&& nodes_of(final(self).remaining()) == nodes_of(
                        old(self).remaining(),
                    ).drop_first()
                },
                None => {
                    &&& nodes_of(old(self).remaining()).len() == 0
                    &&& final(self).remaining().len() == 0
                },
            },
    {
        proof {
            use_type_invariant(&*self);
        }
        let cs: &'a Vec<Child> = self.children;
        let ghost src = self.source();
        let ghost p0 = self.pos as int;
        while self.pos < cs.len()
            invariant
                p0 <= self.pos <= cs@.len(),
                self.children == cs,
                nodes_of(src.skip(p0)) == nodes_of(src.skip(self.pos as int)),
            decreases cs@.len() - self.pos,
        {
            let c = &cs[self.pos];
            proof {
                assert(src.skip(self.pos as int)[0] == c@);
                assert(src.skip(self.pos as int).drop_first() =~= src.skip(self.pos + 1));
            }
            match c.as_ref() {
                NodeOrToken::Node(n) => {
                    proof {
                        assert(nodes_of(src.skip(self.pos as int)) == seq![c@] + nodes_of(
                            src.skip(self.pos + 1),
                        ));
                        assert((seq![c@] + nodes_of(src.skip(self.pos + 1))).drop_first()
                            =~= nodes_of(src.skip(self.pos + 1)));
                    }
                    self.pos = self.pos + 1;
                    return Some(n);
                },
                NodeOrToken::Token(_) => {
                    self.pos = self.pos + 1;
                },
            }
        }
        proof {
            assert(src.skip(cs@.len() as int).len() == 0);
        }
        None
    }
}

impl<'a> TokenChildren<'a> {
    /// The full child sequence this cursor filters.
    pub closed spec fn source(&self) -> Seq<Tree> {
        child_trees(self.children@)
    }

    /// What the cursor has not yet looked at.
    pub closed spec fn remaining(&self) -> Seq<Tree> {
        self.source().skip(self.pos as int)
    }

    #[verifier::type_invariant]
    pub(crate) open spec fn wf(&self) -> bool {
        self.pos <= self.children@.len()
    }

    pub(crate) fn over(children: &'a Vec<Child>) -> (it: TokenChildren<'a>)
        ensures
            it.source() == child_trees(children@),
            it.remaining() == child_trees(children@),
    {
        let it = TokenChildren { children, pos: 0 };
        proof {
            assert(it.remaining() =~= it.source());
        }
        it
    }

    /// Yields the next child leaf, skipping interior records, or nothing
    /// once no leaf is left.
    #[verifier::loop_isolation(false)]
    pub fn next(&mut self) -> (r: Option<&'a Token>)
        ensures
            final(self).source() == old(self).source(),
            match r {
                Some(t) => {
                    &&& tokens_of(old(self).remaining()).len() > 0
                    &&& t@ == tokens_of(old(self).remaining())[0]
                    &&& tokens_of(final(self).remaining()) == tokens_of(
                        old(self).remaining(),
                    ).drop_first()
                },
                None => {
                    &&& tokens_of(old(self).remaining()).len() == 0
                    &&& final(self).remaining().len() == 0
                },
            },
    {
        proof {
            use_type_invariant(&*self);
        }
        let cs: &'a Vec<Child> = self.children;
        let ghost src = self.source();
        let ghost p0 = self.pos as int;
        while self.pos < cs.len()
            invariant
                p0 <= self.pos <= cs@.len(),
                self.children == cs,
                tokens_of(src.skip(p0)) == tokens_of(src.skip(self.pos as int)),
            decreases cs@.len() - self.pos,
        {
            let c = &cs[self.pos];
            proof {
                assert(src.skip(self.pos as int)[0] == c@);
                assert(src.skip(self.pos as int).drop_first() =~= src.skip(self.pos + 1));
            }
            match c.as_ref() {
                NodeOrToken::Token(t) => {
                    proof {
                        assert(tokens_of(src.skip(self.pos as int)) == seq![c@] + tokens_of(
                            src.skip(self.pos + 1),
                        ));
                        assert((seq![c@] + tokens_of(src.skip(self.pos + 1))).drop_first()
                            =~= tokens_of(src.skip(self.pos + 1)));
                    }
                    self.pos = self.pos + 1;
                    return Some(t);
                },
                NodeOrToken::Node(_) => {
                    self.pos = self.pos + 1;
                },
            }
        }
        proof {
            assert(src.skip(cs@.len() as int).len() == 0);
        }
        None
    }
}

} // verus!
