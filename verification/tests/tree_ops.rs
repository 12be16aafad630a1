use green_tree::{Child, Kind, Node, NodeOrToken, TextLen, Token};

use std::collections::hash_map::DefaultHasher;
use std::hash::{Hash, Hasher};

fn hash_of<T: Hash>(value: &T) -> u64 {
    let mut hasher = DefaultHasher::new();
    value.hash(&mut hasher);
    hasher.finish()
}

fn leaf(kind: u16, text: &str) -> Token {
    Token::new(Kind(kind), text)
}

#[test]
fn token_accessors() {
    let t = leaf(5, "fn");
    assert_eq!(t.kind(), Kind(5));
    assert_eq!(t.text_len(), TextLen(2));
    assert_eq!(t.text(), "fn");
}

#[test]
fn token_empty_text() {
    let t = leaf(1, "");
    assert_eq!(t.text_len(), TextLen(0));
    assert_eq!(t.text(), "");
}

#[test]
fn token_text_len_counts_bytes() {
    // 'e' is one byte, 'é' two: the length is the byte count, not the
    // character count.
    let t = leaf(3, "eé");
    assert_eq!(t.text_len(), TextLen(3));
    assert_eq!(t.text(), "eé");
}

#[test]
fn node_stores_length_without_recomputing() {
    // The span length is stored as supplied, never derived from children.
    let n = Node::new(Kind(10), TextLen(7), vec![]);
    assert_eq!(n.kind(), Kind(10));
    assert_eq!(n.text_len(), TextLen(7));
    assert_eq!(n.all_children().len(), 0);
}

#[test]
fn tag_round_trip_token() {
    let c = Child::new(NodeOrToken::Token(leaf(5, "fn")));
    assert!(green_tree::has_tag(&c));
    match c.as_ref() {
        NodeOrToken::Token(t) => assert_eq!(t.text(), "fn"),
        NodeOrToken::Node(_) => panic!("leaf inspected as interior record"),
    }
}

#[test]
fn tag_round_trip_node() {
    let n = Node::new(Kind(9), TextLen(0), vec![]);
    let c = Child::new(NodeOrToken::Node(n));
    assert!(!green_tree::has_tag(&c));
    match c.as_ref() {
        NodeOrToken::Node(m) => assert_eq!(m.kind(), Kind(9)),
        NodeOrToken::Token(_) => panic!("interior record inspected as leaf"),
    }
}

#[test]
fn structural_equality_of_tokens() {
    let u1 = leaf(5, "fn");
    let u2 = leaf(5, "fn");
    assert!(u1 == u2);
    assert_eq!(hash_of(&u1), hash_of(&u2));
    assert!(leaf(5, "fn") != leaf(6, "fn"));
    assert!(leaf(5, "fn") != leaf(5, "fx"));
}

#[test]
fn structural_equality_of_nodes() {
    let n1 = Node::new(
        Kind(10),
        TextLen(4),
        vec![NodeOrToken::Token(leaf(5, "fn")), NodeOrToken::Token(leaf(6, "ma"))],
    );
    let n2 = Node::new(
        Kind(10),
        TextLen(4),
        vec![NodeOrToken::Token(leaf(5, "fn")), NodeOrToken::Token(leaf(6, "ma"))],
    );
    assert!(n1 == n2);
    assert_eq!(hash_of(&n1), hash_of(&n2));

    let deep1 = Node::new(Kind(11), TextLen(4), vec![NodeOrToken::Node(n1)]);
    let deep2 = Node::new(Kind(11), TextLen(4), vec![NodeOrToken::Node(n2)]);
    assert!(deep1 == deep2);
    assert_eq!(hash_of(&deep1), hash_of(&deep2));

    let other = Node::new(
        Kind(10),
        TextLen(4),
        vec![NodeOrToken::Token(leaf(6, "ma")), NodeOrToken::Token(leaf(5, "fn"))],
    );
    assert!(deep1 != Node::new(Kind(11), TextLen(4), vec![NodeOrToken::Node(other)]));
}

#[test]
fn identity_equality_implies_structural_equality() {
    let n = Node::new(Kind(2), TextLen(1), vec![NodeOrToken::Token(leaf(1, "x"))]);
    let same = n.clone();
    assert!(n == same);
    assert_eq!(hash_of(&n), hash_of(&same));
}

#[test]
fn ordering_of_tokens() {
    // Category decides first, then the text, byte by byte.
    assert!(leaf(1, "zzz") < leaf(2, "aaa"));
    assert!(leaf(3, "ab") < leaf(3, "b"));
    assert!(leaf(3, "a") < leaf(3, "ab"));
    assert!(leaf(3, "b") > leaf(3, "ab"));
}

#[test]
fn ordering_of_nodes() {
    let small = Node::new(Kind(1), TextLen(9), vec![]);
    let large = Node::new(Kind(2), TextLen(0), vec![]);
    assert!(small < large);

    let short = Node::new(Kind(1), TextLen(1), vec![]);
    let long = Node::new(Kind(1), TextLen(2), vec![]);
    assert!(short < long);

    let few = Node::new(Kind(1), TextLen(1), vec![NodeOrToken::Token(leaf(1, "a"))]);
    let more = Node::new(
        Kind(1),
        TextLen(1),
        vec![NodeOrToken::Token(leaf(1, "a")), NodeOrToken::Token(leaf(1, "b"))],
    );
    assert!(few < more);

    let first = Node::new(Kind(1), TextLen(1), vec![NodeOrToken::Token(leaf(1, "a"))]);
    let second = Node::new(Kind(1), TextLen(1), vec![NodeOrToken::Token(leaf(1, "b"))]);
    assert!(first < second);
}

#[test]
fn ordering_exactly_one_holds() {
    let values = vec![
        Node::new(Kind(1), TextLen(0), vec![]),
        Node::new(Kind(1), TextLen(0), vec![]),
        Node::new(Kind(2), TextLen(0), vec![]),
        Node::new(Kind(1), TextLen(3), vec![NodeOrToken::Token(leaf(4, "x"))]),
    ];
    for a in &values {
        for b in &values {
            let below = a < b;
            let equal = a == b;
            let above = b < a;
            assert_eq!(
                usize::from(below) + usize::from(equal) + usize::from(above),
                1
            );
        }
    }
}

#[test]
fn ordering_is_transitive() {
    let a = Node::new(Kind(1), TextLen(0), vec![]);
    let b = Node::new(Kind(1), TextLen(5), vec![]);
    let c = Node::new(Kind(2), TextLen(0), vec![]);
    assert!(a < b);
    assert!(b < c);
    assert!(a < c);

    let ta = leaf(7, "ab");
    let tb = leaf(7, "b");
    let tc = leaf(8, "a");
    assert!(ta < tb);
    assert!(tb < tc);
    assert!(ta < tc);
}

#[test]
fn all_children_yields_in_construction_order() {
    let n = Node::new(
        Kind(20),
        TextLen(3),
        vec![
            NodeOrToken::Token(leaf(1, "a")),
            NodeOrToken::Node(Node::new(Kind(2), TextLen(1), vec![])),
            NodeOrToken::Token(leaf(3, "c")),
        ],
    );
    let mut it = n.all_children();
    assert_eq!(it.len(), 3);
    match it.next() {
        Some(NodeOrToken::Token(t)) => assert_eq!(t.kind(), Kind(1)),
        _ => panic!("expected the first leaf"),
    }
    assert_eq!(it.len(), 2);
    match it.next() {
        Some(NodeOrToken::Node(m)) => assert_eq!(m.kind(), Kind(2)),
        _ => panic!("expected the interior record"),
    }
    match it.next() {
        Some(NodeOrToken::Token(t)) => assert_eq!(t.kind(), Kind(3)),
        _ => panic!("expected the second leaf"),
    }
    assert!(it.next().is_none());
    assert_eq!(it.len(), 0);
}

#[test]
fn filtered_cursors_keep_relative_order() {
    let n = Node::new(
        Kind(20),
        TextLen(3),
        vec![
            NodeOrToken::Token(leaf(1, "a")),
            NodeOrToken::Node(Node::new(Kind(2), TextLen(1), vec![])),
            NodeOrToken::Token(leaf(3, "c")),
            NodeOrToken::Node(Node::new(Kind(4), TextLen(1), vec![])),
        ],
    );
    let mut nodes = n.node_children();
    let mut seen_nodes = vec![];
    while let Some(m) = nodes.next() {
        seen_nodes.push(m.kind().0);
    }
    assert_eq!(seen_nodes, vec![2, 4]);

    let mut tokens = n.token_children();
    let mut seen_tokens = vec![];
    while let Some(t) = tokens.next() {
        seen_tokens.push(t.kind().0);
    }
    assert_eq!(seen_tokens, vec![1, 3]);
}

#[test]
fn cursors_are_restartable() {
    let n = Node::new(Kind(1), TextLen(1), vec![NodeOrToken::Token(leaf(9, "z"))]);
    let mut first = n.all_children();
    assert!(first.next().is_some());
    assert!(first.next().is_none());
    let mut second = n.all_children();
    assert!(second.next().is_some());
}

#[test]
fn shared_leaf_scenario() {
    let u1 = Token::new(Kind(5), "fn");
    let u2 = Token::new(Kind(5), "fn");
    assert!(u1 == u2);

    let c = Node::new(Kind(10), TextLen(2), vec![NodeOrToken::Token(u1)]);
    assert_eq!(c.text_len(), TextLen(2));
    let mut it = c.all_children();
    match it.next() {
        Some(NodeOrToken::Token(t)) => assert_eq!(t.text(), "fn"),
        _ => panic!("expected exactly one leaf child"),
    }
    assert!(it.next().is_none());

    let c2 = c.clone();
    drop(c);
    assert_eq!(c2.kind(), Kind(10));
}

#[test]
fn clone_keeps_record_alive() {
    let t = leaf(6, "keep");
    let t2 = t.clone();
    drop(t);
    assert_eq!(t2.text(), "keep");
    assert_eq!(t2.text_len(), TextLen(4));

    let n = Node::new(Kind(7), TextLen(4), vec![NodeOrToken::Token(t2.clone())]);
    let n2 = n.clone();
    drop(n);
    assert_eq!(n2.kind(), Kind(7));
    assert_eq!(n2.all_children().len(), 1);
}

#[test]
fn child_comparisons_follow_the_owned_record() {
    let ca = Child::new(NodeOrToken::Token(leaf(5, "fn")));
    let cb = Child::new(NodeOrToken::Token(leaf(5, "fn")));
    assert!(ca == cb);
    assert_eq!(hash_of(&ca), hash_of(&cb));

    // Every interior record sorts before every leaf.
    let cn = Child::new(NodeOrToken::Node(Node::new(Kind(u16::MAX), TextLen(0), vec![])));
    let ct = Child::new(NodeOrToken::Token(leaf(0, "")));
    assert!(cn < ct);
}
