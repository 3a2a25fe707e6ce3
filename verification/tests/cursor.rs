//! Tests of the cursor API: navigation, typed views, unwrapping and the
//! writer primitives.

use facet_json::iters::{EntryIter, ItemIter, ObjectKey};
use facet_json::peek::{Peek, PeekStruct, PeekTuple, ValueOrder};
use facet_json::text::{write_json_escaped_char, write_json_string};
use facet_json::tree::{
    Caps, Category, Expected, FieldDesc, Node, NodeRec, ReflectError, SeqKind, StructKind,
    ValueTree,
};

fn rec(node: Node) -> NodeRec {
    NodeRec { node, caps: Caps::none() }
}

fn chars(s: &str) -> Vec<char> {
    s.chars().collect()
}

fn sample_tree() -> ValueTree {
    let t = ValueTree {
        nodes: vec![
            rec(Node::Number(chars("7"))),
            rec(Node::Text(chars("hi"))),
            rec(Node::Pointer { inner: 1, borrow_ok: true }),
            rec(Node::Sequence { kind: SeqKind::List, items: vec![0, 1] }),
            rec(Node::Boolean(true)),
        ],
    };
    assert!(t.well_formed());
    t
}

#[test]
fn category_dispatch() {
    let t = sample_tree();
    assert_eq!(Peek::at(0, &t).category(&t), Category::Number);
    assert_eq!(Peek::at(1, &t).category(&t), Category::Text);
    assert_eq!(Peek::at(2, &t).category(&t), Category::SmartPointer);
    assert_eq!(Peek::at(3, &t).category(&t), Category::List);
    assert_eq!(Peek::at(4, &t).category(&t), Category::Boolean);
}

#[test]
fn navigation_succeeds_on_matching_category() {
    let t = sample_tree();
    assert!(Peek::at(3, &t).into_list(&t).is_ok());
    assert!(Peek::at(3, &t).into_list_like(&t).is_ok());
    assert!(Peek::at(2, &t).into_smart_pointer(&t).is_ok());
}

#[test]
fn navigation_fails_with_was_not_a() {
    let t = sample_tree();
    assert_eq!(
        Peek::at(0, &t).into_struct(&t).unwrap_err(),
        ReflectError::WasNotA { expected: Expected::Struct }
    );
    assert_eq!(
        Peek::at(0, &t).into_enum(&t).unwrap_err(),
        ReflectError::WasNotA { expected: Expected::Enum }
    );
    assert_eq!(
        Peek::at(0, &t).into_map(&t).unwrap_err(),
        ReflectError::WasNotA { expected: Expected::Mapping }
    );
    assert_eq!(
        Peek::at(0, &t).into_tuple(&t).unwrap_err(),
        ReflectError::WasNotA { expected: Expected::Tuple }
    );
    assert_eq!(
        Peek::at(0, &t).into_option(&t).unwrap_err(),
        ReflectError::WasNotA { expected: Expected::Optional }
    );
    assert_eq!(
        Peek::at(0, &t).into_list_like(&t).unwrap_err(),
        ReflectError::WasNotA { expected: Expected::ListLike }
    );
}

#[test]
fn get_bool_checks_the_shape() {
    let t = sample_tree();
    assert_eq!(Peek::at(4, &t).get_bool(&t).unwrap(), true);
    assert_eq!(
        Peek::at(0, &t).get_bool(&t).unwrap_err(),
        ReflectError::WrongShape { expected: Category::Boolean, actual: Category::Number }
    );
}

#[test]
fn identity_is_node_identity() {
    let t = sample_tree();
    let a = Peek::at(1, &t);
    let b = Peek::at(1, &t);
    let c = Peek::at(2, &t);
    assert!(a.ptr_eq(&b));
    assert!(!a.ptr_eq(&c));
    assert_eq!(a.id(), b.id());
    assert_ne!(a.id(), c.id());
}

#[test]
fn as_str_sees_through_wrappers() {
    let t = sample_tree();
    let through = Peek::at(2, &t).as_str(&t).unwrap();
    assert_eq!(through, Some(chars("hi")));
    assert_eq!(Peek::at(0, &t).as_str(&t).unwrap(), None);
}

#[test]
fn inner_peek_single_layer() {
    let t = sample_tree();
    assert_eq!(Peek::at(2, &t).inner_peek(&t).unwrap().unwrap().idx, 1);
    assert_eq!(Peek::at(0, &t).inner_peek(&t).unwrap(), None);
}

#[test]
fn innermost_peek_is_idempotent() {
    let t = ValueTree {
        nodes: vec![
            rec(Node::Number(chars("9"))),
            rec(Node::Struct {
                kind: StructKind::TupleStruct,
                transparent: true,
                fields: vec![FieldDesc { name: chars("0"), child: 0, emit: true }],
            }),
            rec(Node::Pointer { inner: 1, borrow_ok: true }),
        ],
    };
    assert!(t.well_formed());
    let once = Peek::at(2, &t).innermost_peek(&t).unwrap();
    let twice = once.innermost_peek(&t).unwrap();
    assert_eq!(once.idx, 0);
    assert_eq!(twice.idx, once.idx);
}

#[test]
fn innermost_peek_propagates_borrow_failure() {
    let t = ValueTree {
        nodes: vec![
            rec(Node::Number(chars("9"))),
            rec(Node::Pointer { inner: 0, borrow_ok: false }),
            rec(Node::Pointer { inner: 1, borrow_ok: true }),
        ],
    };
    assert!(t.well_formed());
    assert_eq!(
        Peek::at(2, &t).innermost_peek(&t).unwrap_err(),
        ReflectError::BorrowFailed
    );
}

#[test]
fn display_text_renders_scalars() {
    let t = sample_tree();
    assert_eq!(Peek::at(0, &t).display_text(&t), Some(chars("7")));
    assert_eq!(Peek::at(4, &t).display_text(&t), Some(chars("true")));
    assert_eq!(Peek::at(3, &t).display_text(&t), None);
}

#[test]
fn well_formed_rejects_upward_links() {
    let bad = ValueTree {
        nodes: vec![rec(Node::Sequence { kind: SeqKind::List, items: vec![0] })],
    };
    assert!(!bad.well_formed());
    let bad2 = ValueTree {
        nodes: vec![rec(Node::Pointer { inner: 3, borrow_ok: true })],
    };
    assert!(!bad2.well_formed());
}

#[test]
fn escaped_char_writer_matches_table() {
    let mut out: Vec<char> = Vec::new();
    write_json_escaped_char(&mut out, '"');
    write_json_escaped_char(&mut out, '\\');
    write_json_escaped_char(&mut out, '\n');
    write_json_escaped_char(&mut out, '\u{1}');
    write_json_escaped_char(&mut out, '\u{9f}');
    write_json_escaped_char(&mut out, '\u{e9}');
    let s: String = out.into_iter().collect();
    assert_eq!(s, "\\\"\\\\\\n\\u0001\\u009f\u{e9}");
}

#[test]
fn string_writer_quotes_and_escapes() {
    let mut out: Vec<char> = Vec::new();
    write_json_string(&mut out, &chars("a\"b"));
    let s: String = out.into_iter().collect();
    assert_eq!(s, "\"a\\\"b\"");
}

#[test]
fn item_iter_walks_a_tuple() {
    let t = ValueTree {
        nodes: vec![
            rec(Node::Number(chars("1"))),
            rec(Node::Number(chars("2"))),
            rec(Node::Tuple { items: vec![0, 1] }),
        ],
    };
    assert!(t.well_formed());
    let mut it = ItemIter::new_tuple(PeekTuple { idx: 2 }, &t);
    assert_eq!(it.next().unwrap().idx, 0);
    assert_eq!(it.next().unwrap().idx, 1);
    assert!(it.next().is_none());
}

#[test]
fn entry_iter_walks_eligible_struct_fields() {
    let t = ValueTree {
        nodes: vec![
            rec(Node::Number(chars("1"))),
            rec(Node::Number(chars("2"))),
            rec(Node::Struct {
                kind: StructKind::Struct,
                transparent: false,
                fields: vec![
                    FieldDesc { name: chars("a"), child: 0, emit: true },
                    FieldDesc { name: chars("b"), child: 1, emit: false },
                ],
            }),
        ],
    };
    assert!(t.well_formed());
    let mut it = EntryIter::new_struct(PeekStruct { idx: 2 }, &t);
    let (key, val) = it.next().unwrap();
    match key {
        ObjectKey::Name(n) => assert_eq!(n, chars("a")),
        ObjectKey::Cursor(_) => panic!("expected a literal field name"),
    }
    assert_eq!(val.idx, 0);
    assert!(it.next().is_none());
}

#[test]
fn capability_proxies_report_unsupported() {
    let t = sample_tree();
    // No node in the sample tree carries any optional operation.
    let a = Peek::at(0, &t);
    let b = Peek::at(1, &t);
    assert_eq!(a.eq(&b, &t), None);
    assert_eq!(a.partial_cmp(&b, &t), None);
    let mut h: Vec<u64> = Vec::new();
    assert!(!a.hash_into(&t, &mut h));
    assert!(h.is_empty());
}

#[test]
fn capability_proxies_on_supported_scalars() {
    let all = Caps { eq: true, ord: true, hash: true };
    let t = ValueTree {
        nodes: vec![
            NodeRec { node: Node::Number(chars("7")), caps: all },
            NodeRec { node: Node::Number(chars("7")), caps: all },
            NodeRec { node: Node::Number(chars("8")), caps: all },
            NodeRec { node: Node::Sequence { kind: SeqKind::List, items: vec![0] }, caps: all },
        ],
    };
    assert!(t.well_formed());
    let a = Peek::at(0, &t);
    let b = Peek::at(1, &t);
    let c = Peek::at(2, &t);
    let l = Peek::at(3, &t);
    assert_eq!(a.eq(&b, &t), Some(true));
    assert_eq!(a.eq(&c, &t), Some(false));
    assert_eq!(a.eq(&l, &t), None);
    assert_eq!(a.partial_cmp(&b, &t), Some(ValueOrder::Equal));
    assert_eq!(a.partial_cmp(&c, &t), Some(ValueOrder::Less));
    assert_eq!(c.partial_cmp(&a, &t), Some(ValueOrder::Greater));
    let mut h1: Vec<u64> = Vec::new();
    let mut h2: Vec<u64> = Vec::new();
    assert!(a.hash_into(&t, &mut h1));
    assert!(b.hash_into(&t, &mut h2));
    assert_eq!(h1, h2);
    assert_eq!(h1, vec![2, 1, '7' as u64]);
    let mut h3: Vec<u64> = Vec::new();
    assert!(!l.hash_into(&t, &mut h3));
}
