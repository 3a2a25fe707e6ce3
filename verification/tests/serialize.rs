//! End-to-end tests of the serializer over hand-built value trees.

use facet_json::engine::to_string;
use facet_json::tree::{
    Caps, FieldDesc, MapEntry, Node, NodeRec, ReflectError, SeqKind, StructKind, ValueTree,
    VariantKind,
};

fn rec(node: Node) -> NodeRec {
    NodeRec { node, caps: Caps::none() }
}

fn chars(s: &str) -> Vec<char> {
    s.chars().collect()
}

fn field(name: &str, child: usize, emit: bool) -> FieldDesc {
    FieldDesc { name: chars(name), child, emit }
}

fn tree(nodes: Vec<NodeRec>) -> ValueTree {
    let t = ValueTree { nodes };
    assert!(t.well_formed());
    t
}

#[test]
fn boolean_true_false() {
    let t = tree(vec![rec(Node::Boolean(true))]);
    assert_eq!(to_string(&t).unwrap(), "true");
    let f = tree(vec![rec(Node::Boolean(false))]);
    assert_eq!(to_string(&f).unwrap(), "false");
}

#[test]
fn number_token_passes_through() {
    let t = tree(vec![rec(Node::Number(chars("7")))]);
    assert_eq!(to_string(&t).unwrap(), "7");
    let neg = tree(vec![rec(Node::Number(chars("-12.5")))]);
    assert_eq!(to_string(&neg).unwrap(), "-12.5");
}

#[test]
fn empty_scalar_and_unit_struct_are_null() {
    let t = tree(vec![rec(Node::EmptyScalar)]);
    assert_eq!(to_string(&t).unwrap(), "null");
    let u = tree(vec![rec(Node::Struct {
        kind: StructKind::Unit,
        transparent: false,
        fields: vec![],
    })]);
    assert_eq!(to_string(&u).unwrap(), "null");
}

#[test]
fn string_escaping_exact_table() {
    // A double quote, a backslash, a newline and a NUL byte, in one string.
    let t = tree(vec![rec(Node::Text(chars("\"\\\n\u{0}")))]);
    assert_eq!(to_string(&t).unwrap(), "\"\\\"\\\\\\n\\u0000\"");
}

#[test]
fn string_escaping_short_escapes_and_controls() {
    let t = tree(vec![rec(Node::Text(chars("a\r\t\u{8}\u{c}\u{1}\u{7f}z")))]);
    assert_eq!(to_string(&t).unwrap(), "\"a\\r\\t\\b\\f\\u0001\\u007fz\"");
}

#[test]
fn other_scalar_is_quoted_and_escaped() {
    let t = tree(vec![rec(Node::OtherScalar(chars("1.2.3\"x")))]);
    assert_eq!(to_string(&t).unwrap(), "\"1.2.3\\\"x\"");
}

#[test]
fn empty_sequence_is_empty_array() {
    let t = tree(vec![rec(Node::Sequence { kind: SeqKind::List, items: vec![] })]);
    assert_eq!(to_string(&t).unwrap(), "[]");
}

#[test]
fn sequence_preserves_source_order() {
    let t = tree(vec![
        rec(Node::Number(chars("1"))),
        rec(Node::Number(chars("2"))),
        rec(Node::Number(chars("3"))),
        rec(Node::Sequence { kind: SeqKind::Array, items: vec![0, 1, 2] }),
    ]);
    assert_eq!(to_string(&t).unwrap(), "[1,2,3]");
}

#[test]
fn tuple_is_an_array() {
    let t = tree(vec![
        rec(Node::Number(chars("1"))),
        rec(Node::Text(chars("a"))),
        rec(Node::Tuple { items: vec![0, 1] }),
    ]);
    assert_eq!(to_string(&t).unwrap(), "[1,\"a\"]");
}

#[test]
fn nested_composites() {
    let t = tree(vec![
        rec(Node::Number(chars("1"))),
        rec(Node::Number(chars("2"))),
        rec(Node::Sequence { kind: SeqKind::List, items: vec![0, 1] }),
        rec(Node::Sequence { kind: SeqKind::List, items: vec![] }),
        rec(Node::Sequence { kind: SeqKind::List, items: vec![2, 3] }),
    ]);
    assert_eq!(to_string(&t).unwrap(), "[[1,2],[]]");
}

#[test]
fn struct_fields_in_declared_order() {
    // { id: 7u32, name: "a\"b", tags: ["x","y"] }
    let t = tree(vec![
        rec(Node::Number(chars("7"))),
        rec(Node::Text(chars("a\"b"))),
        rec(Node::Text(chars("x"))),
        rec(Node::Text(chars("y"))),
        rec(Node::Sequence { kind: SeqKind::List, items: vec![2, 3] }),
        rec(Node::Struct {
            kind: StructKind::Struct,
            transparent: false,
            fields: vec![field("id", 0, true), field("name", 1, true), field("tags", 4, true)],
        }),
    ]);
    assert_eq!(to_string(&t).unwrap(), "{\"id\":7,\"name\":\"a\\\"b\",\"tags\":[\"x\",\"y\"]}");
}

#[test]
fn tuple_struct_skips_ineligible_fields() {
    let t = tree(vec![
        rec(Node::Number(chars("1"))),
        rec(Node::Number(chars("2"))),
        rec(Node::Number(chars("3"))),
        rec(Node::Struct {
            kind: StructKind::TupleStruct,
            transparent: false,
            fields: vec![field("0", 0, true), field("1", 1, false), field("2", 2, true)],
        }),
    ]);
    assert_eq!(to_string(&t).unwrap(), "[1,3]");
}

#[test]
fn struct_skips_ineligible_fields() {
    let t = tree(vec![
        rec(Node::Number(chars("1"))),
        rec(Node::Number(chars("2"))),
        rec(Node::Struct {
            kind: StructKind::Struct,
            transparent: false,
            fields: vec![field("a", 0, true), field("b", 1, false)],
        }),
    ]);
    assert_eq!(to_string(&t).unwrap(), "{\"a\":1}");
}

#[test]
fn enum_unit_variant_is_bare_string() {
    let t = tree(vec![rec(Node::Enum {
        variant: chars("Foo"),
        kind: VariantKind::Unit,
        fields: vec![],
    })]);
    assert_eq!(to_string(&t).unwrap(), "\"Foo\"");
}

#[test]
fn enum_newtype_variant_is_tagged_value() {
    let t = tree(vec![
        rec(Node::Number(chars("5"))),
        rec(Node::Enum {
            variant: chars("Bar"),
            kind: VariantKind::Tuple,
            fields: vec![field("0", 0, true)],
        }),
    ]);
    assert_eq!(to_string(&t).unwrap(), "{\"Bar\":5}");
}

#[test]
fn enum_tuple_variant_is_tagged_array() {
    let t = tree(vec![
        rec(Node::Number(chars("1"))),
        rec(Node::Number(chars("2"))),
        rec(Node::Enum {
            variant: chars("Baz"),
            kind: VariantKind::Tuple,
            fields: vec![field("0", 0, true), field("1", 1, true)],
        }),
    ]);
    assert_eq!(to_string(&t).unwrap(), "{\"Baz\":[1,2]}");
}

#[test]
fn enum_struct_variant_is_tagged_object() {
    let t = tree(vec![
        rec(Node::Number(chars("1"))),
        rec(Node::Number(chars("2"))),
        rec(Node::Enum {
            variant: chars("Qux"),
            kind: VariantKind::Struct,
            fields: vec![field("x", 0, true), field("y", 1, true)],
        }),
    ]);
    assert_eq!(to_string(&t).unwrap(), "{\"Qux\":{\"x\":1,\"y\":2}}");
}

#[test]
fn absent_option_is_null() {
    let t = tree(vec![rec(Node::Optional { value: None })]);
    assert_eq!(to_string(&t).unwrap(), "null");
}

#[test]
fn nested_wrappers_collapse_to_inner_value() {
    // Option(Pointer(Option(7))) serializes as 7 does.
    let t = tree(vec![
        rec(Node::Number(chars("7"))),
        rec(Node::Optional { value: Some(0) }),
        rec(Node::Pointer { inner: 1, borrow_ok: true }),
        rec(Node::Optional { value: Some(2) }),
    ]);
    assert_eq!(to_string(&t).unwrap(), "7");
}

#[test]
fn nested_wrappers_collapse_to_null() {
    let t = tree(vec![
        rec(Node::Optional { value: None }),
        rec(Node::Pointer { inner: 0, borrow_ok: true }),
        rec(Node::Optional { value: Some(1) }),
    ]);
    assert_eq!(to_string(&t).unwrap(), "null");
}

#[test]
fn transparent_struct_serializes_as_inner_field() {
    let t = tree(vec![
        rec(Node::Number(chars("7"))),
        rec(Node::Struct {
            kind: StructKind::TupleStruct,
            transparent: true,
            fields: vec![field("0", 0, true)],
        }),
    ]);
    assert_eq!(to_string(&t).unwrap(), "7");
}

#[test]
fn map_with_text_and_coerced_keys() {
    let t = tree(vec![
        rec(Node::Text(chars("a"))),
        rec(Node::Number(chars("1"))),
        rec(Node::Number(chars("2"))),
        rec(Node::Boolean(true)),
        rec(Node::Mapping {
            entries: vec![MapEntry { key: 0, val: 1 }, MapEntry { key: 2, val: 3 }],
        }),
    ]);
    assert_eq!(to_string(&t).unwrap(), "{\"a\":1,\"2\":true}");
}

#[test]
fn empty_map_is_empty_object() {
    let t = tree(vec![rec(Node::Mapping { entries: vec![] })]);
    assert_eq!(to_string(&t).unwrap(), "{}");
}

#[test]
fn boolean_map_key_uses_display_text() {
    let t = tree(vec![
        rec(Node::Boolean(false)),
        rec(Node::Number(chars("1"))),
        rec(Node::Mapping { entries: vec![MapEntry { key: 0, val: 1 }] }),
    ]);
    assert_eq!(to_string(&t).unwrap(), "{\"false\":1}");
}

#[test]
fn borrow_failure_propagates() {
    let t = tree(vec![
        rec(Node::Number(chars("7"))),
        rec(Node::Pointer { inner: 0, borrow_ok: false }),
    ]);
    assert_eq!(to_string(&t).unwrap_err(), ReflectError::BorrowFailed);
}

#[test]
fn transparent_without_fields_is_invariant_violation() {
    let t = tree(vec![rec(Node::Struct {
        kind: StructKind::TupleStruct,
        transparent: true,
        fields: vec![],
    })]);
    assert_eq!(to_string(&t).unwrap_err(), ReflectError::InvariantViolation);
}

#[test]
fn unsupported_shape_has_no_mapping() {
    let t = tree(vec![rec(Node::Unsupported)]);
    assert_eq!(to_string(&t).unwrap_err(), ReflectError::NoSerializationMapping);
}

#[test]
fn composite_map_key_is_refused() {
    let t = tree(vec![
        rec(Node::Sequence { kind: SeqKind::List, items: vec![] }),
        rec(Node::Number(chars("1"))),
        rec(Node::Mapping { entries: vec![MapEntry { key: 0, val: 1 }] }),
    ]);
    assert_eq!(to_string(&t).unwrap_err(), ReflectError::NoSerializationMapping);
}

#[test]
fn failure_inside_composite_propagates() {
    let t = tree(vec![
        rec(Node::Number(chars("1"))),
        rec(Node::Pointer { inner: 0, borrow_ok: false }),
        rec(Node::Sequence { kind: SeqKind::List, items: vec![0, 1] }),
    ]);
    assert_eq!(to_string(&t).unwrap_err(), ReflectError::BorrowFailed);
}

#[test]
fn deep_nesting_stays_on_the_heap() {
    // A list nested a hundred thousand levels deep: far beyond what native
    // call recursion would survive.
    let depth = 100_000;
    let mut nodes = Vec::with_capacity(depth + 1);
    nodes.push(rec(Node::Number(chars("1"))));
    for k in 0..depth {
        nodes.push(rec(Node::Sequence { kind: SeqKind::List, items: vec![k] }));
    }
    let t = tree(nodes);
    let s = to_string(&t).unwrap();
    assert_eq!(s.len(), 2 * depth + 1);
    assert!(s.starts_with("[[[["));
    assert!(s.ends_with("]]]]"));
}
