//! The denotational specification of serialization: `json` says, for every
//! cursor of a well-formed tree, exactly which JSON text comes out, or which
//! failure stops the serializer first.

use vstd::prelude::*;
use crate::tree::{
    FieldDesc, MapEntry, Node, NodeRec, ReflectError, StructKind, VariantKind, all_below, wf,
    wf_node,
};
use crate::peek::{StepRes, Unwrapped, as_text_spec, disp, lemma_unwrap_chain_le, unwrap_chain,
    unwrap_step};
use crate::text::jstr;

verus! {

/// The outcome of serializing one fragment: its text, or the first failure
/// met while producing it.
pub enum SOut {
    Text(Seq<char>),
    Fail(ReflectError),
}

/// Sequential composition of two fragments: the texts concatenate, and the
/// leftmost failure wins.
pub open spec fn scomp(a: SOut, b: SOut) -> SOut {
    match a {
        SOut::Fail(e) => SOut::Fail(e),
        SOut::Text(s) => match b {
            SOut::Fail(e) => SOut::Fail(e),
            SOut::Text(u) => SOut::Text(s + u),
        },
    }
}

pub broadcast proof fn lemma_scomp_assoc(a: SOut, b: SOut, c: SOut)
    ensures
        #[trigger] scomp(scomp(a, b), c) == scomp(a, scomp(b, c)),
{
    match (a, b, c) {
        (SOut::Text(x), SOut::Text(y), SOut::Text(z)) => {
            assert((x + y) + z =~= x + (y + z));
        },
        _ => {},
    }
}

/// The reassociation used when a frame opens: a prefix, a body, a closer and
/// the rest of the stack compose the same either way.
pub proof fn lemma_scomp4(a: SOut, b: SOut, c: SOut, d: SOut)
    ensures
        scomp(scomp(a, scomp(b, c)), d) == scomp(a, scomp(b, scomp(c, d))),
{
    lemma_scomp_assoc(a, scomp(b, c), d);
    lemma_scomp_assoc(b, c, d);
}

/// Prepending already-written text to a pending fragment.
pub proof fn lemma_scomp_shift(s: Seq<char>, u: Seq<char>, b: SOut)
    ensures
        scomp(SOut::Text(s + u), b) == scomp(SOut::Text(s), scomp(SOut::Text(u), b)),
{
    match b {
        SOut::Text(z) => {
            assert((s + u) + z =~= s + (u + z));
        },
        _ => {},
    }
}

/// A key of one object entry: a declared field name written literally, or a
/// map key cursor coerced to text.
pub enum GKey {
    Lit(Seq<char>),
    Cur(int),
}

/// One pending object entry: its key and the cursor of its value.
pub struct GEntry {
    pub key: GKey,
    pub val: int,
}

/// All entry values (and cursor keys) lie below the bound `b`.
pub open spec fn gentries_below(entries: Seq<GEntry>, b: int) -> bool {
    forall|k: int| 0 <= k < entries.len()
        ==> 0 <= (#[trigger] entries[k]).val < b && match entries[k].key {
            GKey::Cur(ki) => 0 <= ki < b,
            GKey::Lit(..) => true,
        }
}

/// The serialize-eligible children of a field list, in declared order.
pub open spec fn eligible_items(fields: Seq<FieldDesc>) -> Seq<usize>
    decreases fields.len(),
{
    if fields.len() == 0 {
        Seq::empty()
    } else {
        let rest = eligible_items(fields.drop_last());
        if fields.last().emit {
            rest.push(fields.last().child)
        } else {
            rest
        }
    }
}

/// The serialize-eligible (name, child) entries of a field list.
pub open spec fn eligible_entries(fields: Seq<FieldDesc>) -> Seq<GEntry>
    decreases fields.len(),
{
    if fields.len() == 0 {
        Seq::empty()
    } else {
        let rest = eligible_entries(fields.drop_last());
        if fields.last().emit {
            rest.push(GEntry { key: GKey::Lit(fields.last().name@), val: fields.last().child as int })
        } else {
            rest
        }
    }
}

/// All children of an enum variant's field list, in declared order.
pub open spec fn all_items(fields: Seq<FieldDesc>) -> Seq<usize> {
    fields.map_values(|f: FieldDesc| f.child)
}

/// All (name, child) entries of an enum variant's field list.
pub open spec fn all_entries(fields: Seq<FieldDesc>) -> Seq<GEntry> {
    fields.map_values(|f: FieldDesc| GEntry { key: GKey::Lit(f.name@), val: f.child as int })
}

/// The key/value entries of a map node, in iteration order.
pub open spec fn map_entries(entries: Seq<MapEntry>) -> Seq<GEntry> {
    entries.map_values(|e: MapEntry| GEntry { key: GKey::Cur(e.key as int), val: e.val as int })
}

/// What an object key contributes: a field name is written as a literal
/// escaped string; a map key cursor is written as its native text if
/// string-like, else as its display text, and is refused when its shape
/// renders no text at all.
pub open spec fn key_out(ns: Seq<NodeRec>, k: GKey) -> SOut {
    match k {
        GKey::Lit(s) => SOut::Text(jstr(s)),
        GKey::Cur(ki) => match unwrap_chain(ns, ki) {
            Unwrapped::Failed(e) => SOut::Fail(e),
            Unwrapped::Reached(..) => match as_text_spec(ns, ki) {
                Some(s) => SOut::Text(jstr(s)),
                None => match disp(ns, ki) {
                    Some(d) => SOut::Text(jstr(d)),
                    None => SOut::Fail(ReflectError::NoSerializationMapping),
                },
            },
        },
    }
}

/// The opening of an externally tagged enum payload: `{"name":`.
pub open spec fn enum_prefix(name: Seq<char>) -> Seq<char> {
    seq!['{'] + jstr(name) + seq![':']
}

/// The JSON text a cursor serializes to, or the first failure met.  Wrapper
/// and option layers are resolved here, so `json` of any nesting collapses to
/// the innermost value's text or to `null`.
pub open spec fn json(ns: Seq<NodeRec>, i: int) -> SOut
    decreases i, 2int, 0int when 0 <= i
{
    if !(0 <= i < ns.len()) {
        SOut::Text(Seq::empty())
    } else {
        match ns[i].node {
            Node::Boolean(b) => SOut::Text(if b { "true"@ } else { "false"@ }),
            Node::Number(s) => SOut::Text(s@),
            Node::EmptyScalar => SOut::Text("null"@),
            Node::Text(s) => SOut::Text(jstr(s@)),
            Node::OtherScalar(s) => SOut::Text(jstr(s@)),
            Node::Pointer { inner, borrow_ok } => if !borrow_ok {
                SOut::Fail(ReflectError::BorrowFailed)
            } else if inner < i {
                json(ns, inner as int)
            } else {
                SOut::Text(Seq::empty())
            },
            Node::Optional { value } => match value {
                None => SOut::Text("null"@),
                Some(k) => if k < i {
                    json(ns, k as int)
                } else {
                    SOut::Text(Seq::empty())
                },
            },
            Node::Struct { kind, transparent, fields } => if transparent {
                if fields@.len() == 0 {
                    SOut::Fail(ReflectError::InvariantViolation)
                } else if fields@[0].child < i {
                    json(ns, fields@[0].child as int)
                } else {
                    SOut::Text(Seq::empty())
                }
            } else {
                match kind {
                    StructKind::Unit => SOut::Text("null"@),
                    StructKind::TupleStruct => arr_out(ns, i, eligible_items(fields@)),
                    StructKind::Struct => obj_out(ns, i, eligible_entries(fields@)),
                }
            },
            Node::Tuple { items } => arr_out(ns, i, items@),
            Node::Sequence { items, .. } => arr_out(ns, i, items@),
            Node::Mapping { entries } => obj_out(ns, i, map_entries(entries@)),
            Node::Enum { variant, kind, fields } => match kind {
                VariantKind::Unit => SOut::Text(jstr(variant@)),
                VariantKind::Tuple => if fields@.len() == 1 {
                    let child = fields@[0].child;
                    scomp(
                        SOut::Text(enum_prefix(variant@)),
                        scomp(
                            if child < i { json(ns, child as int) } else { SOut::Text(Seq::empty()) },
                            SOut::Text(seq!['}']),
                        ),
                    )
                } else {
                    scomp(
                        SOut::Text(enum_prefix(variant@)),
                        scomp(arr_out(ns, i, all_items(fields@)), SOut::Text(seq!['}'])),
                    )
                },
                VariantKind::Struct => scomp(
                    SOut::Text(enum_prefix(variant@)),
                    scomp(obj_out(ns, i, all_entries(fields@)), SOut::Text(seq!['}'])),
                ),
            },
            Node::Unsupported => SOut::Fail(ReflectError::NoSerializationMapping),
        }
    }
}

/// A whole array: bracket, the joined items, bracket.
pub open spec fn arr_out(ns: Seq<NodeRec>, b: int, items: Seq<usize>) -> SOut
    decreases b, 1int, 0int when 0 <= b
{
    scomp(SOut::Text(seq!['[']), scomp(list_out(ns, b, items), SOut::Text(seq![']'])))
}

/// The items of an array joined by commas.
pub open spec fn list_out(ns: Seq<NodeRec>, b: int, items: Seq<usize>) -> SOut
    decreases b, 0int, items.len() + 1 when 0 <= b
{
    if items.len() == 0 {
        SOut::Text(Seq::empty())
    } else {
        scomp(
            if items[0] < b { json(ns, items[0] as int) } else { SOut::Text(Seq::empty()) },
            rest_out(ns, b, items.drop_first()),
        )
    }
}

/// The tail of a partially written array: every remaining item is preceded by
/// a comma.
pub open spec fn rest_out(ns: Seq<NodeRec>, b: int, items: Seq<usize>) -> SOut
    decreases b, 0int, items.len() when 0 <= b
{
    if items.len() == 0 {
        SOut::Text(Seq::empty())
    } else {
        scomp(
            SOut::Text(seq![',']),
            scomp(
                if items[0] < b { json(ns, items[0] as int) } else { SOut::Text(Seq::empty()) },
                rest_out(ns, b, items.drop_first()),
            ),
        )
    }
}

/// A whole object: brace, the joined entries, brace.
pub open spec fn obj_out(ns: Seq<NodeRec>, b: int, entries: Seq<GEntry>) -> SOut
    decreases b, 1int, 0int when 0 <= b
{
    scomp(SOut::Text(seq!['{']), scomp(ent_list_out(ns, b, entries), SOut::Text(seq!['}'])))
}

/// One object entry: key, colon, value.
pub open spec fn ent_out(ns: Seq<NodeRec>, b: int, e: GEntry) -> SOut
    decreases b, 0int, 0int when 0 <= b
{
    scomp(
        key_out(ns, e.key),
        scomp(
            SOut::Text(seq![':']),
            if 0 <= e.val < b { json(ns, e.val) } else { SOut::Text(Seq::empty()) },
        ),
    )
}

/// The entries of an object joined by commas.
pub open spec fn ent_list_out(ns: Seq<NodeRec>, b: int, entries: Seq<GEntry>) -> SOut
    decreases b, 0int, entries.len() + 1 when 0 <= b
{
    if entries.len() == 0 {
        SOut::Text(Seq::empty())
    } else {
        scomp(ent_out(ns, b, entries[0]), ent_rest_out(ns, b, entries.drop_first()))
    }
}

/// The tail of a partially written object: every remaining entry is preceded
/// by a comma.
pub open spec fn ent_rest_out(ns: Seq<NodeRec>, b: int, entries: Seq<GEntry>) -> SOut
    decreases b, 0int, entries.len() when 0 <= b
{
    if entries.len() == 0 {
        SOut::Text(Seq::empty())
    } else {
        scomp(
            SOut::Text(seq![',']),
            scomp(ent_out(ns, b, entries[0]), ent_rest_out(ns, b, entries.drop_first())),
        )
    }
}

/// The bound passed to `rest_out` is only a termination device: any bound
/// above every item gives the same denotation.
pub proof fn lemma_rest_out_bound(ns: Seq<NodeRec>, b1: int, b2: int, items: Seq<usize>)
    requires
        0 <= b1,
        0 <= b2,
        all_below(items, b1),
        all_below(items, b2),
    ensures
        rest_out(ns, b1, items) == rest_out(ns, b2, items),
    decreases items.len(),
{
    if items.len() > 0 {
        assert(items[0] < b1 && items[0] < b2);
        assert(all_below(items.drop_first(), b1) && all_below(items.drop_first(), b2)) by {
            assert(forall|k: int| 0 <= k < items.drop_first().len()
                ==> (#[trigger] items.drop_first()[k]) == items[k + 1]);
        }
        lemma_rest_out_bound(ns, b1, b2, items.drop_first());
    }
}

/// As `lemma_rest_out_bound`, for a whole array.
pub proof fn lemma_arr_out_bound(ns: Seq<NodeRec>, b1: int, b2: int, items: Seq<usize>)
    requires
        0 <= b1,
        0 <= b2,
        all_below(items, b1),
        all_below(items, b2),
    ensures
        arr_out(ns, b1, items) == arr_out(ns, b2, items),
        list_out(ns, b1, items) == list_out(ns, b2, items),
{
    if items.len() > 0 {
        assert(items[0] < b1 && items[0] < b2);
        assert(all_below(items.drop_first(), b1) && all_below(items.drop_first(), b2)) by {
            assert(forall|k: int| 0 <= k < items.drop_first().len()
                ==> (#[trigger] items.drop_first()[k]) == items[k + 1]);
        }
        lemma_rest_out_bound(ns, b1, b2, items.drop_first());
    }
}

/// As `lemma_rest_out_bound`, for object entry tails.
pub proof fn lemma_ent_rest_out_bound(ns: Seq<NodeRec>, b1: int, b2: int, entries: Seq<GEntry>)
    requires
        0 <= b1,
        0 <= b2,
        gentries_below(entries, b1),
        gentries_below(entries, b2),
    ensures
        ent_rest_out(ns, b1, entries) == ent_rest_out(ns, b2, entries),
    decreases entries.len(),
{
    if entries.len() > 0 {
        assert(0 <= entries[0].val < b1 && entries[0].val < b2);
        assert(gentries_below(entries.drop_first(), b1) && gentries_below(
            entries.drop_first(),
            b2,
        )) by {
            assert(forall|k: int| 0 <= k < entries.drop_first().len()
                ==> (#[trigger] entries.drop_first()[k]) == entries[k + 1]);
        }
        lemma_ent_rest_out_bound(ns, b1, b2, entries.drop_first());
        assert(ent_out(ns, b1, entries[0]) == ent_out(ns, b2, entries[0]));
    }
}

/// As `lemma_rest_out_bound`, for a whole object.
pub proof fn lemma_obj_out_bound(ns: Seq<NodeRec>, b1: int, b2: int, entries: Seq<GEntry>)
    requires
        0 <= b1,
        0 <= b2,
        gentries_below(entries, b1),
        gentries_below(entries, b2),
    ensures
        obj_out(ns, b1, entries) == obj_out(ns, b2, entries),
        ent_list_out(ns, b1, entries) == ent_list_out(ns, b2, entries),
{
    if entries.len() > 0 {
        assert(0 <= entries[0].val < b1 && entries[0].val < b2);
        assert(gentries_below(entries.drop_first(), b1) && gentries_below(
            entries.drop_first(),
            b2,
        )) by {
            assert(forall|k: int| 0 <= k < entries.drop_first().len()
                ==> (#[trigger] entries.drop_first()[k]) == entries[k + 1]);
        }
        lemma_ent_rest_out_bound(ns, b1, b2, entries.drop_first());
    }
}

/// Eligible children of a bounded field list stay bounded.
pub proof fn lemma_eligible_items_below(fields: Seq<FieldDesc>, b: int)
    requires
        crate::tree::fields_below(fields, b),
    ensures
        all_below(eligible_items(fields), b),
    decreases fields.len(),
{
    if fields.len() > 0 {
        assert(crate::tree::fields_below(fields.drop_last(), b)) by {
            assert(forall|k: int| 0 <= k < fields.drop_last().len()
                ==> (#[trigger] fields.drop_last()[k]) == fields[k]);
        }
        lemma_eligible_items_below(fields.drop_last(), b);
    }
}

/// Eligible entries of a bounded field list stay bounded.
pub proof fn lemma_eligible_entries_below(fields: Seq<FieldDesc>, b: int)
    requires
        crate::tree::fields_below(fields, b),
        b >= 0,
    ensures
        gentries_below(eligible_entries(fields), b),
    decreases fields.len(),
{
    if fields.len() > 0 {
        assert(crate::tree::fields_below(fields.drop_last(), b)) by {
            assert(forall|k: int| 0 <= k < fields.drop_last().len()
                ==> (#[trigger] fields.drop_last()[k]) == fields[k]);
        }
        lemma_eligible_entries_below(fields.drop_last(), b);
    }
}

/// What the wrapper/option normalization of a cursor bottoms out at: an
/// absent option (`null`), an innermost serializable cursor, or the first
/// unwrap failure.
pub enum Normalized {
    Null,
    Reached(int),
    Failed(ReflectError),
}

/// Resolves the full wrapper chain, then any option layers, repeatedly: the
/// single semantic null-or-value decision of a nested value.
pub open spec fn norm(ns: Seq<NodeRec>, i: int) -> Normalized
    decreases i when 0 <= i
{
    match unwrap_chain(ns, i) {
        Unwrapped::Failed(e) => Normalized::Failed(e),
        Unwrapped::Reached(j) => if 0 <= j < ns.len() {
            match ns[j].node {
                Node::Optional { value } => match value {
                    None => Normalized::Null,
                    Some(k) => if 0 <= k < i {
                        norm(ns, k as int)
                    } else {
                        Normalized::Reached(j)
                    },
                },
                _ => Normalized::Reached(j),
            }
        } else {
            Normalized::Reached(j)
        },
    }
}

/// Serialization factors through normalization: the text of any cursor is
/// `null` when its chain bottoms out absent, the innermost cursor's own text
/// when it bottoms out at a value, and the first failure otherwise.  The
/// reached cursor is itself stable: no wrapper or option layer remains.
pub proof fn lemma_json_norm(ns: Seq<NodeRec>, i: int)
    requires
        wf(ns),
        0 <= i < ns.len(),
    ensures
        match norm(ns, i) {
            Normalized::Failed(e) => json(ns, i) == SOut::Fail(e),
            Normalized::Null => json(ns, i) == SOut::Text("null"@),
            Normalized::Reached(j) => 0 <= j <= i && j < ns.len() && json(ns, i) == json(ns, j)
                && !(ns[j].node is Pointer) && !(ns[j].node is Optional) && !(ns[j].node matches
            Node::Struct { transparent: true, .. }),
        },
    decreases i,
{
    assert(wf_node(ns, i));
    match unwrap_step(ns, i) {
        StepRes::Failed(..) => {},
        StepRes::NoWrapper => {
            match ns[i].node {
                Node::Optional { value } => match value {
                    Some(k) => {
                        assert(k < i);
                        lemma_json_norm(ns, k as int);
                    },
                    None => {},
                },
                _ => {},
            }
        },
        StepRes::Into(j) => {
            assert(0 <= j < i);
            lemma_unwrap_chain_le(ns, j);
            assert(wf(ns));
            match unwrap_chain(ns, j) {
                Unwrapped::Reached(jj) => {
                    assert(0 <= jj <= j);
                    if jj < ns.len() {
                        match ns[jj].node {
                            Node::Optional { value } => match value {
                                Some(k) => {
                                    assert(wf_node(ns, jj));
                                    assert(k < jj);
                                    assert(norm(ns, i) == norm(ns, k as int));
                                    assert(norm(ns, j) == norm(ns, k as int));
                                },
                                None => {},
                            },
                            _ => {},
                        }
                    }
                },
                Unwrapped::Failed(..) => {},
            }
            assert(norm(ns, i) == norm(ns, j));
            assert(json(ns, i) == json(ns, j));
            lemma_json_norm(ns, j);
        },
    }
}

} // verus!
