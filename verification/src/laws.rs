//! The library's laws: what the serializer's denotation guarantees for whole
//! families of inputs, proved once and for all from the definitions in
//! `jspec` and `peek`.

use vstd::prelude::*;
use crate::tree::{Node, NodeRec, ReflectError, VariantKind, all_below, wf, wf_node};
use crate::peek::{StepRes, Unwrapped, unwrap_chain, unwrap_step};
use crate::jspec::{
    GEntry, GKey, Normalized, SOut, all_items, arr_out, ent_list_out, ent_out, ent_rest_out,
    enum_prefix, gentries_below, json, key_out, lemma_json_norm, list_out, map_entries, norm,
    obj_out, rest_out, scomp,
};
use crate::text::jstr;

verus! {

/// A boolean serializes to `true` exactly when it is true, and to `false`
/// exactly when it is false.
pub proof fn lemma_boolean_output(ns: Seq<NodeRec>, i: int, bv: bool)
    requires
        0 <= i < ns.len(),
        ns[i].node == Node::Boolean(bv),
    ensures
        json(ns, i) == SOut::Text("true"@) <==> bv,
        json(ns, i) == SOut::Text("false"@) <==> !bv,
{
    reveal_strlit("true");
    reveal_strlit("false");
    assert("true"@.len() == 4);
    assert("false"@.len() == 5);
}

/// Serialization factors through normalization, for any nesting depth of
/// reference, smart-pointer, transparent and option layers: a chain that
/// bottoms out absent serializes to `null`, and a chain that bottoms out at a
/// value serializes exactly as that value does.
pub proof fn lemma_option_normalization(ns: Seq<NodeRec>, i: int)
    requires
        wf(ns),
        0 <= i < ns.len(),
    ensures
        norm(ns, i) is Null ==> json(ns, i) == SOut::Text("null"@),
        forall|j: int| norm(ns, i) == Normalized::Reached(j) ==> json(ns, i) == json(ns, j),
        forall|e: ReflectError| norm(ns, i) == Normalized::Failed(e) ==> json(ns, i)
            == SOut::Fail(e),
{
    lemma_json_norm(ns, i);
}

/// Unwrapping to the innermost cursor is idempotent: the cursor it reaches
/// has no wrapper layer left, so unwrapping it again goes nowhere.
pub proof fn lemma_unwrap_innermost_idempotent(ns: Seq<NodeRec>, i: int)
    requires
        wf(ns),
        0 <= i < ns.len(),
    ensures
        forall|j: int| unwrap_chain(ns, i) == Unwrapped::Reached(j) ==> unwrap_chain(ns, j)
            == Unwrapped::Reached(j),
    decreases i,
{
    match unwrap_step(ns, i) {
        StepRes::Into(j) => {
            assert(wf_node(ns, i));
            assert(0 <= j < i);
            lemma_unwrap_innermost_idempotent(ns, j);
        },
        _ => {},
    }
}

/// The child cursors of a sequence or tuple node.
pub open spec fn child_items(n: Node) -> Seq<usize> {
    match n {
        Node::Sequence { items, .. } => items@,
        Node::Tuple { items } => items@,
        _ => Seq::empty(),
    }
}

/// The items of a rendered array joined by commas.
pub open spec fn join_comma(elems: Seq<Seq<char>>) -> Seq<char>
    decreases elems.len(),
{
    if elems.len() == 0 {
        Seq::empty()
    } else {
        elems[0] + rest_comma(elems.drop_first())
    }
}

/// The tail of a rendered array: a comma before every element.
pub open spec fn rest_comma(elems: Seq<Seq<char>>) -> Seq<char>
    decreases elems.len(),
{
    if elems.len() == 0 {
        Seq::empty()
    } else {
        seq![','] + elems[0] + rest_comma(elems.drop_first())
    }
}

proof fn lemma_rest_out_join(ns: Seq<NodeRec>, b: int, items: Seq<usize>, elems: Seq<Seq<char>>)
    requires
        0 <= b,
        all_below(items, b),
        items.len() == elems.len(),
        forall|k: int| 0 <= k < items.len() ==> json(ns, (#[trigger] items[k]) as int)
            == SOut::Text(elems[k]),
    ensures
        rest_out(ns, b, items) == SOut::Text(rest_comma(elems)),
    decreases items.len(),
{
    if items.len() == 0 {
    } else {
        assert(items[0] < b);
        assert(all_below(items.drop_first(), b) && forall|k: int|
            0 <= k < items.drop_first().len() ==> json(
                ns,
                (#[trigger] items.drop_first()[k]) as int,
            ) == SOut::Text(elems.drop_first()[k])) by {
            assert(forall|k: int| 0 <= k < items.drop_first().len()
                ==> (#[trigger] items.drop_first()[k]) == items[k + 1]);
            assert(forall|k: int| 0 <= k < elems.drop_first().len()
                ==> (#[trigger] elems.drop_first()[k]) == elems[k + 1]);
        }
        lemma_rest_out_join(ns, b, items.drop_first(), elems.drop_first());
        assert(seq![','] + (elems[0] + rest_comma(elems.drop_first())) =~= rest_comma(elems));
    }
}

proof fn lemma_list_out_join(ns: Seq<NodeRec>, b: int, items: Seq<usize>, elems: Seq<Seq<char>>)
    requires
        0 <= b,
        all_below(items, b),
        items.len() == elems.len(),
        forall|k: int| 0 <= k < items.len() ==> json(ns, (#[trigger] items[k]) as int)
            == SOut::Text(elems[k]),
    ensures
        list_out(ns, b, items) == SOut::Text(join_comma(elems)),
        arr_out(ns, b, items) == SOut::Text(seq!['['] + join_comma(elems) + seq![']']),
{
    if items.len() == 0 {
    } else {
        assert(items[0] < b);
        assert(all_below(items.drop_first(), b) && forall|k: int|
            0 <= k < items.drop_first().len() ==> json(
                ns,
                (#[trigger] items.drop_first()[k]) as int,
            ) == SOut::Text(elems.drop_first()[k])) by {
            assert(forall|k: int| 0 <= k < items.drop_first().len()
                ==> (#[trigger] items.drop_first()[k]) == items[k + 1]);
            assert(forall|k: int| 0 <= k < elems.drop_first().len()
                ==> (#[trigger] elems.drop_first()[k]) == elems[k + 1]);
        }
        lemma_rest_out_join(ns, b, items.drop_first(), elems.drop_first());
    }
    assert(seq!['['] + (join_comma(elems) + seq![']']) =~= seq!['['] + join_comma(elems) + seq![
        ']',
    ]);
}

/// A sequence of length N (list, array, slice or tuple) whose elements render
/// to the texts `elems` serializes to `[e0,e1,...,e(N-1)]`, elements in
/// source order; an empty sequence serializes to `[]`.
pub proof fn lemma_sequence_output(ns: Seq<NodeRec>, i: int, elems: Seq<Seq<char>>)
    requires
        wf(ns),
        0 <= i < ns.len(),
        ns[i].node is Sequence || ns[i].node is Tuple,
        child_items(ns[i].node).len() == elems.len(),
        forall|k: int| 0 <= k < child_items(ns[i].node).len() ==> json(
            ns,
            (#[trigger] child_items(ns[i].node)[k]) as int,
        ) == SOut::Text(elems[k]),
    ensures
        json(ns, i) == SOut::Text(seq!['['] + join_comma(elems) + seq![']']),
        elems.len() == 0 ==> json(ns, i) == SOut::Text(seq!['[', ']']),
{
    assert(wf_node(ns, i));
    let items = child_items(ns[i].node);
    assert(items.len() == elems.len());
    assert(forall|k: int| 0 <= k < items.len() ==> json(ns, (#[trigger] items[k]) as int)
        == SOut::Text(elems[k]));
    lemma_list_out_join(ns, i, items, elems);
    if elems.len() == 0 {
        assert(seq!['['] + join_comma(elems) + seq![']'] =~= seq!['[', ']']);
    }
}

/// The entries of a rendered object joined by commas; `ktoks` holds the
/// already-quoted key tokens, `vtoks` the rendered values.
pub open spec fn join_entries(ktoks: Seq<Seq<char>>, vtoks: Seq<Seq<char>>) -> Seq<char>
    decreases ktoks.len(),
{
    if ktoks.len() == 0 || vtoks.len() == 0 {
        Seq::empty()
    } else {
        ktoks[0] + seq![':'] + vtoks[0] + rest_entries(ktoks.drop_first(), vtoks.drop_first())
    }
}

/// The tail of a rendered object: a comma before every entry.
pub open spec fn rest_entries(ktoks: Seq<Seq<char>>, vtoks: Seq<Seq<char>>) -> Seq<char>
    decreases ktoks.len(),
{
    if ktoks.len() == 0 || vtoks.len() == 0 {
        Seq::empty()
    } else {
        seq![','] + ktoks[0] + seq![':'] + vtoks[0] + rest_entries(
            ktoks.drop_first(),
            vtoks.drop_first(),
        )
    }
}

proof fn lemma_ent_rest_join(
    ns: Seq<NodeRec>,
    b: int,
    ge: Seq<GEntry>,
    ktoks: Seq<Seq<char>>,
    vtoks: Seq<Seq<char>>,
)
    requires
        0 <= b,
        gentries_below(ge, b),
        ge.len() == ktoks.len() && ge.len() == vtoks.len(),
        forall|k: int| 0 <= k < ge.len() ==> key_out(ns, (#[trigger] ge[k]).key) == SOut::Text(
            ktoks[k],
        ) && json(ns, ge[k].val) == SOut::Text(vtoks[k]),
    ensures
        ent_rest_out(ns, b, ge) == SOut::Text(rest_entries(ktoks, vtoks)),
    decreases ge.len(),
{
    if ge.len() == 0 {
    } else {
        assert(0 <= ge[0].val < b);
        assert(gentries_below(ge.drop_first(), b) && forall|k: int|
            0 <= k < ge.drop_first().len() ==> key_out(ns, (#[trigger] ge.drop_first()[k]).key)
                == SOut::Text(ktoks.drop_first()[k]) && json(ns, ge.drop_first()[k].val)
                == SOut::Text(vtoks.drop_first()[k])) by {
            assert(forall|k: int| 0 <= k < ge.drop_first().len() ==> (#[trigger] ge.drop_first()[k])
                == ge[k + 1]);
            assert(forall|k: int| 0 <= k < ktoks.drop_first().len()
                ==> (#[trigger] ktoks.drop_first()[k]) == ktoks[k + 1]);
            assert(forall|k: int| 0 <= k < vtoks.drop_first().len()
                ==> (#[trigger] vtoks.drop_first()[k]) == vtoks[k + 1]);
        }
        lemma_ent_rest_join(ns, b, ge.drop_first(), ktoks.drop_first(), vtoks.drop_first());
        let tail = rest_entries(ktoks.drop_first(), vtoks.drop_first());
        assert(ent_out(ns, b, ge[0]) == SOut::Text(ktoks[0] + (seq![':'] + vtoks[0])));
        assert(seq![','] + ((ktoks[0] + (seq![':'] + vtoks[0])) + tail) =~= seq![','] + ktoks[0]
            + seq![':'] + vtoks[0] + tail);
    }
}

#[verifier::rlimit(60)]
proof fn lemma_ent_list_join(
    ns: Seq<NodeRec>,
    b: int,
    ge: Seq<GEntry>,
    ktoks: Seq<Seq<char>>,
    vtoks: Seq<Seq<char>>,
)
    requires
        0 <= b,
        gentries_below(ge, b),
        ge.len() == ktoks.len() && ge.len() == vtoks.len(),
        forall|k: int| 0 <= k < ge.len() ==> key_out(ns, (#[trigger] ge[k]).key) == SOut::Text(
            ktoks[k],
        ) && json(ns, ge[k].val) == SOut::Text(vtoks[k]),
    ensures
        ent_list_out(ns, b, ge) == SOut::Text(join_entries(ktoks, vtoks)),
        obj_out(ns, b, ge) == SOut::Text(seq!['{'] + join_entries(ktoks, vtoks) + seq!['}']),
{
    if ge.len() == 0 {
    } else {
        assert(0 <= ge[0].val < b);
        assert(gentries_below(ge.drop_first(), b) && forall|k: int|
            0 <= k < ge.drop_first().len() ==> key_out(ns, (#[trigger] ge.drop_first()[k]).key)
                == SOut::Text(ktoks.drop_first()[k]) && json(ns, ge.drop_first()[k].val)
                == SOut::Text(vtoks.drop_first()[k])) by {
            assert(forall|k: int| 0 <= k < ge.drop_first().len() ==> (#[trigger] ge.drop_first()[k])
                == ge[k + 1]);
            assert(forall|k: int| 0 <= k < ktoks.drop_first().len()
                ==> (#[trigger] ktoks.drop_first()[k]) == ktoks[k + 1]);
            assert(forall|k: int| 0 <= k < vtoks.drop_first().len()
                ==> (#[trigger] vtoks.drop_first()[k]) == vtoks[k + 1]);
        }
        lemma_ent_rest_join(ns, b, ge.drop_first(), ktoks.drop_first(), vtoks.drop_first());
        let tail = rest_entries(ktoks.drop_first(), vtoks.drop_first());
        assert(ent_out(ns, b, ge[0]) == SOut::Text(ktoks[0] + (seq![':'] + vtoks[0])));
        assert((ktoks[0] + (seq![':'] + vtoks[0])) + tail =~= ktoks[0] + seq![':'] + vtoks[0]
            + tail);
    }
    assert(seq!['{'] + (join_entries(ktoks, vtoks) + seq!['}']) =~= seq!['{'] + join_entries(
        ktoks,
        vtoks,
    ) + seq!['}']);
}

/// A map whose keys coerce to the quoted tokens `ktoks` and whose values
/// render to `vtoks` serializes to a JSON object holding exactly those keys,
/// in iteration order.
pub proof fn lemma_map_output(
    ns: Seq<NodeRec>,
    i: int,
    ktoks: Seq<Seq<char>>,
    vtoks: Seq<Seq<char>>,
)
    requires
        wf(ns),
        0 <= i < ns.len(),
        ns[i].node is Mapping,
        ({
            let ge = map_entries(ns[i].node->Mapping_entries@);
            ge.len() == ktoks.len() && ge.len() == vtoks.len() && forall|k: int|
                0 <= k < ge.len() ==> key_out(ns, (#[trigger] ge[k]).key) == SOut::Text(ktoks[k])
                    && json(ns, ge[k].val) == SOut::Text(vtoks[k])
        }),
    ensures
        json(ns, i) == SOut::Text(seq!['{'] + join_entries(ktoks, vtoks) + seq!['}']),
{
    assert(wf_node(ns, i));
    let ge = map_entries(ns[i].node->Mapping_entries@);
    assert(gentries_below(ge, i)) by {
        assert(forall|k: int| 0 <= k < ge.len() ==> (#[trigger] ge[k]) == (GEntry {
            key: GKey::Cur(ns[i].node->Mapping_entries@[k].key as int),
            val: ns[i].node->Mapping_entries@[k].val as int,
        }));
    }
    lemma_ent_list_join(ns, i, ge, ktoks, vtoks);
}

/// A unit variant `Foo` serializes to the bare JSON string `"Foo"`.
pub proof fn lemma_enum_unit_output(ns: Seq<NodeRec>, i: int)
    requires
        0 <= i < ns.len(),
        ns[i].node is Enum,
        ns[i].node->Enum_kind == VariantKind::Unit,
    ensures
        json(ns, i) == SOut::Text(jstr(ns[i].node->Enum_variant@)),
{
}

/// A single-field tuple variant `Bar(x)` serializes to `{"Bar":<x>}`: the
/// payload stands directly after the tag, not wrapped in an array.
pub proof fn lemma_enum_newtype_output(ns: Seq<NodeRec>, i: int, payload: Seq<char>)
    requires
        wf(ns),
        0 <= i < ns.len(),
        ns[i].node is Enum,
        ns[i].node->Enum_kind == VariantKind::Tuple,
        ns[i].node->Enum_fields@.len() == 1,
        json(ns, ns[i].node->Enum_fields@[0].child as int) == SOut::Text(payload),
    ensures
        json(ns, i) == SOut::Text(
            enum_prefix(ns[i].node->Enum_variant@) + payload + seq!['}'],
        ),
{
    assert(wf_node(ns, i));
    let name = ns[i].node->Enum_variant@;
    assert(enum_prefix(name) + (payload + seq!['}']) =~= enum_prefix(name) + payload + seq!['}']);
}

/// A tuple variant of two or more fields `Baz(a,b,...)` serializes to
/// `{"Baz":[<a>,<b>,...]}`.
pub proof fn lemma_enum_tuple_output(ns: Seq<NodeRec>, i: int, elems: Seq<Seq<char>>)
    requires
        wf(ns),
        0 <= i < ns.len(),
        ns[i].node is Enum,
        ns[i].node->Enum_kind == VariantKind::Tuple,
        ns[i].node->Enum_fields@.len() != 1,
        all_items(ns[i].node->Enum_fields@).len() == elems.len(),
        forall|k: int| 0 <= k < elems.len() ==> json(
            ns,
            #[trigger] all_items(ns[i].node->Enum_fields@)[k] as int,
        ) == SOut::Text(elems[k]),
    ensures
        json(ns, i) == SOut::Text(
            enum_prefix(ns[i].node->Enum_variant@) + seq!['['] + join_comma(elems) + seq![']']
                + seq!['}'],
        ),
{
    assert(wf_node(ns, i));
    let name = ns[i].node->Enum_variant@;
    let gi = all_items(ns[i].node->Enum_fields@);
    assert(all_below(gi, i)) by {
        assert(forall|k: int| 0 <= k < gi.len() ==> (#[trigger] gi[k])
            == ns[i].node->Enum_fields@[k].child);
    }
    lemma_list_out_join(ns, i, gi, elems);
    let body = seq!['['] + join_comma(elems) + seq![']'];
    assert(enum_prefix(name) + (body + seq!['}']) =~= enum_prefix(name) + seq!['['] + join_comma(
        elems,
    ) + seq![']'] + seq!['}']);
}

/// A struct variant `Qux{x:..,y:..}` serializes to
/// `{"Qux":{"x":<vx>,"y":<vy>}}`, fields in declared order.
pub proof fn lemma_enum_struct_output(
    ns: Seq<NodeRec>,
    i: int,
    ktoks: Seq<Seq<char>>,
    vtoks: Seq<Seq<char>>,
)
    requires
        wf(ns),
        0 <= i < ns.len(),
        ns[i].node is Enum,
        ns[i].node->Enum_kind == VariantKind::Struct,
        ({
            let ge = crate::jspec::all_entries(ns[i].node->Enum_fields@);
            ge.len() == ktoks.len() && ge.len() == vtoks.len() && forall|k: int|
                0 <= k < ge.len() ==> key_out(ns, (#[trigger] ge[k]).key) == SOut::Text(ktoks[k])
                    && json(ns, ge[k].val) == SOut::Text(vtoks[k])
        }),
    ensures
        json(ns, i) == SOut::Text(
            enum_prefix(ns[i].node->Enum_variant@) + seq!['{'] + join_entries(ktoks, vtoks)
                + seq!['}'] + seq!['}'],
        ),
{
    assert(wf_node(ns, i));
    let name = ns[i].node->Enum_variant@;
    let ge = crate::jspec::all_entries(ns[i].node->Enum_fields@);
    assert(gentries_below(ge, i)) by {
        assert(forall|k: int| 0 <= k < ge.len() ==> (#[trigger] ge[k]) == (GEntry {
            key: GKey::Lit(ns[i].node->Enum_fields@[k].name@),
            val: ns[i].node->Enum_fields@[k].child as int,
        }));
    }
    lemma_ent_list_join(ns, i, ge, ktoks, vtoks);
    let body = seq!['{'] + join_entries(ktoks, vtoks) + seq!['}'];
    assert(enum_prefix(name) + (body + seq!['}']) =~= enum_prefix(name) + seq!['{'] + join_entries(
        ktoks,
        vtoks,
    ) + seq!['}'] + seq!['}']);
}

} // verus!
