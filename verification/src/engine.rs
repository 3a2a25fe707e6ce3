//! The iterative serializer engine: an explicit, heap-allocated frame stack
//! replaces native recursion, so the supported nesting depth is bounded by
//! available memory and not by the call stack.  Its contract ties the loop to
//! the denotation `jspec::json` exactly: the text on success, the first
//! failure otherwise.

use vstd::prelude::*;
use crate::tree::{Node, NodeRec, ReflectError, StructKind, ValueTree, VariantKind, all_below, wf,
    wf_node};
use crate::peek::{Peek, PeekEnum, PeekListLike, PeekMap, PeekStruct, PeekTuple, Unwrapped,
    lemma_unwrap_chain_le, unwrap_chain};
use crate::jspec::{
    GEntry, GKey, Normalized, SOut, all_entries, all_items, arr_out, eligible_entries,
    eligible_items, ent_list_out, ent_out, ent_rest_out, enum_prefix, gentries_below, json,
    key_out, lemma_arr_out_bound, lemma_eligible_entries_below, lemma_eligible_items_below,
    lemma_json_norm, lemma_obj_out_bound, lemma_scomp4, lemma_scomp_assoc, lemma_scomp_shift, list_out,
    map_entries, norm, obj_out, rest_out, scomp,
};
use crate::iters::{EntryIter, ItemIter, ObjectKey, okey_view};
use crate::text::{write_false, write_json_string, write_null, write_raw, write_true};

verus! {

/// One in-progress unit of serialization on the explicit stack: a value
/// still to classify, or a partially written array or object.
pub enum SerializeOp {
    Value(Peek),
    Array { first: bool, items: ItemIter },
    Object { first: bool, entries: EntryIter },
}

/// The weight of a value: an upper bound on the work its serialization still
/// causes, used as the engine loop's termination measure.
pub open spec fn wt(ns: Seq<NodeRec>, i: int) -> nat
    decreases i, 1int, 0int when 0 <= i
{
    if !(0 <= i < ns.len()) {
        1
    } else {
        match ns[i].node {
            Node::Pointer { inner, borrow_ok } => if borrow_ok && inner < i {
                wt(ns, inner as int) + 1
            } else {
                1
            },
            Node::Optional { value } => match value {
                Some(k) => if k < i {
                    wt(ns, k as int) + 1
                } else {
                    1
                },
                None => 1,
            },
            Node::Struct { kind, transparent, fields } => if transparent {
                if fields@.len() > 0 && fields@[0].child < i {
                    wt(ns, fields@[0].child as int) + 1
                } else {
                    1
                }
            } else {
                match kind {
                    StructKind::Unit => 1,
                    StructKind::TupleStruct => 2 + wsum(ns, i, eligible_items(fields@)),
                    StructKind::Struct => 2 + evsum(ns, i, eligible_entries(fields@)),
                }
            },
            Node::Tuple { items } => 2 + wsum(ns, i, items@),
            Node::Sequence { items, .. } => 2 + wsum(ns, i, items@),
            Node::Mapping { entries } => 2 + evsum(ns, i, map_entries(entries@)),
            Node::Enum { kind, fields, .. } => match kind {
                VariantKind::Unit => 1,
                VariantKind::Tuple => if fields@.len() == 1 {
                    if fields@[0].child < i {
                        3 + wt(ns, fields@[0].child as int)
                    } else {
                        3
                    }
                } else {
                    3 + wsum(ns, i, all_items(fields@))
                },
                VariantKind::Struct => 3 + evsum(ns, i, all_entries(fields@)),
            },
            _ => 1,
        }
    }
}

/// The weight of a pending item list: each item costs its own weight plus one
/// resumption of the array frame.
pub open spec fn wsum(ns: Seq<NodeRec>, b: int, items: Seq<usize>) -> nat
    decreases b, 0int, items.len() when 0 <= b
{
    if items.len() == 0 {
        0
    } else {
        (if items[0] < b { wt(ns, items[0] as int) } else { 0 }) + 1 + wsum(
            ns,
            b,
            items.drop_first(),
        )
    }
}

/// The weight of a pending entry list: each entry costs its value's weight
/// plus one resumption of the object frame.
pub open spec fn evsum(ns: Seq<NodeRec>, b: int, entries: Seq<GEntry>) -> nat
    decreases b, 0int, entries.len() when 0 <= b
{
    if entries.len() == 0 {
        0
    } else {
        (if 0 <= entries[0].val < b { wt(ns, entries[0].val) } else { 0 }) + 1 + evsum(
            ns,
            b,
            entries.drop_first(),
        )
    }
}

/// The bound of an item-list weight is only a termination device.
pub proof fn lemma_wsum_bound(ns: Seq<NodeRec>, b1: int, b2: int, items: Seq<usize>)
    requires
        0 <= b1,
        0 <= b2,
        all_below(items, b1),
        all_below(items, b2),
    ensures
        wsum(ns, b1, items) == wsum(ns, b2, items),
    decreases items.len(),
{
    if items.len() > 0 {
        assert(items[0] < b1 && items[0] < b2);
        assert(all_below(items.drop_first(), b1) && all_below(items.drop_first(), b2)) by {
            assert(forall|k: int| 0 <= k < items.drop_first().len()
                ==> (#[trigger] items.drop_first()[k]) == items[k + 1]);
        }
        lemma_wsum_bound(ns, b1, b2, items.drop_first());
    }
}

/// The bound of an entry-list weight is only a termination device.
pub proof fn lemma_evsum_bound(ns: Seq<NodeRec>, b1: int, b2: int, entries: Seq<GEntry>)
    requires
        0 <= b1,
        0 <= b2,
        gentries_below(entries, b1),
        gentries_below(entries, b2),
    ensures
        evsum(ns, b1, entries) == evsum(ns, b2, entries),
    decreases entries.len(),
{
    if entries.len() > 0 {
        assert(0 <= entries[0].val < b1 && entries[0].val < b2);
        assert(gentries_below(entries.drop_first(), b1) && gentries_below(
            entries.drop_first(),
            b2,
        )) by {
            assert(forall|k: int| 0 <= k < entries.drop_first().len()
                ==> (#[trigger] entries.drop_first()[k]) == entries[k + 1]);
        }
        lemma_evsum_bound(ns, b1, b2, entries.drop_first());
    }
}

/// Every weight is positive: popping a frame is progress.
pub proof fn lemma_wt_pos(ns: Seq<NodeRec>, i: int)
    requires
        0 <= i,
    ensures
        wt(ns, i) >= 1,
{
}

/// Normalization never increases weight: each unwrapped layer drops one.
pub proof fn lemma_wt_norm(ns: Seq<NodeRec>, i: int)
    requires
        wf(ns),
        0 <= i < ns.len(),
    ensures
        match norm(ns, i) {
            Normalized::Reached(j) => wt(ns, j) <= wt(ns, i),
            _ => true,
        },
    decreases i,
{
    assert(wf_node(ns, i));
    match crate::peek::unwrap_step(ns, i) {
        crate::peek::StepRes::Failed(..) => {},
        crate::peek::StepRes::NoWrapper => {
            match ns[i].node {
                Node::Optional { value } => match value {
                    Some(k) => {
                        assert(k < i);
                        lemma_wt_norm(ns, k as int);
                    },
                    None => {},
                },
                _ => {},
            }
        },
        crate::peek::StepRes::Into(j) => {
            assert(0 <= j < i);
            lemma_unwrap_chain_le(ns, j);
            match unwrap_chain(ns, j) {
                Unwrapped::Reached(jj) => {
                    assert(0 <= jj <= j);
                    if jj < ns.len() {
                        match ns[jj].node {
                            Node::Optional { value } => match value {
                                Some(k) => {
                                    assert(wf_node(ns, jj));
                                    assert(k < jj);
                                    assert(norm(ns, i) == norm(ns, k as int));
                                    assert(norm(ns, j) == norm(ns, k as int));
                                },
                                None => {},
                            },
                            _ => {},
                        }
                    }
                },
                Unwrapped::Failed(..) => {},
            }
            assert(norm(ns, i) == norm(ns, j));
            assert(wt(ns, j) < wt(ns, i));
            lemma_wt_norm(ns, j);
        },
    }
}

/// What one frame still denotes: the text it will contribute, or the first
/// failure it will meet.  `first` only decides whether the opening bracket
/// and the leading separator are still owed.
/// What a pending array frame still denotes.
pub open spec fn den_array(ns: Seq<NodeRec>, first: bool, rem: Seq<usize>) -> SOut {
    let b = ns.len() as int;
    if first {
        scomp(SOut::Text(seq!['[']), scomp(list_out(ns, b, rem), SOut::Text(seq![']'])))
    } else {
        scomp(rest_out(ns, b, rem), SOut::Text(seq![']']))
    }
}

/// What a pending object frame still denotes.
pub open spec fn den_object(ns: Seq<NodeRec>, first: bool, rem: Seq<GEntry>) -> SOut {
    let b = ns.len() as int;
    if first {
        scomp(SOut::Text(seq!['{']), scomp(ent_list_out(ns, b, rem), SOut::Text(seq!['}'])))
    } else {
        scomp(ent_rest_out(ns, b, rem), SOut::Text(seq!['}']))
    }
}

pub open spec fn den_op(ns: Seq<NodeRec>, op: SerializeOp) -> SOut {
    match op {
        SerializeOp::Value(p) => if p.idx < ns.len() {
            json(ns, p.idx as int)
        } else {
            SOut::Text(Seq::empty())
        },
        SerializeOp::Array { first, items } => den_array(ns, first, items.rem()),
        SerializeOp::Object { first, entries } => den_object(ns, first, entries.rem()),
    }
}

/// The remaining work of one frame, for the termination measure.
pub open spec fn m_op(ns: Seq<NodeRec>, op: SerializeOp) -> nat {
    let b = ns.len() as int;
    match op {
        SerializeOp::Value(p) => wt(ns, p.idx as int),
        SerializeOp::Array { items, .. } => 1 + wsum(ns, b, items.rem()),
        SerializeOp::Object { entries, .. } => 1 + evsum(ns, b, entries.rem()),
    }
}

/// Every cursor a frame holds points into the tree.
pub open spec fn frame_ok(ns: Seq<NodeRec>, op: SerializeOp) -> bool {
    match op {
        SerializeOp::Value(p) => p.idx < ns.len(),
        SerializeOp::Array { items, .. } => all_below(items.rem(), ns.len() as int),
        SerializeOp::Object { entries, .. } => gentries_below(entries.rem(), ns.len() as int),
    }
}

pub open spec fn frames_ok(ns: Seq<NodeRec>, s: Seq<SerializeOp>) -> bool {
    forall|k: int| 0 <= k < s.len() ==> frame_ok(ns, #[trigger] s[k])
}

/// What the whole stack still denotes, top frame first.
pub open spec fn pending(ns: Seq<NodeRec>, s: Seq<SerializeOp>) -> SOut
    decreases s.len(),
{
    if s.len() == 0 {
        SOut::Text(Seq::empty())
    } else {
        scomp(den_op(ns, s.last()), pending(ns, s.drop_last()))
    }
}

/// The remaining work of the whole stack.
pub open spec fn m_stack(ns: Seq<NodeRec>, s: Seq<SerializeOp>) -> nat
    decreases s.len(),
{
    if s.len() == 0 {
        0
    } else {
        m_op(ns, s.last()) + m_stack(ns, s.drop_last())
    }
}

/// Pushing a frame composes its denotation in front of the stack's and adds
/// its work to the measure.
pub proof fn lemma_stack_push(ns: Seq<NodeRec>, s: Seq<SerializeOp>, f: SerializeOp)
    ensures
        pending(ns, s.push(f)) == scomp(den_op(ns, f), pending(ns, s)),
        m_stack(ns, s.push(f)) == m_op(ns, f) + m_stack(ns, s),
        frames_ok(ns, s) && frame_ok(ns, f) ==> frames_ok(ns, s.push(f)),
{
    assert(s.push(f).drop_last() =~= s);
    assert(s.push(f).last() == f);
    if frames_ok(ns, s) && frame_ok(ns, f) {
        assert(forall|k: int| 0 <= k < s.len() ==> s.push(f)[k] == s[k]);
        assert(frames_ok(ns, s.push(f)));
    }
}

/// Popping the top frame keeps the rest well-formed.
pub proof fn lemma_stack_pop(ns: Seq<NodeRec>, s: Seq<SerializeOp>)
    requires
        frames_ok(ns, s),
        s.len() > 0,
    ensures
        frame_ok(ns, s.last()),
        frames_ok(ns, s.drop_last()),
{
    assert(s.last() == s[s.len() - 1]);
    assert(forall|k: int| 0 <= k < s.drop_last().len() ==> s.drop_last()[k] == s[k]);
}

/// Resolves wrapper and option layers to the innermost serializable value:
/// `Ok(Some(_))` with that value's cursor, `Ok(None)` when the chain bottoms
/// out at an absent option, and the first unwrap failure otherwise.
pub fn innermost_option_peek(t: &ValueTree, p: Peek) -> (r: Result<Option<Peek>, ReflectError>)
    requires
        wf(t.nodes@),
        p.idx < t.nodes@.len(),
    ensures
        match r {
            Ok(Some(q)) => norm(t.nodes@, p.idx as int) == Normalized::Reached(q.idx as int)
                && q.idx < t.nodes@.len(),
            Ok(None) => norm(t.nodes@, p.idx as int) is Null,
            Err(e) => norm(t.nodes@, p.idx as int) == Normalized::Failed(e),
        },
{
    let ghost ns = t.nodes@;
    let mut cur = p;
    loop
        invariant
            wf(ns),
            ns == t.nodes@,
            cur.idx < ns.len(),
            norm(ns, p.idx as int) == norm(ns, cur.idx as int),
        decreases cur.idx,
    {
        let inner = match cur.innermost_peek(t) {
            Ok(q) => q,
            Err(e) => {
                return Err(e);
            },
        };
        proof {
            lemma_unwrap_chain_le(ns, cur.idx as int);
        }
        match &t.nodes[inner.idx].node {
            Node::Optional { value } => match value {
                None => {
                    return Ok(None);
                },
                Some(k) => {
                    proof {
                        assert(wf_node(ns, inner.idx as int));
                        assert(*k < inner.idx);
                        assert(norm(ns, cur.idx as int) == norm(ns, *k as int));
                    }
                    cur = Peek { idx: *k };
                },
            },
            _ => {
                return Ok(Some(inner));
            },
        }
    }
}

/// Composition with the empty text changes nothing.
pub proof fn lemma_scomp_empty(x: SOut)
    ensures
        scomp(SOut::Text(Seq::<char>::empty()), x) == x,
        scomp(x, SOut::Text(Seq::<char>::empty())) == x,
{
    match x {
        SOut::Text(s) => {
            assert(Seq::<char>::empty() + s =~= s);
            assert(s + Seq::<char>::empty() =~= s);
        },
        _ => {},
    }
}

/// One engine step for a value frame: normalizes, classifies, and either
/// writes a terminal token or pushes the frames of a composite.
#[verifier::rlimit(60)]
#[verifier::spinoff_prover]
fn step_value(t: &ValueTree, pv: Peek, out: &mut Vec<char>, stack: &mut Vec<SerializeOp>) -> (r:
    Result<(), ReflectError>)
    requires
        wf(t.nodes@),
        pv.idx < t.nodes@.len(),
        frames_ok(t.nodes@, old(stack)@),
    ensures
        match r {
            Ok(()) => frames_ok(t.nodes@, final(stack)@) && scomp(
                SOut::Text(final(out)@),
                pending(t.nodes@, final(stack)@),
            ) == scomp(
                SOut::Text(old(out)@),
                scomp(json(t.nodes@, pv.idx as int), pending(t.nodes@, old(stack)@)),
            ) && m_stack(t.nodes@, final(stack)@) < wt(t.nodes@, pv.idx as int) + m_stack(
                t.nodes@,
                old(stack)@,
            ),
            Err(e) => json(t.nodes@, pv.idx as int) == SOut::Fail(e),
        },
{
    let ghost ns = t.nodes@;
    let ghost b = ns.len() as int;
    let ghost out0 = old(out)@;
    let ghost pend = pending(ns, old(stack)@);
    proof {
        lemma_json_norm(ns, pv.idx as int);
        lemma_wt_norm(ns, pv.idx as int);
        lemma_wt_pos(ns, pv.idx as int);
    }
    match innermost_option_peek(t, pv) {
        Err(e) => {
            return Err(e);
        },
        Ok(None) => {
            write_null(out);
            proof {
                lemma_scomp_shift(out0, "null"@, pend);
            }
        },
        Ok(Some(q)) => {
            proof {
                assert(json(ns, pv.idx as int) == json(ns, q.idx as int));
                assert(wt(ns, q.idx as int) <= wt(ns, pv.idx as int));
                assert(wf_node(ns, q.idx as int));
            }
            match &t.nodes[q.idx].node {
                Node::Boolean(bv) => {
                    if *bv {
                        write_true(out);
                    } else {
                        write_false(out);
                    }
                    proof {
                        lemma_scomp_shift(out0, if *bv { "true"@ } else { "false"@ }, pend);
                    }
                },
                Node::Number(s) => {
                    write_raw(out, s);
                    proof {
                        lemma_scomp_shift(out0, s@, pend);
                    }
                },
                Node::EmptyScalar => {
                    write_null(out);
                    proof {
                        lemma_scomp_shift(out0, "null"@, pend);
                    }
                },
                Node::Text(s) => {
                    write_json_string(out, s);
                    proof {
                        lemma_scomp_shift(out0, crate::text::jstr(s@), pend);
                    }
                },
                Node::OtherScalar(s) => {
                    write_json_string(out, s);
                    proof {
                        lemma_scomp_shift(out0, crate::text::jstr(s@), pend);
                    }
                },
                Node::Tuple { items } => {
                    let it = ItemIter::new_tuple(PeekTuple { idx: q.idx }, t);
                    let f = SerializeOp::Array { first: true, items: it };
                    proof {
                        assert(all_below(items@, q.idx as int));
                        assert(all_below(items@, b));
                        lemma_arr_out_bound(ns, q.idx as int, b, items@);
                        lemma_wsum_bound(ns, q.idx as int, b, items@);
                        lemma_stack_push(ns, old(stack)@, f);
                        assert(den_op(ns, f) == json(ns, q.idx as int));
                    }
                    stack.push(f);
                },
                Node::Sequence { items, .. } => {
                    let it = ItemIter::new_list_like(PeekListLike { idx: q.idx }, t);
                    let f = SerializeOp::Array { first: true, items: it };
                    proof {
                        assert(all_below(items@, q.idx as int));
                        assert(all_below(items@, b));
                        lemma_arr_out_bound(ns, q.idx as int, b, items@);
                        lemma_wsum_bound(ns, q.idx as int, b, items@);
                        lemma_stack_push(ns, old(stack)@, f);
                        assert(den_op(ns, f) == json(ns, q.idx as int));
                    }
                    stack.push(f);
                },
                Node::Struct { kind, transparent, fields } => {
                    proof {
                        assert(!*transparent);
                    }
                    match kind {
                        StructKind::Unit => {
                            write_null(out);
                            proof {
                                lemma_scomp_shift(out0, "null"@, pend);
                            }
                        },
                        StructKind::TupleStruct => {
                            let it = ItemIter::new_struct(PeekStruct { idx: q.idx }, t);
                            let f = SerializeOp::Array { first: true, items: it };
                            proof {
                                let gi = eligible_items(fields@);
                                lemma_eligible_items_below(fields@, q.idx as int);
                                assert(all_below(gi, b));
                                lemma_arr_out_bound(ns, q.idx as int, b, gi);
                                lemma_wsum_bound(ns, q.idx as int, b, gi);
                                lemma_stack_push(ns, old(stack)@, f);
                                assert(den_op(ns, f) == json(ns, q.idx as int));
                            }
                            stack.push(f);
                        },
                        StructKind::Struct => {
                            let et = EntryIter::new_struct(PeekStruct { idx: q.idx }, t);
                            let f = SerializeOp::Object { first: true, entries: et };
                            proof {
                                let ge = eligible_entries(fields@);
                                lemma_eligible_entries_below(fields@, q.idx as int);
                                assert(gentries_below(ge, b));
                                lemma_obj_out_bound(ns, q.idx as int, b, ge);
                                lemma_evsum_bound(ns, q.idx as int, b, ge);
                                lemma_stack_push(ns, old(stack)@, f);
                                assert(den_op(ns, f) == json(ns, q.idx as int));
                            }
                            stack.push(f);
                        },
                    }
                },
                Node::Mapping { entries } => {
                    let et = EntryIter::new_map(PeekMap { idx: q.idx }, t);
                    let f = SerializeOp::Object { first: true, entries: et };
                    proof {
                        let ge = map_entries(entries@);
                        assert(gentries_below(ge, q.idx as int)) by {
                            assert(forall|k: int| 0 <= k < ge.len() ==> (#[trigger] ge[k])
                                == (GEntry {
                                key: GKey::Cur(entries@[k].key as int),
                                val: entries@[k].val as int,
                            }));
                        }
                        assert(gentries_below(ge, b));
                        lemma_obj_out_bound(ns, q.idx as int, b, ge);
                        lemma_evsum_bound(ns, q.idx as int, b, ge);
                        lemma_stack_push(ns, old(stack)@, f);
                        assert(den_op(ns, f) == json(ns, q.idx as int));
                    }
                    stack.push(f);
                },
                Node::Enum { variant, kind, fields } => {
                    match kind {
                        VariantKind::Unit => {
                            write_json_string(out, variant);
                            proof {
                                lemma_scomp_shift(out0, crate::text::jstr(variant@), pend);
                            }
                        },
                        VariantKind::Tuple => {
                            if fields.len() == 1 {
                                out.push('{');
                                write_json_string(out, variant);
                                out.push(':');
                                let child = fields[0].child;
                                let f1 = SerializeOp::Object {
                                    first: false,
                                    entries: EntryIter::empty(),
                                };
                                let ghost stack1 = stack@;
                                stack.push(f1);
                                let ghost stack2 = stack@;
                                let f2 = SerializeOp::Value(Peek { idx: child });
                                stack.push(f2);
                                proof {
                                    assert(child < q.idx);
                                    lemma_stack_push(ns, stack1, stack2.last());
                                    lemma_stack_push(ns, stack2, stack@.last());
                                    lemma_scomp_empty(SOut::Text(seq!['}']));
                                    assert(den_op(ns, stack2.last()) == SOut::Text(seq!['}']));
                                    let jc = json(ns, child as int);
                                    let pref = SOut::Text(enum_prefix(variant@));
                                    assert(pending(ns, stack@) == scomp(
                                        jc,
                                        scomp(SOut::Text(seq!['}']), pend),
                                    ));
                                    assert(json(ns, q.idx as int) == scomp(
                                        pref,
                                        scomp(jc, SOut::Text(seq!['}'])),
                                    ));
                                    lemma_scomp4(pref, jc, SOut::Text(seq!['}']), pend);
                                    assert(out@ =~= out0 + enum_prefix(variant@));
                                    lemma_scomp_shift(out0, enum_prefix(variant@), pending(ns, stack@));
                                }
                            } else {
                                out.push('{');
                                write_json_string(out, variant);
                                out.push(':');
                                let it = ItemIter::new_enum(PeekEnum { idx: q.idx }, t);
                                let f1 = SerializeOp::Object {
                                    first: false,
                                    entries: EntryIter::empty(),
                                };
                                let ghost stack1 = stack@;
                                stack.push(f1);
                                let ghost stack2 = stack@;
                                let f2 = SerializeOp::Array { first: true, items: it };
                                stack.push(f2);
                                proof {
                                    let gi = all_items(fields@);
                                    assert(all_below(gi, q.idx as int)) by {
                                        assert(forall|k: int| 0 <= k < gi.len()
                                            ==> (#[trigger] gi[k]) == fields@[k].child);
                                    }
                                    assert(all_below(gi, b));
                                    lemma_arr_out_bound(ns, q.idx as int, b, gi);
                                    lemma_wsum_bound(ns, q.idx as int, b, gi);
                                    lemma_stack_push(ns, stack1, stack2.last());
                                    lemma_stack_push(ns, stack2, stack@.last());
                                    lemma_scomp_empty(SOut::Text(seq!['}']));
                                    assert(den_op(ns, stack2.last()) == SOut::Text(seq!['}']));
                                    let aout = arr_out(ns, b, gi);
                                    assert(den_op(ns, stack@.last()) == aout);
                                    let pref = SOut::Text(enum_prefix(variant@));
                                    assert(pending(ns, stack@) == scomp(
                                        aout,
                                        scomp(SOut::Text(seq!['}']), pend),
                                    ));
                                    assert(json(ns, q.idx as int) == scomp(
                                        pref,
                                        scomp(aout, SOut::Text(seq!['}'])),
                                    ));
                                    lemma_scomp4(pref, aout, SOut::Text(seq!['}']), pend);
                                    assert(out@ =~= out0 + enum_prefix(variant@));
                                    lemma_scomp_shift(out0, enum_prefix(variant@), pending(ns, stack@));
                                }
                            }
                        },
                        VariantKind::Struct => {
                            out.push('{');
                            write_json_string(out, variant);
                            out.push(':');
                            let et = EntryIter::new_enum(PeekEnum { idx: q.idx }, t);
                            let f1 = SerializeOp::Object {
                                first: false,
                                entries: EntryIter::empty(),
                            };
                            let ghost stack1 = stack@;
                            stack.push(f1);
                            let ghost stack2 = stack@;
                            let f2 = SerializeOp::Object { first: true, entries: et };
                            stack.push(f2);
                            proof {
                                let ge = all_entries(fields@);
                                assert(gentries_below(ge, q.idx as int)) by {
                                    assert(forall|k: int| 0 <= k < ge.len() ==> (#[trigger] ge[k])
                                        == (GEntry {
                                        key: GKey::Lit(fields@[k].name@),
                                        val: fields@[k].child as int,
                                    }));
                                }
                                assert(gentries_below(ge, b));
                                lemma_obj_out_bound(ns, q.idx as int, b, ge);
                                lemma_evsum_bound(ns, q.idx as int, b, ge);
                                lemma_stack_push(ns, stack1, stack2.last());
                                lemma_stack_push(ns, stack2, stack@.last());
                                lemma_scomp_empty(SOut::Text(seq!['}']));
                                assert(den_op(ns, stack2.last()) == SOut::Text(seq!['}']));
                                let oout = obj_out(ns, b, ge);
                                assert(den_op(ns, stack@.last()) == oout);
                                let pref = SOut::Text(enum_prefix(variant@));
                                assert(pending(ns, stack@) == scomp(
                                    oout,
                                    scomp(SOut::Text(seq!['}']), pend),
                                ));
                                assert(json(ns, q.idx as int) == scomp(
                                    pref,
                                    scomp(oout, SOut::Text(seq!['}'])),
                                ));
                                lemma_scomp4(pref, oout, SOut::Text(seq!['}']), pend);
                                assert(out@ =~= out0 + enum_prefix(variant@));
                                lemma_scomp_shift(out0, enum_prefix(variant@), pending(ns, stack@));
                            }
                        },
                    }
                },
                Node::Unsupported => {
                    return Err(ReflectError::NoSerializationMapping);
                },
                Node::Optional { .. } => {
                    proof {
                        assert(false);
                    }
                    return Err(ReflectError::InvariantViolation);
                },
                Node::Pointer { .. } => {
                    proof {
                        assert(false);
                    }
                    return Err(ReflectError::InvariantViolation);
                },
            }
        },
    }
    Ok(())
}

/// One engine step for an array frame: opening bracket on first entry, then
/// either the closing bracket or a comma, the next item, and the resumed
/// frame pushed back beneath it.
#[verifier::rlimit(60)]
#[verifier::spinoff_prover]
fn step_array(t: &ValueTree, first: bool, items: ItemIter, out: &mut Vec<char>, stack: &mut Vec<
    SerializeOp,
>)
    requires
        wf(t.nodes@),
        frames_ok(t.nodes@, old(stack)@),
        all_below(items.rem(), t.nodes@.len() as int),
    ensures
        frames_ok(t.nodes@, final(stack)@),
        scomp(SOut::Text(final(out)@), pending(t.nodes@, final(stack)@)) == scomp(
            SOut::Text(old(out)@),
            scomp(den_array(t.nodes@, first, items.rem()), pending(t.nodes@, old(stack)@)),
        ),
        m_stack(t.nodes@, final(stack)@) < 1 + wsum(t.nodes@, t.nodes@.len() as int, items.rem())
            + m_stack(t.nodes@, old(stack)@),
{
    let ghost ns = t.nodes@;
    let ghost b = ns.len() as int;
    let ghost out0 = old(out)@;
    let ghost pend = pending(ns, old(stack)@);
    let ghost rem0 = items.rem();
    let mut items = items;
    if first {
        out.push('[');
    }
    match items.next() {
        None => {
            out.push(']');
            proof {
                let txt = if first { seq!['[', ']'] } else { seq![']'] };
                assert(out@ =~= out0 + txt);
                assert(den_array(ns, first, rem0) == SOut::Text(txt)) by {
                    lemma_scomp_empty(SOut::Text(seq![']']));
                    if first {
                        assert(seq!['['] + seq![']'] =~= seq!['[', ']']);
                    }
                }
                lemma_scomp_shift(out0, txt, pend);
            }
        },
        Some(item) => {
            if !first {
                out.push(',');
            }
            let f1 = SerializeOp::Array { first: false, items };
            let ghost stack1 = stack@;
            stack.push(f1);
            let ghost stack2 = stack@;
            let f2 = SerializeOp::Value(item);
            stack.push(f2);
            proof {
                assert(rem0[0] < b);
                assert(all_below(rem0.drop_first(), b)) by {
                    assert(forall|k: int| 0 <= k < rem0.drop_first().len()
                        ==> (#[trigger] rem0.drop_first()[k]) == rem0[k + 1]);
                }
                lemma_stack_push(ns, stack1, stack2.last());
                lemma_stack_push(ns, stack2, stack@.last());
                let j0 = json(ns, rem0[0] as int);
                let rp = rest_out(ns, b, rem0.drop_first());
                let x = scomp(SOut::Text(seq![']']), pend);
                assert(den_op(ns, stack2.last()) == scomp(rp, SOut::Text(seq![']'])));
                assert(den_op(ns, stack@.last()) == j0);
                assert(pending(ns, stack@) == scomp(
                    j0,
                    scomp(scomp(rp, SOut::Text(seq![']'])), pend),
                ));
                lemma_scomp_assoc(rp, SOut::Text(seq![']']), pend);
                assert(pending(ns, stack@) == scomp(j0, scomp(rp, x)));
                let txt = if first { seq!['['] } else { seq![','] };
                assert(out@ =~= out0 + txt);
                if first {
                    assert(list_out(ns, b, rem0) == scomp(j0, rp));
                    lemma_scomp4(SOut::Text(seq!['[']), scomp(j0, rp), SOut::Text(seq![']']), pend);
                    lemma_scomp_assoc(j0, rp, x);
                    assert(scomp(den_array(ns, true, rem0), pend) == scomp(
                        SOut::Text(seq!['[']),
                        scomp(j0, scomp(rp, x)),
                    ));
                } else {
                    assert(rest_out(ns, b, rem0) == scomp(SOut::Text(seq![',']), scomp(j0, rp)));
                    lemma_scomp_assoc(rest_out(ns, b, rem0), SOut::Text(seq![']']), pend);
                    lemma_scomp_assoc(SOut::Text(seq![',']), scomp(j0, rp), x);
                    lemma_scomp_assoc(j0, rp, x);
                    assert(scomp(den_array(ns, false, rem0), pend) == scomp(
                        SOut::Text(seq![',']),
                        scomp(j0, scomp(rp, x)),
                    ));
                }
                lemma_scomp_shift(out0, txt, pending(ns, stack@));
                assert(wsum(ns, b, rem0) == wt(ns, rem0[0] as int) + 1 + wsum(
                    ns,
                    b,
                    rem0.drop_first(),
                ));
            }
        },
    }
}

/// One engine step for an object frame: opening brace on first entry, then
/// either the closing brace or a comma, the next entry's key and colon, its
/// value, and the resumed frame pushed back beneath it.
#[verifier::rlimit(60)]
#[verifier::spinoff_prover]
fn step_object(t: &ValueTree, first: bool, entries: EntryIter, out: &mut Vec<char>, stack: &mut
    Vec<SerializeOp>) -> (r: Result<(), ReflectError>)
    requires
        wf(t.nodes@),
        frames_ok(t.nodes@, old(stack)@),
        gentries_below(entries.rem(), t.nodes@.len() as int),
    ensures
        match r {
            Ok(()) => frames_ok(t.nodes@, final(stack)@) && scomp(
                SOut::Text(final(out)@),
                pending(t.nodes@, final(stack)@),
            ) == scomp(
                SOut::Text(old(out)@),
                scomp(den_object(t.nodes@, first, entries.rem()), pending(t.nodes@, old(stack)@)),
            ) && m_stack(t.nodes@, final(stack)@) < 1 + evsum(
                t.nodes@,
                t.nodes@.len() as int,
                entries.rem(),
            ) + m_stack(t.nodes@, old(stack)@),
            Err(e) => den_object(t.nodes@, first, entries.rem()) == SOut::Fail(e),
        },
{
    let ghost ns = t.nodes@;
    let ghost b = ns.len() as int;
    let ghost out0 = old(out)@;
    let ghost pend = pending(ns, old(stack)@);
    let ghost rem0 = entries.rem();
    let mut entries = entries;
    if first {
        out.push('{');
    }
    match entries.next() {
        None => {
            out.push('}');
            proof {
                let txt = if first { seq!['{', '}'] } else { seq!['}'] };
                assert(out@ =~= out0 + txt);
                assert(den_object(ns, first, rem0) == SOut::Text(txt)) by {
                    lemma_scomp_empty(SOut::Text(seq!['}']));
                    if first {
                        assert(seq!['{'] + seq!['}'] =~= seq!['{', '}']);
                    }
                }
                lemma_scomp_shift(out0, txt, pend);
            }
            Ok(())
        },
        Some((key, val)) => {
            if !first {
                out.push(',');
            }
            proof {
                assert(0 <= rem0[0].val < b);
            }
            let ghost mut ktxt = Seq::<char>::empty();
            match &key {
                ObjectKey::Name(kname) => {
                    write_json_string(out, kname);
                    proof {
                        ktxt = crate::text::jstr(kname@);
                        assert(key_out(ns, rem0[0].key) == SOut::Text(ktxt));
                    }
                },
                ObjectKey::Cursor(kp) => {
                    proof {
                        assert(okey_view(key) == rem0[0].key);
                        assert(0 <= kp.idx < b);
                    }
                    match kp.as_str(t) {
                        Err(e) => {
                            proof {
                                assert(key_out(ns, rem0[0].key) == SOut::Fail(e));
                                assert(ent_out(ns, b, rem0[0]) == SOut::Fail(e));
                                assert(den_object(ns, first, rem0) == SOut::Fail(e));
                            }
                            return Err(e);
                        },
                        Ok(Some(s)) => {
                            write_json_string(out, &s);
                            proof {
                                ktxt = crate::text::jstr(s@);
                                assert(key_out(ns, rem0[0].key) == SOut::Text(ktxt));
                            }
                        },
                        Ok(None) => {
                            match kp.display_text(t) {
                                Some(d) => {
                                    write_json_string(out, &d);
                                    proof {
                                        ktxt = crate::text::jstr(d@);
                                        assert(key_out(ns, rem0[0].key) == SOut::Text(ktxt));
                                    }
                                },
                                None => {
                                    proof {
                                        assert(key_out(ns, rem0[0].key) == SOut::Fail(
                                            ReflectError::NoSerializationMapping,
                                        ));
                                        assert(ent_out(ns, b, rem0[0]) == SOut::Fail(
                                            ReflectError::NoSerializationMapping,
                                        ));
                                        assert(den_object(ns, first, rem0) == SOut::Fail(
                                            ReflectError::NoSerializationMapping,
                                        ));
                                    }
                                    return Err(ReflectError::NoSerializationMapping);
                                },
                            }
                        },
                    }
                },
            }
            out.push(':');
            let f1 = SerializeOp::Object { first: false, entries };
            let ghost stack1 = stack@;
            stack.push(f1);
            let ghost stack2 = stack@;
            let f2 = SerializeOp::Value(Peek { idx: val.idx });
            stack.push(f2);
            proof {
                assert(gentries_below(rem0.drop_first(), b)) by {
                    assert(forall|k: int| 0 <= k < rem0.drop_first().len()
                        ==> (#[trigger] rem0.drop_first()[k]) == rem0[k + 1]);
                }
                lemma_stack_push(ns, stack1, stack2.last());
                lemma_stack_push(ns, stack2, stack@.last());
                let j0 = json(ns, rem0[0].val);
                let erp = ent_rest_out(ns, b, rem0.drop_first());
                let y = scomp(SOut::Text(seq!['}']), pend);
                let z = scomp(erp, y);
                assert(den_op(ns, stack2.last()) == scomp(erp, SOut::Text(seq!['}'])));
                assert(den_op(ns, stack@.last()) == j0);
                assert(pending(ns, stack@) == scomp(
                    j0,
                    scomp(scomp(erp, SOut::Text(seq!['}'])), pend),
                ));
                lemma_scomp_assoc(erp, SOut::Text(seq!['}']), pend);
                assert(pending(ns, stack@) == scomp(j0, z));
                let e0 = ent_out(ns, b, rem0[0]);
                assert(e0 == scomp(SOut::Text(ktxt), scomp(SOut::Text(seq![':']), j0)));
                let lead = if first { seq!['{'] } else { seq![','] };
                if first {
                    assert(ent_list_out(ns, b, rem0) == scomp(e0, erp));
                    lemma_scomp4(SOut::Text(seq!['{']), scomp(e0, erp), SOut::Text(seq!['}']), pend);
                    lemma_scomp_assoc(e0, erp, y);
                    assert(scomp(den_object(ns, true, rem0), pend) == scomp(
                        SOut::Text(lead),
                        scomp(e0, z),
                    ));
                } else {
                    assert(ent_rest_out(ns, b, rem0) == scomp(SOut::Text(seq![',']), scomp(e0, erp)));
                    lemma_scomp_assoc(ent_rest_out(ns, b, rem0), SOut::Text(seq!['}']), pend);
                    lemma_scomp_assoc(SOut::Text(seq![',']), scomp(e0, erp), y);
                    lemma_scomp_assoc(e0, erp, y);
                    assert(scomp(den_object(ns, false, rem0), pend) == scomp(
                        SOut::Text(lead),
                        scomp(e0, z),
                    ));
                }
                lemma_scomp4(SOut::Text(ktxt), SOut::Text(seq![':']), j0, z);
                assert(scomp(e0, z) == scomp(
                    SOut::Text(ktxt),
                    scomp(SOut::Text(seq![':']), scomp(j0, z)),
                ));
                let txt = lead + ktxt + seq![':'];
                assert(out@ =~= out0 + txt);
                assert(txt == lead + (ktxt + seq![':'])) by {
                    assert(txt =~= lead + (ktxt + seq![':']));
                }
                lemma_scomp_shift(out0, txt, pending(ns, stack@));
                lemma_scomp_shift(lead, ktxt + seq![':'], pending(ns, stack@));
                lemma_scomp_shift(ktxt, seq![':'], pending(ns, stack@));
                assert(scomp(SOut::Text(out@), pending(ns, stack@)) == scomp(
                    SOut::Text(out0),
                    scomp(den_object(ns, first, rem0), pend),
                ));
                assert(evsum(ns, b, rem0) == wt(ns, rem0[0].val) + 1 + evsum(
                    ns,
                    b,
                    rem0.drop_first(),
                ));
            }
            Ok(())
        },
    }
}

/// Serializes the value under a cursor into a character buffer, without
/// native recursion: returns the exact text `jspec::json` denotes, or the
/// first failure that denotation names.
#[verifier::rlimit(60)]
#[verifier::spinoff_prover]
pub fn peek_to_chars(t: &ValueTree, p: Peek) -> (r: Result<Vec<char>, ReflectError>)
    requires
        wf(t.nodes@),
        p.idx < t.nodes@.len(),
    ensures
        match r {
            Ok(v) => json(t.nodes@, p.idx as int) == SOut::Text(v@),
            Err(e) => json(t.nodes@, p.idx as int) == SOut::Fail(e),
        },
{
    let ghost ns = t.nodes@;
    let ghost b = ns.len() as int;
    let ghost jroot = json(ns, p.idx as int);
    let mut out: Vec<char> = Vec::new();
    let mut stack: Vec<SerializeOp> = Vec::new();
    stack.push(SerializeOp::Value(p));
    proof {
        lemma_stack_push(ns, Seq::empty(), SerializeOp::Value(p));
        lemma_scomp_empty(json(ns, p.idx as int));
        lemma_scomp_empty(pending(ns, stack@));
        assert(frames_ok(ns, Seq::empty()));
        assert(scomp(SOut::Text(out@), pending(ns, stack@)) == jroot);
    }
    while stack.len() > 0
        invariant
            wf(ns),
            ns == t.nodes@,
            b == ns.len() as int,
            p.idx < ns.len(),
            jroot == json(ns, p.idx as int),
            frames_ok(ns, stack@),
            scomp(SOut::Text(out@), pending(ns, stack@)) == jroot,
        decreases m_stack(ns, stack@),
    {
        let ghost stack0 = stack@;
        let ghost out0 = out@;
        let op = stack.pop().unwrap();
        proof {
            lemma_stack_pop(ns, stack0);
            assert(stack@ == stack0.drop_last());
            assert(op == stack0.last());
            assert(pending(ns, stack0) == scomp(den_op(ns, op), pending(ns, stack@)));
            assert(m_stack(ns, stack0) == m_op(ns, op) + m_stack(ns, stack@));
        }
        match op {
            SerializeOp::Value(pv) => {
                match step_value(t, pv, &mut out, &mut stack) {
                    Ok(()) => {
                        proof {
                            assert(den_op(ns, op) == json(ns, pv.idx as int));
                            assert(scomp(SOut::Text(out@), pending(ns, stack@)) == jroot);
                            assert(m_stack(ns, stack@) < m_stack(ns, stack0));
                        }
                    },
                    Err(e) => {
                        proof {
                            assert(den_op(ns, op) == SOut::Fail(e));
                            assert(pending(ns, stack0) == SOut::Fail(e));
                            assert(jroot == SOut::Fail(e));
                        }
                        return Err(e);
                    },
                }
            },
            SerializeOp::Array { first, items } => {
                proof {
                    assert(den_op(ns, op) == den_array(ns, first, items.rem()));
                    assert(m_op(ns, op) == 1 + wsum(ns, b, items.rem()));
                }
                step_array(t, first, items, &mut out, &mut stack);
                proof {
                    assert(scomp(SOut::Text(out@), pending(ns, stack@)) == jroot);
                    assert(m_stack(ns, stack@) < m_stack(ns, stack0));
                }
            },
            SerializeOp::Object { first, entries } => {
                proof {
                    assert(den_op(ns, op) == den_object(ns, first, entries.rem()));
                    assert(m_op(ns, op) == 1 + evsum(ns, b, entries.rem()));
                }
                match step_object(t, first, entries, &mut out, &mut stack) {
                    Ok(()) => {
                        proof {
                            assert(scomp(SOut::Text(out@), pending(ns, stack@)) == jroot);
                            assert(m_stack(ns, stack@) < m_stack(ns, stack0));
                        }
                    },
                    Err(e) => {
                        proof {
                            assert(den_op(ns, op) == SOut::Fail(e));
                            assert(pending(ns, stack0) == SOut::Fail(e));
                            assert(jroot == SOut::Fail(e));
                        }
                        return Err(e);
                    },
                }
            },
        }
    }
    proof {
        lemma_scomp_empty(SOut::Text(out@));
        assert(pending(ns, stack@) == SOut::Text(Seq::<char>::empty()));
        assert(jroot == SOut::Text(out@));
    }
    Ok(out)
}

/// Relies on `String::from_iter` over characters: collecting a character
/// buffer yields the string holding exactly those characters.
#[verifier::external_body]
fn chars_to_string(v: &Vec<char>) -> (s: String)
    ensures
        s@ == v@,
{
    v.iter().collect()
}

/// Serializes a cursor to JSON text in memory.
pub fn peek_to_string(t: &ValueTree, peek: &Peek) -> (r: Result<String, ReflectError>)
    requires
        wf(t.nodes@),
        peek.idx < t.nodes@.len(),
    ensures
        match r {
            Ok(s) => json(t.nodes@, peek.idx as int) == SOut::Text(s@),
            Err(e) => json(t.nodes@, peek.idx as int) == SOut::Fail(e),
        },
{
    let chars = peek_to_chars(t, *peek)?;
    Ok(chars_to_string(&chars))
}

/// Serializes a whole value tree to JSON text, rooted at its last node.
pub fn to_string(t: &ValueTree) -> (r: Result<String, ReflectError>)
    requires
        wf(t.nodes@),
        t.nodes@.len() > 0,
    ensures
        match r {
            Ok(s) => json(t.nodes@, t.nodes@.len() - 1) == SOut::Text(s@),
            Err(e) => json(t.nodes@, t.nodes@.len() - 1) == SOut::Fail(e),
        },
{
    let root = Peek::new(t);
    peek_to_string(t, &root)
}

} // verus!
