//! Resumable iterators over the children of a composite node: the items a
//! pending array frame still has to write, and the key/value entries a
//! pending object frame still has to write.

use vstd::prelude::*;
use crate::tree::{Node, ValueTree};
use crate::peek::{Peek, PeekEnum, PeekListLike, PeekMap, PeekStruct, PeekTuple};
use crate::jspec::{
    GEntry, GKey, all_entries, all_items, eligible_entries, eligible_items, map_entries,
};
use crate::text::copy_chars;

verus! {

/// The key of one pending object entry: a declared field name written
/// literally, or a map key cursor coerced to text when it is written.
pub enum ObjectKey {
    Name(Vec<char>),
    Cursor(Peek),
}

/// The spec-level key an `ObjectKey` stands for.
pub open spec fn okey_view(k: ObjectKey) -> GKey {
    match k {
        ObjectKey::Name(s) => GKey::Lit(s@),
        ObjectKey::Cursor(p) => GKey::Cur(p.idx as int),
    }
}

/// The spec-level entries an exec entry list stands for.
pub open spec fn gentries_view(s: Seq<(ObjectKey, Peek)>) -> Seq<GEntry> {
    s.map_values(|p: (ObjectKey, Peek)| GEntry { key: okey_view(p.0), val: p.1.idx as int })
}

/// The remaining item cursors of one in-progress array.
pub struct ItemIter {
    pub items: Vec<usize>,
    pub pos: usize,
}

impl ItemIter {
    /// The indices this iterator still has to hand out.
    pub open spec fn rem(self) -> Seq<usize> {
        if self.pos <= self.items@.len() {
            self.items@.skip(self.pos as int)
        } else {
            Seq::empty()
        }
    }

    /// Iterates the elements of a list, array or slice.
    pub fn new_list_like(value: PeekListLike, t: &ValueTree) -> (it: ItemIter)
        requires
            value.idx < t.nodes@.len(),
            t.nodes@[value.idx as int].node is Sequence,
        ensures
            it.rem() == t.nodes@[value.idx as int].node->Sequence_items@,
    {
        match &t.nodes[value.idx].node {
            Node::Sequence { items, .. } => {
                let copied = copy_idxs(items);
                let it = ItemIter { items: copied, pos: 0 };
                assert(it.rem() =~= items@);
                it
            },
            _ => {
                proof {
                    assert(false);
                }
                ItemIter { items: Vec::new(), pos: 0 }
            },
        }
    }

    /// Iterates the field cursors of a tuple in declared order.
    pub fn new_tuple(value: PeekTuple, t: &ValueTree) -> (it: ItemIter)
        requires
            value.idx < t.nodes@.len(),
            t.nodes@[value.idx as int].node is Tuple,
        ensures
            it.rem() == t.nodes@[value.idx as int].node->Tuple_items@,
    {
        match &t.nodes[value.idx].node {
            Node::Tuple { items } => {
                let copied = copy_idxs(items);
                let it = ItemIter { items: copied, pos: 0 };
                assert(it.rem() =~= items@);
                it
            },
            _ => {
                proof {
                    assert(false);
                }
                ItemIter { items: Vec::new(), pos: 0 }
            },
        }
    }

    /// Iterates the serialize-eligible field cursors of a tuple struct in
    /// declared order.
    pub fn new_struct(value: PeekStruct, t: &ValueTree) -> (it: ItemIter)
        requires
            value.idx < t.nodes@.len(),
            t.nodes@[value.idx as int].node is Struct,
        ensures
            it.rem() == eligible_items(t.nodes@[value.idx as int].node->Struct_fields@),
    {
        match &t.nodes[value.idx].node {
            Node::Struct { fields, .. } => {
                let n = fields.len();
                let mut items: Vec<usize> = Vec::new();
                let mut k: usize = 0;
                while k < n
                    invariant
                        n == fields@.len(),
                        k <= n,
                        items@ == eligible_items(fields@.take(k as int)),
                    decreases n - k,
                {
                    proof {
                        let taken = fields@.take(k + 1);
                        assert(taken.drop_last() =~= fields@.take(k as int));
                        assert(taken.last() == fields@[k as int]);
                    }
                    if fields[k].emit {
                        items.push(fields[k].child);
                    }
                    k = k + 1;
                }
                assert(fields@.take(n as int) =~= fields@);
                let it = ItemIter { items, pos: 0 };
                assert(it.rem() =~= eligible_items(fields@));
                it
            },
            _ => {
                proof {
                    assert(false);
                }
                ItemIter { items: Vec::new(), pos: 0 }
            },
        }
    }

    /// Iterates all field cursors of the active variant of an enum.
    pub fn new_enum(value: PeekEnum, t: &ValueTree) -> (it: ItemIter)
        requires
            value.idx < t.nodes@.len(),
            t.nodes@[value.idx as int].node is Enum,
        ensures
            it.rem() == all_items(t.nodes@[value.idx as int].node->Enum_fields@),
    {
        match &t.nodes[value.idx].node {
            Node::Enum { fields, .. } => {
                let n = fields.len();
                let mut items: Vec<usize> = Vec::new();
                let mut k: usize = 0;
                while k < n
                    invariant
                        n == fields@.len(),
                        k <= n,
                        items@ == all_items(fields@.take(k as int)),
                    decreases n - k,
                {
                    items.push(fields[k].child);
                    proof {
                        assert(all_items(fields@.take(k + 1)) =~= all_items(
                            fields@.take(k as int),
                        ).push(fields@[k as int].child));
                    }
                    k = k + 1;
                }
                assert(fields@.take(n as int) =~= fields@);
                let it = ItemIter { items, pos: 0 };
                assert(it.rem() =~= all_items(fields@));
                it
            },
            _ => {
                proof {
                    assert(false);
                }
                ItemIter { items: Vec::new(), pos: 0 }
            },
        }
    }

    /// Hands out the next item cursor, left to right.
    pub fn next(&mut self) -> (r: Option<Peek>)
        ensures
            match r {
                Some(p) => old(self).rem().len() > 0 && p.idx == old(self).rem()[0]
                    && final(self).rem() == old(self).rem().drop_first(),
                None => old(self).rem().len() == 0 && final(self).rem() == old(self).rem(),
            },
    {
        if self.pos < self.items.len() {
            let idx = self.items[self.pos];
            self.pos = self.pos + 1;
            proof {
                assert(self.rem() =~= old(self).rem().drop_first());
            }
            Some(Peek { idx })
        } else {
            None
        }
    }
}

/// The remaining key/value entries of one in-progress object.
pub struct EntryIter {
    pub entries: Vec<(ObjectKey, Peek)>,
    pub pos: usize,
}

impl EntryIter {
    /// The spec-level entries this iterator still has to hand out.
    pub open spec fn rem(self) -> Seq<GEntry> {
        if self.pos <= self.entries@.len() {
            gentries_view(self.entries@.skip(self.pos as int))
        } else {
            Seq::empty()
        }
    }

    /// An iterator with nothing left: used as the bookkeeping frame that
    /// closes an enum payload's outer object.
    pub fn empty() -> (it: EntryIter)
        ensures
            it.rem() == Seq::<GEntry>::empty(),
    {
        let it = EntryIter { entries: Vec::new(), pos: 0 };
        assert(it.rem() =~= Seq::<GEntry>::empty());
        it
    }

    /// Iterates the key/value pairs of a map in iteration order.
    pub fn new_map(value: PeekMap, t: &ValueTree) -> (it: EntryIter)
        requires
            value.idx < t.nodes@.len(),
            t.nodes@[value.idx as int].node is Mapping,
        ensures
            it.rem() == map_entries(t.nodes@[value.idx as int].node->Mapping_entries@),
    {
        match &t.nodes[value.idx].node {
            Node::Mapping { entries } => {
                let n = entries.len();
                let mut out: Vec<(ObjectKey, Peek)> = Vec::new();
                let mut k: usize = 0;
                while k < n
                    invariant
                        n == entries@.len(),
                        k <= n,
                        gentries_view(out@) == map_entries(entries@.take(k as int)),
                    decreases n - k,
                {
                    let e = entries[k];
                    out.push((ObjectKey::Cursor(Peek { idx: e.key }), Peek { idx: e.val }));
                    proof {
                        let e0 = entries@[k as int];
                        let g0 = GEntry { key: GKey::Cur(e0.key as int), val: e0.val as int };
                        assert(map_entries(entries@.take(k + 1)) =~= map_entries(
                            entries@.take(k as int),
                        ).push(g0));
                        assert(gentries_view(out@) =~= map_entries(entries@.take(k as int)).push(
                            g0,
                        ));
                    }
                    k = k + 1;
                }
                assert(entries@.take(n as int) =~= entries@);
                let it = EntryIter { entries: out, pos: 0 };
                assert(it.entries@.skip(0int) =~= it.entries@);
                it
            },
            _ => {
                proof {
                    assert(false);
                }
                EntryIter::empty()
            },
        }
    }

    /// Iterates the serialize-eligible (field name, field cursor) entries of
    /// a struct in declared order.
    pub fn new_struct(value: PeekStruct, t: &ValueTree) -> (it: EntryIter)
        requires
            value.idx < t.nodes@.len(),
            t.nodes@[value.idx as int].node is Struct,
        ensures
            it.rem() == eligible_entries(t.nodes@[value.idx as int].node->Struct_fields@),
    {
        match &t.nodes[value.idx].node {
            Node::Struct { fields, .. } => {
                let n = fields.len();
                let mut out: Vec<(ObjectKey, Peek)> = Vec::new();
                let mut k: usize = 0;
                while k < n
                    invariant
                        n == fields@.len(),
                        k <= n,
                        gentries_view(out@) == eligible_entries(fields@.take(k as int)),
                    decreases n - k,
                {
                    proof {
                        let taken = fields@.take(k + 1);
                        assert(taken.drop_last() =~= fields@.take(k as int));
                        assert(taken.last() == fields@[k as int]);
                    }
                    if fields[k].emit {
                        let name = copy_chars(&fields[k].name);
                        out.push((ObjectKey::Name(name), Peek { idx: fields[k].child }));
                    }
                    assert(gentries_view(out@) =~= eligible_entries(fields@.take(k + 1)));
                    k = k + 1;
                }
                assert(fields@.take(n as int) =~= fields@);
                let it = EntryIter { entries: out, pos: 0 };
                assert(it.entries@.skip(0int) =~= it.entries@);
                it
            },
            _ => {
                proof {
                    assert(false);
                }
                EntryIter::empty()
            },
        }
    }

    /// Iterates all (field name, field cursor) entries of the active variant
    /// of an enum.
    pub fn new_enum(value: PeekEnum, t: &ValueTree) -> (it: EntryIter)
        requires
            value.idx < t.nodes@.len(),
            t.nodes@[value.idx as int].node is Enum,
        ensures
            it.rem() == all_entries(t.nodes@[value.idx as int].node->Enum_fields@),
    {
        match &t.nodes[value.idx].node {
            Node::Enum { fields, .. } => {
                let n = fields.len();
                let mut out: Vec<(ObjectKey, Peek)> = Vec::new();
                let mut k: usize = 0;
                while k < n
                    invariant
                        n == fields@.len(),
                        k <= n,
                        gentries_view(out@) == all_entries(fields@.take(k as int)),
                    decreases n - k,
                {
                    let name = copy_chars(&fields[k].name);
                    out.push((ObjectKey::Name(name), Peek { idx: fields[k].child }));
                    proof {
                        let f0 = fields@[k as int];
                        let g0 = GEntry { key: GKey::Lit(f0.name@), val: f0.child as int };
                        assert(all_entries(fields@.take(k + 1)) =~= all_entries(
                            fields@.take(k as int),
                        ).push(g0));
                        assert(gentries_view(out@) =~= all_entries(fields@.take(k as int)).push(
                            g0,
                        ));
                    }
                    k = k + 1;
                }
                assert(fields@.take(n as int) =~= fields@);
                let it = EntryIter { entries: out, pos: 0 };
                assert(it.entries@.skip(0int) =~= it.entries@);
                it
            },
            _ => {
                proof {
                    assert(false);
                }
                EntryIter::empty()
            },
        }
    }

    /// Hands out the next entry, left to right.
    pub fn next(&mut self) -> (r: Option<(ObjectKey, Peek)>)
        ensures
            match r {
                Some(p) => old(self).rem().len() > 0 && okey_view(p.0) == old(self).rem()[0].key
                    && p.1.idx == old(self).rem()[0].val
                    && final(self).rem() == old(self).rem().drop_first(),
                None => old(self).rem().len() == 0 && final(self).rem() == old(self).rem(),
            },
    {
        if self.pos < self.entries.len() {
            let (k, v) = (
                clone_key(&self.entries[self.pos].0),
                self.entries[self.pos].1,
            );
            self.pos = self.pos + 1;
            proof {
                assert(self.entries@.skip(old(self).pos as int).drop_first() =~= self.entries@.skip(
                    self.pos as int,
                ));
                assert(self.rem() =~= old(self).rem().drop_first());
                assert(old(self).rem()[0] == gentries_view(
                    old(self).entries@.skip(old(self).pos as int),
                )[0]);
            }
            Some((k, v))
        } else {
            None
        }
    }
}

/// Copies a list of child indices.
fn copy_idxs(s: &Vec<usize>) -> (r: Vec<usize>)
    ensures
        r@ == s@,
{
    let n = s.len();
    let mut r: Vec<usize> = Vec::new();
    let mut i: usize = 0;
    while i < n
        invariant
            n == s@.len(),
            i <= n,
            r@ == s@.take(i as int),
        decreases n - i,
    {
        r.push(s[i]);
        assert(r@ =~= s@.take(i + 1));
        i = i + 1;
    }
    assert(s@.take(n as int) =~= s@);
    r
}

/// Copies one object key.
fn clone_key(k: &ObjectKey) -> (r: ObjectKey)
    ensures
        okey_view(r) == okey_view(*k),
{
    match k {
        ObjectKey::Name(s) => ObjectKey::Name(copy_chars(s)),
        ObjectKey::Cursor(p) => ObjectKey::Cursor(*p),
    }
}

} // verus!
