//! The value cursor: a non-owning, read-only view into one node of a value
//! tree, with typed navigation into sub-views and unwrapping of
//! reference/smart-pointer/transparent layers.

use vstd::prelude::*;
use crate::tree::{
    Category, Expected, Node, NodeRec, ReflectError, SeqKind, ValueTree,
    spec_category, wf, wf_node,
};
use crate::text::copy_chars;

verus! {

/// A unique identifier for a peek value: two cursors are identity-equal
/// exactly when they view the same node.
#[derive(Clone, Copy, PartialEq, Eq, Structural, Debug)]
pub struct ValueId {
    pub idx: usize,
}

impl ValueId {
    pub fn new(idx: usize) -> (v: ValueId)
        ensures
            v.idx == idx,
    {
        ValueId { idx }
    }
}

/// Lets you read from one value of the tree.
#[derive(Clone, Copy, PartialEq, Eq, Structural, Debug)]
pub struct Peek {
    pub idx: usize,
}

/// A cursor known to view a struct node.
#[derive(Clone, Copy, Debug)]
pub struct PeekStruct {
    pub idx: usize,
}

/// A cursor known to view an enum node.
#[derive(Clone, Copy, Debug)]
pub struct PeekEnum {
    pub idx: usize,
}

/// A cursor known to view a tuple node.
#[derive(Clone, Copy, Debug)]
pub struct PeekTuple {
    pub idx: usize,
}

/// A cursor known to view a list node.
#[derive(Clone, Copy, Debug)]
pub struct PeekList {
    pub idx: usize,
}

/// A cursor known to view a list, array or slice node.
#[derive(Clone, Copy, Debug)]
pub struct PeekListLike {
    pub idx: usize,
}

/// A cursor known to view a map node.
#[derive(Clone, Copy, Debug)]
pub struct PeekMap {
    pub idx: usize,
}

/// A cursor known to view an option node.
#[derive(Clone, Copy, Debug)]
pub struct PeekOption {
    pub idx: usize,
}

/// A cursor known to view a reference or smart-pointer node.
#[derive(Clone, Copy, Debug)]
pub struct PeekSmartPointer {
    pub idx: usize,
}

/// What one unwrapping step of a cursor yields.
pub enum StepRes {
    /// The shape is a wrapper layer and its inner cursor is at this index.
    Into(int),
    /// The shape is not a wrapper at all.
    NoWrapper,
    /// Unwrapping was requested but failed.
    Failed(ReflectError),
}

/// What the full wrapper chain of a cursor bottoms out at.
pub enum Unwrapped {
    /// The innermost non-wrapper cursor.
    Reached(int),
    /// Some layer failed to unwrap.
    Failed(ReflectError),
}

/// One unwrapping step: a reference/smart-pointer layer follows its
/// borrow-inner operation, a transparent struct steps into its first field,
/// anything else is not a wrapper.
pub open spec fn unwrap_step(ns: Seq<NodeRec>, i: int) -> StepRes {
    if !(0 <= i < ns.len()) {
        StepRes::NoWrapper
    } else {
        match ns[i].node {
            Node::Pointer { inner, borrow_ok } => if borrow_ok {
                StepRes::Into(inner as int)
            } else {
                StepRes::Failed(ReflectError::BorrowFailed)
            },
            Node::Struct { transparent, fields, .. } => if transparent {
                if fields@.len() == 0 {
                    StepRes::Failed(ReflectError::InvariantViolation)
                } else {
                    StepRes::Into(fields@[0].child as int)
                }
            } else {
                StepRes::NoWrapper
            },
            _ => StepRes::NoWrapper,
        }
    }
}

/// The innermost cursor of the wrapper chain starting at `i`, or the first
/// failure met on the way down.
pub open spec fn unwrap_chain(ns: Seq<NodeRec>, i: int) -> Unwrapped
    decreases i when 0 <= i
{
    match unwrap_step(ns, i) {
        StepRes::Failed(e) => Unwrapped::Failed(e),
        StepRes::NoWrapper => Unwrapped::Reached(i),
        StepRes::Into(j) => if 0 <= j < i {
            unwrap_chain(ns, j)
        } else {
            Unwrapped::Reached(i)
        },
    }
}

/// The text a string-like cursor carries: the innermost wrapper target, if it
/// is a string scalar.
pub open spec fn as_text_spec(ns: Seq<NodeRec>, i: int) -> Option<Seq<char>> {
    match unwrap_chain(ns, i) {
        Unwrapped::Reached(j) => if 0 <= j < ns.len() {
            match ns[j].node {
                Node::Text(s) => Some(s@),
                _ => None,
            }
        } else {
            None
        },
        Unwrapped::Failed(..) => None,
    }
}

/// The display text of a node, as its shape's display operation renders it;
/// absent on shapes without one.
pub open spec fn disp(ns: Seq<NodeRec>, i: int) -> Option<Seq<char>> {
    if !(0 <= i < ns.len()) {
        None
    } else {
        match ns[i].node {
            Node::Boolean(b) => Some(if b { "true"@ } else { "false"@ }),
            Node::Number(s) => Some(s@),
            Node::Text(s) => Some(s@),
            Node::OtherScalar(s) => Some(s@),
            _ => None,
        }
    }
}

/// A chain step stays strictly below its start, so the innermost target of a
/// well-formed tree never lies above the cursor it came from.
pub proof fn lemma_unwrap_chain_le(ns: Seq<NodeRec>, i: int)
    requires
        wf(ns),
        0 <= i < ns.len(),
    ensures
        match unwrap_chain(ns, i) {
            Unwrapped::Reached(j) => 0 <= j <= i,
            Unwrapped::Failed(..) => true,
        },
    decreases i,
{
    match unwrap_step(ns, i) {
        StepRes::Into(j) => {
            assert(wf_node(ns, i));
            if 0 <= j < i {
                lemma_unwrap_chain_le(ns, j);
            }
        },
        _ => {},
    }
}

impl Peek {
    /// A cursor rooted at the whole tree's root value, which is its last node.
    pub fn new(t: &ValueTree) -> (p: Peek)
        requires
            t.nodes@.len() > 0,
        ensures
            p.idx == t.nodes@.len() - 1,
    {
        Peek { idx: t.nodes.len() - 1 }
    }

    /// A cursor at an arbitrary node of the tree.
    pub fn at(idx: usize, t: &ValueTree) -> (p: Peek)
        requires
            idx < t.nodes@.len(),
        ensures
            p.idx == idx,
    {
        Peek { idx }
    }

    /// The identity of the viewed value, usable for cycle detection.
    pub fn id(&self) -> (v: ValueId)
        ensures
            v.idx == self.idx,
    {
        ValueId::new(self.idx)
    }

    /// True exactly when the two cursors view the same value.
    pub fn ptr_eq(&self, other: &Peek) -> (r: bool)
        ensures
            r == (self.idx == other.idx),
    {
        self.idx == other.idx
    }

    /// The category tag of the viewed shape, used to dispatch navigation.
    pub fn category(&self, t: &ValueTree) -> (c: Category)
        requires
            self.idx < t.nodes@.len(),
        ensures
            c == spec_category(t.nodes@[self.idx as int].node),
    {
        match &t.nodes[self.idx].node {
            Node::Boolean(..) => Category::Boolean,
            Node::Number(..) => Category::Number,
            Node::EmptyScalar => Category::EmptyScalar,
            Node::Text(..) => Category::Text,
            Node::OtherScalar(..) => Category::OtherScalar,
            Node::Struct { .. } => Category::Struct,
            Node::Enum { .. } => Category::Enum,
            Node::Tuple { .. } => Category::Tuple,
            Node::Sequence { kind, .. } => match kind {
                SeqKind::List => Category::List,
                SeqKind::Array => Category::Array,
                SeqKind::Slice => Category::Slice,
            },
            Node::Mapping { .. } => Category::Mapping,
            Node::Optional { .. } => Category::Optional,
            Node::Pointer { .. } => Category::SmartPointer,
            Node::Unsupported => Category::Unsupported,
        }
    }

    /// Reads the boolean a boolean-affinity scalar holds; fails with
    /// `WrongShape` on every other category.
    pub fn get_bool(&self, t: &ValueTree) -> (r: Result<bool, ReflectError>)
        requires
            self.idx < t.nodes@.len(),
        ensures
            match r {
                Ok(b) => t.nodes@[self.idx as int].node == Node::Boolean(b),
                Err(e) => !(t.nodes@[self.idx as int].node is Boolean) && e
                    == (ReflectError::WrongShape {
                    expected: Category::Boolean,
                    actual: spec_category(t.nodes@[self.idx as int].node),
                }),
            },
    {
        match &t.nodes[self.idx].node {
            Node::Boolean(b) => Ok(*b),
            _ => Err(ReflectError::WrongShape {
                expected: Category::Boolean,
                actual: self.category(t),
            }),
        }
    }

    /// Tries to identify this value as a struct.
    pub fn into_struct(self, t: &ValueTree) -> (r: Result<PeekStruct, ReflectError>)
        requires
            self.idx < t.nodes@.len(),
        ensures
            match r {
                Ok(s) => s.idx == self.idx
                    && t.nodes@[self.idx as int].node is Struct,
                Err(e) => !(t.nodes@[self.idx as int].node is Struct)
                    && e == (ReflectError::WasNotA { expected: Expected::Struct }),
            },
    {
        match &t.nodes[self.idx].node {
            Node::Struct { .. } => Ok(PeekStruct { idx: self.idx }),
            _ => Err(ReflectError::WasNotA { expected: Expected::Struct }),
        }
    }

    /// Tries to identify this value as an enum.
    pub fn into_enum(self, t: &ValueTree) -> (r: Result<PeekEnum, ReflectError>)
        requires
            self.idx < t.nodes@.len(),
        ensures
            match r {
                Ok(s) => s.idx == self.idx
                    && t.nodes@[self.idx as int].node is Enum,
                Err(e) => !(t.nodes@[self.idx as int].node is Enum)
                    && e == (ReflectError::WasNotA { expected: Expected::Enum }),
            },
    {
        match &t.nodes[self.idx].node {
            Node::Enum { .. } => Ok(PeekEnum { idx: self.idx }),
            _ => Err(ReflectError::WasNotA { expected: Expected::Enum }),
        }
    }

    /// Tries to identify this value as a map.
    pub fn into_map(self, t: &ValueTree) -> (r: Result<PeekMap, ReflectError>)
        requires
            self.idx < t.nodes@.len(),
        ensures
            match r {
                Ok(s) => s.idx == self.idx
                    && t.nodes@[self.idx as int].node is Mapping,
                Err(e) => !(t.nodes@[self.idx as int].node is Mapping)
                    && e == (ReflectError::WasNotA { expected: Expected::Mapping }),
            },
    {
        match &t.nodes[self.idx].node {
            Node::Mapping { .. } => Ok(PeekMap { idx: self.idx }),
            _ => Err(ReflectError::WasNotA { expected: Expected::Mapping }),
        }
    }

    /// Tries to identify this value as a list.
    pub fn into_list(self, t: &ValueTree) -> (r: Result<PeekList, ReflectError>)
        requires
            self.idx < t.nodes@.len(),
        ensures
            match r {
                Ok(s) => s.idx == self.idx
                    && spec_category(t.nodes@[self.idx as int].node) == Category::List,
                Err(e) => spec_category(t.nodes@[self.idx as int].node) != Category::List
                    && e == (ReflectError::WasNotA { expected: Expected::List }),
            },
    {
        match &t.nodes[self.idx].node {
            Node::Sequence { kind: SeqKind::List, .. } => Ok(PeekList { idx: self.idx }),
            _ => Err(ReflectError::WasNotA { expected: Expected::List }),
        }
    }

    /// Tries to identify this value as a list, array or slice.
    pub fn into_list_like(self, t: &ValueTree) -> (r: Result<PeekListLike, ReflectError>)
        requires
            self.idx < t.nodes@.len(),
        ensures
            match r {
                Ok(s) => s.idx == self.idx
                    && t.nodes@[self.idx as int].node is Sequence,
                Err(e) => !(t.nodes@[self.idx as int].node is Sequence)
                    && e == (ReflectError::WasNotA { expected: Expected::ListLike }),
            },
    {
        match &t.nodes[self.idx].node {
            Node::Sequence { .. } => Ok(PeekListLike { idx: self.idx }),
            _ => Err(ReflectError::WasNotA { expected: Expected::ListLike }),
        }
    }

    /// Tries to identify this value as a smart pointer.
    pub fn into_smart_pointer(self, t: &ValueTree) -> (r: Result<PeekSmartPointer, ReflectError>)
        requires
            self.idx < t.nodes@.len(),
        ensures
            match r {
                Ok(s) => s.idx == self.idx
                    && t.nodes@[self.idx as int].node is Pointer,
                Err(e) => !(t.nodes@[self.idx as int].node is Pointer)
                    && e == (ReflectError::WasNotA { expected: Expected::SmartPointer }),
            },
    {
        match &t.nodes[self.idx].node {
            Node::Pointer { .. } => Ok(PeekSmartPointer { idx: self.idx }),
            _ => Err(ReflectError::WasNotA { expected: Expected::SmartPointer }),
        }
    }

    /// Tries to identify this value as an option.
    pub fn into_option(self, t: &ValueTree) -> (r: Result<PeekOption, ReflectError>)
        requires
            self.idx < t.nodes@.len(),
        ensures
            match r {
                Ok(s) => s.idx == self.idx
                    && t.nodes@[self.idx as int].node is Optional,
                Err(e) => !(t.nodes@[self.idx as int].node is Optional)
                    && e == (ReflectError::WasNotA { expected: Expected::Optional }),
            },
    {
        match &t.nodes[self.idx].node {
            Node::Optional { .. } => Ok(PeekOption { idx: self.idx }),
            _ => Err(ReflectError::WasNotA { expected: Expected::Optional }),
        }
    }

    /// Tries to identify this value as a tuple.
    pub fn into_tuple(self, t: &ValueTree) -> (r: Result<PeekTuple, ReflectError>)
        requires
            self.idx < t.nodes@.len(),
        ensures
            match r {
                Ok(s) => s.idx == self.idx
                    && t.nodes@[self.idx as int].node is Tuple,
                Err(e) => !(t.nodes@[self.idx as int].node is Tuple)
                    && e == (ReflectError::WasNotA { expected: Expected::Tuple }),
            },
    {
        match &t.nodes[self.idx].node {
            Node::Tuple { .. } => Ok(PeekTuple { idx: self.idx }),
            _ => Err(ReflectError::WasNotA { expected: Expected::Tuple }),
        }
    }

    /// Tries to read the inner value of one wrapper layer: `Ok(Some(_))` with
    /// the inner cursor, `Ok(None)` if the shape is no wrapper, `Err(_)` if
    /// the borrow-inner operation reports failure or a transparent struct has
    /// no field to step into.
    pub fn inner_peek(self, t: &ValueTree) -> (r: Result<Option<Peek>, ReflectError>)
        requires
            wf(t.nodes@),
            self.idx < t.nodes@.len(),
        ensures
            match r {
                Ok(Some(p)) => unwrap_step(t.nodes@, self.idx as int) == StepRes::Into(
                    p.idx as int,
                ) && p.idx < self.idx,
                Ok(None) => unwrap_step(t.nodes@, self.idx as int) is NoWrapper,
                Err(e) => unwrap_step(t.nodes@, self.idx as int) == StepRes::Failed(e),
            },
    {
        assert(wf_node(t.nodes@, self.idx as int));
        match &t.nodes[self.idx].node {
            Node::Pointer { inner, borrow_ok } => if *borrow_ok {
                Ok(Some(Peek { idx: *inner }))
            } else {
                Err(ReflectError::BorrowFailed)
            },
            Node::Struct { transparent, fields, .. } => if *transparent {
                if fields.len() == 0 {
                    Err(ReflectError::InvariantViolation)
                } else {
                    Ok(Some(Peek { idx: fields[0].child }))
                }
            } else {
                Ok(None)
            },
            _ => Ok(None),
        }
    }

    /// Returns the innermost value, repeatedly unwrapping reference,
    /// smart-pointer and transparent layers; a borrow failure on the way
    /// down propagates immediately.
    pub fn innermost_peek(self, t: &ValueTree) -> (r: Result<Peek, ReflectError>)
        requires
            wf(t.nodes@),
            self.idx < t.nodes@.len(),
        ensures
            match r {
                Ok(p) => unwrap_chain(t.nodes@, self.idx as int) == Unwrapped::Reached(
                    p.idx as int,
                ) && p.idx < t.nodes@.len(),
                Err(e) => unwrap_chain(t.nodes@, self.idx as int) == Unwrapped::Failed(e),
            },
    {
        let mut cur = self;
        loop
            invariant
                wf(t.nodes@),
                cur.idx < t.nodes@.len(),
                unwrap_chain(t.nodes@, self.idx as int) == unwrap_chain(t.nodes@, cur.idx as int),
            decreases cur.idx,
        {
            match cur.inner_peek(t) {
                Err(e) => {
                    return Err(e);
                },
                Ok(None) => {
                    return Ok(cur);
                },
                Ok(Some(p)) => {
                    cur = p;
                },
            }
        }
    }

    /// The text of a string-like value: unwraps to the innermost cursor and
    /// hands out its payload if that is a string scalar.
    pub fn as_str(&self, t: &ValueTree) -> (r: Result<Option<Vec<char>>, ReflectError>)
        requires
            wf(t.nodes@),
            self.idx < t.nodes@.len(),
        ensures
            match r {
                Ok(Some(v)) => as_text_spec(t.nodes@, self.idx as int) == Some(v@),
                Ok(None) => as_text_spec(t.nodes@, self.idx as int) is None
                    && !(unwrap_chain(t.nodes@, self.idx as int) is Failed),
                Err(e) => unwrap_chain(t.nodes@, self.idx as int) == Unwrapped::Failed(e),
            },
    {
        let inner = self.innermost_peek(t)?;
        match &t.nodes[inner.idx].node {
            Node::Text(s) => Ok(Some(copy_chars(s))),
            _ => Ok(None),
        }
    }

    /// The display text of the viewed value, if its shape renders one.
    pub fn display_text(&self, t: &ValueTree) -> (r: Option<Vec<char>>)
        requires
            self.idx < t.nodes@.len(),
        ensures
            match r {
                Some(v) => disp(t.nodes@, self.idx as int) == Some(v@),
                None => disp(t.nodes@, self.idx as int) is None,
            },
    {
        match &t.nodes[self.idx].node {
            Node::Boolean(b) => {
                let mut v: Vec<char> = Vec::new();
                if *b {
                    crate::text::write_true(&mut v);
                } else {
                    crate::text::write_false(&mut v);
                }
                proof {
                    assert(v@ =~= if *b { "true"@ } else { "false"@ });
                }
                Some(v)
            },
            Node::Number(s) => Some(copy_chars(s)),
            Node::Text(s) => Some(copy_chars(s)),
            Node::OtherScalar(s) => Some(copy_chars(s)),
            _ => None,
        }
    }
}

/// The scalar form of a node: its category together with its canonical text,
/// which is what the optional equality and hashing operations of a scalar
/// shape read.  Composite shapes have no scalar form.
pub open spec fn scalar_form(ns: Seq<NodeRec>, i: int) -> Option<(Category, Seq<char>)> {
    if !(0 <= i < ns.len()) {
        None
    } else {
        match ns[i].node {
            Node::Boolean(b) => Some((Category::Boolean, if b { "true"@ } else { "false"@ })),
            Node::Number(s) => Some((Category::Number, s@)),
            Node::EmptyScalar => Some((Category::EmptyScalar, Seq::empty())),
            Node::Text(s) => Some((Category::Text, s@)),
            Node::OtherScalar(s) => Some((Category::OtherScalar, s@)),
            _ => None,
        }
    }
}

/// The words a scalar value feeds into a hasher: a category tag, the text
/// length, and the text's code points.
pub open spec fn scalar_hash_words(cat: Category, text: Seq<char>) -> Seq<u64> {
    seq![cat_tag(cat), text.len() as u64] + text.map_values(|c: char| c as u64)
}

/// A distinct tag for each scalar category.
pub open spec fn cat_tag(cat: Category) -> u64 {
    match cat {
        Category::Boolean => 1u64,
        Category::Number => 2u64,
        Category::EmptyScalar => 3u64,
        Category::Text => 4u64,
        Category::OtherScalar => 5u64,
        _ => 0u64,
    }
}

fn eq_chars(a: &Vec<char>, b: &Vec<char>) -> (r: bool)
    ensures
        r == (a@ == b@),
{
    if a.len() != b.len() {
        return false;
    }
    let n = a.len();
    let mut i: usize = 0;
    while i < n
        invariant
            n == a@.len(),
            n == b@.len(),
            i <= n,
            forall|k: int| 0 <= k < i ==> a@[k] == b@[k],
        decreases n - i,
    {
        if a[i] != b[i] {
            return false;
        }
        i = i + 1;
    }
    assert(a@ =~= b@);
    true
}

impl Peek {
    /// The scalar form of the viewed value, when its shape is a scalar.
    fn scalar_text(&self, t: &ValueTree) -> (r: Option<(Category, Vec<char>)>)
        requires
            self.idx < t.nodes@.len(),
        ensures
            match r {
                Some(p) => scalar_form(t.nodes@, self.idx as int) == Some((p.0, p.1@)),
                None => scalar_form(t.nodes@, self.idx as int) is None,
            },
    {
        match &t.nodes[self.idx].node {
            Node::Boolean(b) => {
                let mut v: Vec<char> = Vec::new();
                if *b {
                    crate::text::write_true(&mut v);
                } else {
                    crate::text::write_false(&mut v);
                }
                proof {
                    assert(v@ =~= if *b { "true"@ } else { "false"@ });
                }
                Some((Category::Boolean, v))
            },
            Node::Number(s) => Some((Category::Number, copy_chars(s))),
            Node::EmptyScalar => {
                let v: Vec<char> = Vec::new();
                proof {
                    assert(v@ =~= Seq::<char>::empty());
                }
                Some((Category::EmptyScalar, v))
            },
            Node::Text(s) => Some((Category::Text, copy_chars(s))),
            Node::OtherScalar(s) => Some((Category::OtherScalar, copy_chars(s))),
            _ => None,
        }
    }

    /// Whether this value equals another, by the shape's optional equality
    /// operation; in this model that operation exists on scalar shapes whose
    /// table carries it, and compares the scalar's category and text.
    ///
    /// Returns `None` when equality comparison is not supported here.
    pub fn eq(&self, other: &Peek, t: &ValueTree) -> (r: Option<bool>)
        requires
            self.idx < t.nodes@.len(),
            other.idx < t.nodes@.len(),
        ensures
            match r {
                Some(b) => t.nodes@[self.idx as int].caps.eq && scalar_form(
                    t.nodes@,
                    self.idx as int,
                ) is Some && scalar_form(t.nodes@, other.idx as int) is Some && (b
                    <==> scalar_form(t.nodes@, self.idx as int) == scalar_form(
                    t.nodes@,
                    other.idx as int,
                )),
                None => !t.nodes@[self.idx as int].caps.eq || scalar_form(
                    t.nodes@,
                    self.idx as int,
                ) is None || scalar_form(t.nodes@, other.idx as int) is None,
            },
    {
        if !t.nodes[self.idx].caps.eq {
            return None;
        }
        let sa = self.scalar_text(t);
        let sb = other.scalar_text(t);
        match (sa, sb) {
            (Some((ca, xa)), Some((cb, xb))) => Some(ca == cb && eq_chars(&xa, &xb)),
            _ => None,
        }
    }

    /// Feeds this value into a hasher, by the shape's optional hashing
    /// operation; in this model that operation exists on scalar shapes whose
    /// table carries it, and hashes the scalar's category and text.
    ///
    /// Returns `false` when hashing is not supported here, `true` otherwise.
    pub fn hash_into(&self, t: &ValueTree, hasher: &mut Vec<u64>) -> (r: bool)
        requires
            self.idx < t.nodes@.len(),
        ensures
            r == (t.nodes@[self.idx as int].caps.hash && scalar_form(
                t.nodes@,
                self.idx as int,
            ) is Some),
            r ==> final(hasher)@ == old(hasher)@ + scalar_hash_words(
                scalar_form(t.nodes@, self.idx as int).unwrap().0,
                scalar_form(t.nodes@, self.idx as int).unwrap().1,
            ),
            !r ==> final(hasher)@ == old(hasher)@,
    {
        if !t.nodes[self.idx].caps.hash {
            return false;
        }
        match self.scalar_text(t) {
            None => false,
            Some((cat, text)) => {
                let tag: u64 = match cat {
                    Category::Boolean => 1,
                    Category::Number => 2,
                    Category::EmptyScalar => 3,
                    Category::Text => 4,
                    Category::OtherScalar => 5,
                    _ => 0,
                };
                hasher.push(tag);
                hasher.push(text.len() as u64);
                let ghost start = hasher@;
                let n = text.len();
                let mut i: usize = 0;
                while i < n
                    invariant
                        n == text@.len(),
                        i <= n,
                        hasher@ == start + text@.map_values(|c: char| c as u64).take(i as int),
                    decreases n - i,
                {
                    hasher.push(text[i] as u64);
                    proof {
                        let words = text@.map_values(|c: char| c as u64);
                        assert(words.take(i + 1) =~= words.take(i as int).push(words[i as int]));
                        assert(hasher@ =~= start + words.take(i + 1));
                    }
                    i = i + 1;
                }
                proof {
                    let words = text@.map_values(|c: char| c as u64);
                    assert(words.take(n as int) =~= words);
                    assert(hasher@ =~= old(hasher)@ + scalar_hash_words(cat, text@));
                }
                true
            },
        }
    }
}

/// The result of the optional ordering operation.
#[derive(Clone, Copy, PartialEq, Eq, Structural, Debug)]
pub enum ValueOrder {
    Less,
    Equal,
    Greater,
}

/// Lexicographic order on text, by code point.
pub open spec fn lex_cmp(a: Seq<char>, b: Seq<char>) -> ValueOrder
    decreases a.len(),
{
    if a.len() == 0 && b.len() == 0 {
        ValueOrder::Equal
    } else if a.len() == 0 {
        ValueOrder::Less
    } else if b.len() == 0 {
        ValueOrder::Greater
    } else if (a[0] as u32) < (b[0] as u32) {
        ValueOrder::Less
    } else if (a[0] as u32) > (b[0] as u32) {
        ValueOrder::Greater
    } else {
        lex_cmp(a.drop_first(), b.drop_first())
    }
}

/// The order of two scalar forms: by category tag first, then by text.
pub open spec fn scalar_cmp(a: (Category, Seq<char>), b: (Category, Seq<char>)) -> ValueOrder {
    if cat_tag(a.0) < cat_tag(b.0) {
        ValueOrder::Less
    } else if cat_tag(a.0) > cat_tag(b.0) {
        ValueOrder::Greater
    } else {
        lex_cmp(a.1, b.1)
    }
}

fn lex_cmp_chars(a: &Vec<char>, b: &Vec<char>) -> (r: ValueOrder)
    ensures
        r == lex_cmp(a@, b@),
{
    let an = a.len();
    let bn = b.len();
    let mut i: usize = 0;
    proof {
        assert(a@.skip(0int) =~= a@);
        assert(b@.skip(0int) =~= b@);
    }
    loop
        invariant
            an == a@.len(),
            bn == b@.len(),
            i <= an,
            i <= bn,
            lex_cmp(a@, b@) == lex_cmp(a@.skip(i as int), b@.skip(i as int)),
        decreases an - i,
    {
        if i == an || i == bn {
            if an == bn {
                return ValueOrder::Equal;
            } else if an < bn {
                assert(a@.skip(i as int).len() == 0);
                return ValueOrder::Less;
            } else {
                assert(b@.skip(i as int).len() == 0);
                return ValueOrder::Greater;
            }
        }
        let ca = a[i] as u32;
        let cb = b[i] as u32;
        proof {
            assert(a@.skip(i as int)[0] == a@[i as int]);
            assert(b@.skip(i as int)[0] == b@[i as int]);
        }
        if ca < cb {
            return ValueOrder::Less;
        }
        if ca > cb {
            return ValueOrder::Greater;
        }
        proof {
            assert(a@.skip(i as int).drop_first() =~= a@.skip(i + 1));
            assert(b@.skip(i as int).drop_first() =~= b@.skip(i + 1));
        }
        i = i + 1;
    }
}

impl Peek {
    /// Compares this value with another, by the shape's optional ordering
    /// operation; in this model that operation exists on scalar shapes whose
    /// table carries it, and orders by category tag, then text.
    ///
    /// Returns `None` when comparison is not supported here.
    pub fn partial_cmp(&self, other: &Peek, t: &ValueTree) -> (r: Option<ValueOrder>)
        requires
            self.idx < t.nodes@.len(),
            other.idx < t.nodes@.len(),
        ensures
            match r {
                Some(o) => t.nodes@[self.idx as int].caps.ord && scalar_form(
                    t.nodes@,
                    self.idx as int,
                ) is Some && scalar_form(t.nodes@, other.idx as int) is Some && o == scalar_cmp(
                    scalar_form(t.nodes@, self.idx as int).unwrap(),
                    scalar_form(t.nodes@, other.idx as int).unwrap(),
                ),
                None => !t.nodes@[self.idx as int].caps.ord || scalar_form(
                    t.nodes@,
                    self.idx as int,
                ) is None || scalar_form(t.nodes@, other.idx as int) is None,
            },
    {
        if !t.nodes[self.idx].caps.ord {
            return None;
        }
        let sa = self.scalar_text(t);
        let sb = other.scalar_text(t);
        match (sa, sb) {
            (Some((ca, xa)), Some((cb, xb))) => {
                let ta: u64 = match ca {
                    Category::Boolean => 1,
                    Category::Number => 2,
                    Category::EmptyScalar => 3,
                    Category::Text => 4,
                    Category::OtherScalar => 5,
                    _ => 0,
                };
                let tb: u64 = match cb {
                    Category::Boolean => 1,
                    Category::Number => 2,
                    Category::EmptyScalar => 3,
                    Category::Text => 4,
                    Category::OtherScalar => 5,
                    _ => 0,
                };
                if ta < tb {
                    Some(ValueOrder::Less)
                } else if ta > tb {
                    Some(ValueOrder::Greater)
                } else {
                    Some(lex_cmp_chars(&xa, &xb))
                }
            },
            _ => None,
        }
    }
}

} // verus!
