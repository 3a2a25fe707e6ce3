//! The value model: a shape-described value is held as a tree of nodes in a
//! growable arena.  Every child link points at a strictly smaller index, so a
//! well-formed tree is acyclic and every walk terminates.

use vstd::prelude::*;

verus! {

/// How a struct (or tuple struct, or unit struct) is laid out.
#[derive(Clone, Copy, PartialEq, Eq, Structural, Debug)]
pub enum StructKind {
    Unit,
    TupleStruct,
    Struct,
}

/// The layout of the active variant of an enum value.
#[derive(Clone, Copy, PartialEq, Eq, Structural, Debug)]
pub enum VariantKind {
    Unit,
    Tuple,
    Struct,
}

/// Which list-like category a sequence node belongs to.
#[derive(Clone, Copy, PartialEq, Eq, Structural, Debug)]
pub enum SeqKind {
    List,
    Array,
    Slice,
}

/// One declared field of a struct or of an enum variant: its name, the index
/// of the child node holding its value, and whether it takes part in
/// serialization.
pub struct FieldDesc {
    pub name: Vec<char>,
    pub child: usize,
    pub emit: bool,
}

/// One key/value pair of a map node; both sides are child cursors.
#[derive(Clone, Copy)]
pub struct MapEntry {
    pub key: usize,
    pub val: usize,
}

/// The optional operation table attached to a node's shape: each capability
/// is independently present or absent.
#[derive(Clone, Copy, PartialEq, Eq, Structural, Debug)]
pub struct Caps {
    pub eq: bool,
    pub ord: bool,
    pub hash: bool,
}

impl Caps {
    /// A shape with no optional operations at all.
    pub fn none() -> (c: Caps)
        ensures
            !c.eq && !c.ord && !c.hash,
    {
        Caps { eq: false, ord: false, hash: false }
    }
}

/// One node of the value tree: the category of its shape together with the
/// data the serializer reads from a value of that shape.
pub enum Node {
    /// A scalar with boolean affinity.
    Boolean(bool),
    /// A scalar with number affinity; the payload is its canonical numeric
    /// text token, as the shape's display operation renders it.
    Number(Vec<char>),
    /// A scalar with empty affinity; serialized as `null`.
    EmptyScalar,
    /// A string-like scalar; `as_str` succeeds on it.
    Text(Vec<char>),
    /// Any other scalar; the payload is its display text, which is emitted
    /// as a JSON-escaped string.
    OtherScalar(Vec<char>),
    /// A struct; `transparent` marks the attribute that makes it serialize
    /// as its first field alone.
    Struct { kind: StructKind, transparent: bool, fields: Vec<FieldDesc> },
    /// An enum value: only the active variant is valid memory, so only that
    /// variant's name, kind and fields are held.
    Enum { variant: Vec<char>, kind: VariantKind, fields: Vec<FieldDesc> },
    /// A tuple.
    Tuple { items: Vec<usize> },
    /// A list, array or slice.
    Sequence { kind: SeqKind, items: Vec<usize> },
    /// A map in iteration order.
    Mapping { entries: Vec<MapEntry> },
    /// An option value: either absent or a child cursor.
    Optional { value: Option<usize> },
    /// A reference or smart-pointer layer.  `borrow_ok` records whether the
    /// shape's borrow-inner operation succeeds on this value.
    Pointer { inner: usize, borrow_ok: bool },
    /// A shape category with no defined JSON encoding.
    Unsupported,
}

/// A node together with its shape's optional operation table.
pub struct NodeRec {
    pub node: Node,
    pub caps: Caps,
}

/// The category tag of a node's shape, used to dispatch navigation.
#[derive(Clone, Copy, PartialEq, Eq, Structural, Debug)]
pub enum Category {
    Boolean,
    Number,
    EmptyScalar,
    Text,
    OtherScalar,
    Struct,
    Enum,
    Tuple,
    List,
    Array,
    Slice,
    Mapping,
    Optional,
    SmartPointer,
    Unsupported,
}

/// What a failed navigation request expected to find.
#[derive(Clone, Copy, PartialEq, Eq, Structural, Debug)]
pub enum Expected {
    Struct,
    Enum,
    Mapping,
    List,
    ListLike,
    Tuple,
    Optional,
    SmartPointer,
}

/// The error taxonomy of navigation, unwrapping and serialization.
#[derive(Clone, Copy, PartialEq, Eq, Structural, Debug)]
pub enum ReflectError {
    /// Navigation requested a category the shape does not have.
    WasNotA { expected: Expected },
    /// Typed extraction requested against a mismatched shape.
    WrongShape { expected: Category, actual: Category },
    /// Unwrapping a wrapper layer failed (for example an exclusive-access
    /// conflict in the borrow-inner operation).
    BorrowFailed,
    /// An internal contract assumed by the engine was false, such as a
    /// transparent attribute on a fieldless struct.
    InvariantViolation,
    /// Classification reached a shape with no defined JSON encoding.
    NoSerializationMapping,
}

/// The value tree: node `i`'s children all live at indices below `i`, so the
/// root of a whole tree is its last node.
pub struct ValueTree {
    pub nodes: Vec<NodeRec>,
}

/// The category of a single node.
pub open spec fn spec_category(n: Node) -> Category {
    match n {
        Node::Boolean(..) => Category::Boolean,
        Node::Number(..) => Category::Number,
        Node::EmptyScalar => Category::EmptyScalar,
        Node::Text(..) => Category::Text,
        Node::OtherScalar(..) => Category::OtherScalar,
        Node::Struct { .. } => Category::Struct,
        Node::Enum { .. } => Category::Enum,
        Node::Tuple { .. } => Category::Tuple,
        Node::Sequence { kind, .. } => match kind {
            SeqKind::List => Category::List,
            SeqKind::Array => Category::Array,
            SeqKind::Slice => Category::Slice,
        },
        Node::Mapping { .. } => Category::Mapping,
        Node::Optional { .. } => Category::Optional,
        Node::Pointer { .. } => Category::SmartPointer,
        Node::Unsupported => Category::Unsupported,
    }
}

/// All indices of a sequence lie below the bound `b`.
pub open spec fn all_below(items: Seq<usize>, b: int) -> bool {
    forall|k: int| 0 <= k < items.len() ==> (#[trigger] items[k]) < b
}

/// All field children of a field list lie below the bound `b`.
pub open spec fn fields_below(fields: Seq<FieldDesc>, b: int) -> bool {
    forall|k: int| 0 <= k < fields.len() ==> (#[trigger] fields[k]).child < b
}

/// All keys and values of a map entry list lie below the bound `b`.
pub open spec fn entries_below(entries: Seq<MapEntry>, b: int) -> bool {
    forall|k: int| 0 <= k < entries.len()
        ==> (#[trigger] entries[k]).key < b && entries[k].val < b
}

/// Node `i` only points at strictly smaller indices.
pub open spec fn wf_node(ns: Seq<NodeRec>, i: int) -> bool {
    match ns[i].node {
        Node::Struct { fields, .. } => fields_below(fields@, i),
        Node::Enum { fields, .. } => fields_below(fields@, i),
        Node::Tuple { items } => all_below(items@, i),
        Node::Sequence { items, .. } => all_below(items@, i),
        Node::Mapping { entries } => entries_below(entries@, i),
        Node::Optional { value } => match value {
            Some(j) => j < i,
            None => true,
        },
        Node::Pointer { inner, .. } => inner < i,
        _ => true,
    }
}

/// Well-formedness of the whole tree: every node's children point strictly
/// downwards, which rules out cycles.
pub open spec fn wf(ns: Seq<NodeRec>) -> bool {
    forall|i: int| 0 <= i < ns.len() ==> #[trigger] wf_node(ns, i)
}

impl ValueTree {
    /// The number of nodes.
    pub fn len(&self) -> (n: usize)
        ensures
            n == self.nodes@.len(),
    {
        self.nodes.len()
    }

    /// Runtime check of the tree's well-formedness invariant, so unverified
    /// callers can establish it before serializing.
    pub fn well_formed(&self) -> (b: bool)
        ensures
            b == wf(self.nodes@),
    {
        let n = self.nodes.len();
        let mut i: usize = 0;
        while i < n
            invariant
                n == self.nodes@.len(),
                i <= n,
                forall|k: int| 0 <= k < i ==> #[trigger] wf_node(self.nodes@, k),
            decreases n - i,
        {
            if !node_wf_at(self, i) {
                assert(!wf(self.nodes@));
                return false;
            }
            i = i + 1;
        }
        true
    }
}

/// Runtime check that node `i` points only at smaller indices.
fn node_wf_at(t: &ValueTree, i: usize) -> (b: bool)
    requires
        i < t.nodes@.len(),
    ensures
        b == wf_node(t.nodes@, i as int),
{
    match &t.nodes[i].node {
        Node::Struct { fields, .. } => fields_wf_below(fields, i),
        Node::Enum { fields, .. } => fields_wf_below(fields, i),
        Node::Tuple { items } => items_wf_below(items, i),
        Node::Sequence { items, .. } => items_wf_below(items, i),
        Node::Mapping { entries } => entries_wf_below(entries, i),
        Node::Optional { value } => match value {
            Some(j) => *j < i,
            None => true,
        },
        Node::Pointer { inner, .. } => *inner < i,
        _ => true,
    }
}

fn items_wf_below(items: &Vec<usize>, b: usize) -> (r: bool)
    ensures
        r == all_below(items@, b as int),
{
    let n = items.len();
    let mut k: usize = 0;
    while k < n
        invariant
            n == items@.len(),
            k <= n,
            forall|j: int| 0 <= j < k ==> (#[trigger] items@[j]) < b,
        decreases n - k,
    {
        if items[k] >= b {
            return false;
        }
        k = k + 1;
    }
    true
}

fn entries_wf_below(entries: &Vec<MapEntry>, b: usize) -> (r: bool)
    ensures
        r == entries_below(entries@, b as int),
{
    let n = entries.len();
    let mut k: usize = 0;
    while k < n
        invariant
            n == entries@.len(),
            k <= n,
            forall|j: int| 0 <= j < k
                ==> (#[trigger] entries@[j]).key < b && entries@[j].val < b,
        decreases n - k,
    {
        if entries[k].key >= b || entries[k].val >= b {
            return false;
        }
        k = k + 1;
    }
    true
}

fn fields_wf_below(fields: &Vec<FieldDesc>, b: usize) -> (r: bool)
    ensures
        r == fields_below(fields@, b as int),
{
    let n = fields.len();
    let mut k: usize = 0;
    while k < n
        invariant
            n == fields@.len(),
            k <= n,
            forall|j: int| 0 <= j < k ==> (#[trigger] fields@[j]).child < b,
        decreases n - k,
    {
        if fields[k].child >= b {
            return false;
        }
        k = k + 1;
    }
    true
}

} // verus!
