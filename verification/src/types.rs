//! Core data types: symbol ids, field paths, operation kinds and the flat
//! resolution request.

use vstd::prelude::*;

verus! {

/// A dense id handed out by the string interner. Equal ids stand for equal
/// strings; the id doubles as the string's position in the interner snapshot.
pub type SymbolId = u32;

/// The kind of a GraphQL operation, with mutations refined by the first root
/// field's name prefix.
#[derive(Debug, Clone, Copy, PartialEq, Eq, Structural)]
pub enum GraphQLOperationKind {
    Query,
    InsertMutation,
    UpdateMutation,
    DeleteMutation,
    Subscription,
}

impl GraphQLOperationKind {
    /// The numeric operation type used in the `ops` array of a resolution
    /// request.
    pub open spec fn op_type_view(&self) -> u32 {
        match self {
            GraphQLOperationKind::Query => 0u32,
            GraphQLOperationKind::InsertMutation => 1u32,
            GraphQLOperationKind::UpdateMutation => 2u32,
            GraphQLOperationKind::DeleteMutation => 3u32,
            GraphQLOperationKind::Subscription => 4u32,
        }
    }

    /// The numeric operation type used in the `ops` array.
    pub fn op_type(&self) -> (r: u32)
        ensures
            r == self.op_type_view(),
    {
        match self {
            GraphQLOperationKind::Query => 0u32,
            GraphQLOperationKind::InsertMutation => 1u32,
            GraphQLOperationKind::UpdateMutation => 2u32,
            GraphQLOperationKind::DeleteMutation => 3u32,
            GraphQLOperationKind::Subscription => 4u32,
        }
    }
}

/// Copies a vector of symbol ids, element for element.
pub fn clone_ids(v: &Vec<u32>) -> (r: Vec<u32>)
    ensures
        r@ == v@,
{
    let r = v.clone();
    proof {
        assert(r@ =~= v@);
    }
    r
}

/// Copies a vector of id pairs, element for element.
pub fn clone_pairs(v: &Vec<(u32, u32)>) -> (r: Vec<(u32, u32)>)
    ensures
        r@ == v@,
{
    let n = v.len();
    let mut r: Vec<(u32, u32)> = Vec::new();
    let mut i: usize = 0;
    while i < n
        invariant
            n == v@.len(),
            i <= n,
            r@.len() == i,
            forall|j: int| 0 <= j < i ==> r@[j] == v@[j],
        decreases n - i,
    {
        r.push(v[i]);
        i = i + 1;
    }
    proof {
        assert(r@ =~= v@);
    }
    r
}

/// Copies a vector of field paths, element for element.
pub fn clone_paths(v: &Vec<FieldPath>) -> (r: Vec<FieldPath>)
    ensures
        r@.len() == v@.len(),
        forall|i: int| 0 <= i < v@.len() ==> (#[trigger] r@[i])@ == v@[i]@,
{
    let n = v.len();
    let mut r: Vec<FieldPath> = Vec::new();
    let mut i: usize = 0;
    while i < n
        invariant
            n == v@.len(),
            i <= n,
            r@.len() == i,
            forall|j: int| 0 <= j < i ==> (#[trigger] r@[j])@ == v@[j]@,
        decreases n - i,
    {
        r.push(v[i].duplicate());
        i = i + 1;
    }
    r
}

/// Copies a path index, element for element.
pub fn clone_path_index(v: &Vec<(FieldPath, usize)>) -> (r: Vec<(FieldPath, usize)>)
    ensures
        r@.len() == v@.len(),
        forall|i: int|
            0 <= i < v@.len() ==> (#[trigger] r@[i]).0@ == v@[i].0@ && r@[i].1 == v@[i].1,
{
    let n = v.len();
    let mut r: Vec<(FieldPath, usize)> = Vec::new();
    let mut i: usize = 0;
    while i < n
        invariant
            n == v@.len(),
            i <= n,
            r@.len() == i,
            forall|j: int|
                0 <= j < i ==> (#[trigger] r@[j]).0@ == v@[j].0@ && r@[j].1 == v@[j].1,
        decreases n - i,
    {
        let e = &v[i];
        r.push((e.0.duplicate(), e.1));
        i = i + 1;
    }
    r
}

/// An ordered sequence of symbol ids naming one navigational position in a
/// query: a root table, or a relationship below one.
#[derive(Debug, Clone)]
pub struct FieldPath {
    ids: Vec<SymbolId>,
}

impl View for FieldPath {
    type V = Seq<u32>;

    closed spec fn view(&self) -> Seq<u32> {
        self.ids@
    }
}

impl FieldPath {
    /// Creates an empty path.
    pub fn new() -> (r: FieldPath)
        ensures
            r@ == Seq::<u32>::empty(),
    {
        FieldPath { ids: Vec::new() }
    }

    /// Appends a segment.
    pub fn push(&mut self, symbol_id: SymbolId)
        ensures
            final(self)@ == old(self)@.push(symbol_id),
    {
        self.ids.push(symbol_id);
    }

    /// Removes and returns the last segment, if any.
    pub fn pop(&mut self) -> (r: Option<SymbolId>)
        ensures
            old(self)@.len() == 0 ==> final(self)@ == old(self)@ && r is None,
            old(self)@.len() > 0 ==> final(self)@ == old(self)@.drop_last() && r == Some(
                old(self)@.last(),
            ),
    {
        self.ids.pop()
    }

    /// The number of segments.
    pub fn len(&self) -> (r: usize)
        ensures
            r == self@.len(),
    {
        self.ids.len()
    }

    /// Whether the path has no segments.
    pub fn is_empty(&self) -> (r: bool)
        ensures
            r == (self@.len() == 0),
    {
        self.ids.len() == 0
    }

    /// The segment at position `i`.
    pub fn index(&self, i: usize) -> (r: SymbolId)
        requires
            i < self@.len(),
        ensures
            r == self@[i as int],
    {
        self.ids[i]
    }

    /// A copy of this path with one more segment appended.
    pub fn with_field(&self, symbol_id: SymbolId) -> (r: FieldPath)
        ensures
            r@ == self@.push(symbol_id),
    {
        let mut new_path = FieldPath { ids: clone_ids(&self.ids) };
        new_path.push(symbol_id);
        new_path
    }

    /// Removes all segments.
    pub fn clear(&mut self)
        ensures
            final(self)@ == Seq::<u32>::empty(),
    {
        self.ids.clear();
    }

    /// The segments as a plain vector.
    pub fn to_vec(&self) -> (r: Vec<SymbolId>)
        ensures
            r@ == self@,
    {
        clone_ids(&self.ids)
    }

    /// A copy of this path.
    pub fn duplicate(&self) -> (r: FieldPath)
        ensures
            r@ == self@,
    {
        FieldPath { ids: clone_ids(&self.ids) }
    }

    /// A copy of this path without its last segment: the enclosing table
    /// path of a column position.
    pub fn parent(&self) -> (r: FieldPath)
        requires
            self@.len() > 0,
        ensures
            r@ == self@.drop_last(),
    {
        let mut p = FieldPath { ids: clone_ids(&self.ids) };
        p.pop();
        p
    }

    /// Whether this path holds the same segments as `other`.
    pub fn same_as(&self, other: &FieldPath) -> (r: bool)
        ensures
            r == (self@ == other@),
    {
        let r = self.ids == other.ids;
        proof {
            if r {
                assert(self@ =~= other@);
            } else {
                assert(self@ != other@);
            }
        }
        r
    }
}

/// The flat numeric packet describing what the schema resolver must map: the
/// string table, the encoded paths with their directory and types, the column
/// usage per root table, and one entry per root selection with its operation
/// type.
#[derive(Debug, Clone)]
pub struct ResolutionRequest {
    /// Fingerprint of the query text, as lowercase hexadecimal.
    pub query_id: String,
    /// The string table; every index below refers to a position here.
    pub strings: Vec<String>,
    /// Concatenated `(len, idx...)` blocks, one per discovered path.
    pub paths: Vec<u32>,
    /// For each path id, the starting offset of its block in `paths`.
    pub path_dir: Vec<u32>,
    /// For each path id, `0` for a root table (length 1), else `1`.
    pub path_types: Vec<u32>,
    /// For each root table with observed columns, its string-table index and
    /// the indices of its columns.
    pub cols: Vec<(u32, Vec<u32>)>,
    /// For each root selection of each operation, the field's string-table
    /// index and the numeric operation type.
    pub ops: Vec<(u32, u32)>,
}

/// The mathematical content of a resolution request: every array as a
/// sequence, strings as character sequences.
pub ghost struct ReqV {
    pub query_id: Seq<char>,
    pub strings: Seq<Seq<char>>,
    pub paths: Seq<u32>,
    pub path_dir: Seq<u32>,
    pub path_types: Seq<u32>,
    pub cols: Seq<(u32, Seq<u32>)>,
    pub ops: Seq<(u32, u32)>,
}

impl View for ResolutionRequest {
    type V = ReqV;

    open spec fn view(&self) -> ReqV {
        ReqV {
            query_id: self.query_id@,
            strings: self.strings@.map_values(|s: String| s@),
            paths: self.paths@,
            path_dir: self.path_dir@,
            path_types: self.path_types@,
            cols: self.cols@.map_values(|e: (u32, Vec<u32>)| (e.0, e.1@)),
            ops: self.ops@,
        }
    }
}

/// Copies a vector of strings, element for element.
pub fn clone_strings(v: &Vec<String>) -> (r: Vec<String>)
    ensures
        r@.len() == v@.len(),
        forall|i: int| 0 <= i < v@.len() ==> r@[i] == v@[i],
{
    let n = v.len();
    let mut r: Vec<String> = Vec::new();
    let mut i: usize = 0;
    while i < n
        invariant
            n == v@.len(),
            i <= n,
            r@.len() == i,
            forall|j: int| 0 <= j < i ==> r@[j] == v@[j],
        decreases n - i,
    {
        r.push(v[i].clone());
        i = i + 1;
    }
    r
}

impl ResolutionRequest {
    /// A copy of this request, field for field.
    pub fn duplicate(&self) -> (r: ResolutionRequest)
        ensures
            r@ == self@,
    {
        let mut cols: Vec<(u32, Vec<u32>)> = Vec::new();
        let n = self.cols.len();
        let mut i: usize = 0;
        while i < n
            invariant
                n == self.cols@.len(),
                i <= n,
                cols@.len() == i,
                forall|j: int|
                    0 <= j < i ==> cols@[j].0 == self.cols@[j].0 && cols@[j].1@ == self.cols@[j].1@,
            decreases n - i,
        {
            let e = &self.cols[i];
            cols.push((e.0, clone_ids(&e.1)));
            i = i + 1;
        }
        let r = ResolutionRequest {
            query_id: self.query_id.clone(),
            strings: clone_strings(&self.strings),
            paths: clone_ids(&self.paths),
            path_dir: clone_ids(&self.path_dir),
            path_types: clone_ids(&self.path_types),
            cols,
            ops: clone_pairs(&self.ops),
        };
        proof {
            assert(r@.strings =~= self@.strings);
            assert(r@.cols =~= self@.cols);
            assert(r@ == self@);
        }
        r
    }

    /// Creates an empty resolution request.
    pub fn new() -> (r: ResolutionRequest)
        ensures
            r.query_id@ == Seq::<char>::empty(),
            r.strings@ == Seq::<String>::empty(),
            r.paths@ == Seq::<u32>::empty(),
            r.path_dir@ == Seq::<u32>::empty(),
            r.path_types@ == Seq::<u32>::empty(),
            r.cols@ == Seq::<(u32, Vec<u32>)>::empty(),
            r.ops@ == Seq::<(u32, u32)>::empty(),
    {
        ResolutionRequest {
            query_id: String::new(),
            strings: Vec::new(),
            paths: Vec::new(),
            path_dir: Vec::new(),
            path_types: Vec::new(),
            cols: Vec::new(),
            ops: Vec::new(),
        }
    }
}

} // verus!
