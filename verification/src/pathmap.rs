//! Deduplicating containers keyed by field paths: the set of discovered
//! table/relationship paths, and the column-usage map from table path to the
//! set of observed column symbols.
//!
//! Both keep insertion order, so a run of the extractor is deterministic; the
//! spec-level views are sequences, with the path sequence free of duplicates
//! and each column list free of duplicates.

use vstd::prelude::*;
use crate::types::FieldPath;

verus! {

/// The sequence after inserting `p` if absent: unchanged when present.
pub open spec fn sp_insert_path(paths: Seq<Seq<u32>>, p: Seq<u32>) -> Seq<Seq<u32>> {
    if paths.contains(p) {
        paths
    } else {
        paths.push(p)
    }
}

/// The position of the entry for table `t`; meaningful only when present.
pub open spec fn sp_col_idx(cols: Seq<(Seq<u32>, Seq<u32>)>, t: Seq<u32>) -> int {
    choose|i: int| 0 <= i < cols.len() && cols[i].0 == t
}

/// Whether `cols` holds an entry for table `t`.
pub open spec fn sp_has_col_entry(cols: Seq<(Seq<u32>, Seq<u32>)>, t: Seq<u32>) -> bool {
    exists|i: int| 0 <= i < cols.len() && cols[i].0 == t
}

/// The column entries after recording column `c` under table `t`: a fresh
/// entry when `t` is new, an appended column when `c` is new for `t`, and no
/// change when the pair was seen before.
pub open spec fn sp_add_col(cols: Seq<(Seq<u32>, Seq<u32>)>, t: Seq<u32>, c: u32) -> Seq<
    (Seq<u32>, Seq<u32>),
> {
    if sp_has_col_entry(cols, t) {
        let i = sp_col_idx(cols, t);
        if cols[i].1.contains(c) {
            cols
        } else {
            cols.update(i, (t, cols[i].1.push(c)))
        }
    } else {
        cols.push((t, seq![c]))
    }
}

/// Whether `v` holds the value `c`.
pub fn vec_contains_u32(v: &Vec<u32>, c: u32) -> (r: bool)
    ensures
        r == v@.contains(c),
{
    let n = v.len();
    let mut i: usize = 0;
    while i < n
        invariant
            n == v@.len(),
            i <= n,
            forall|j: int| 0 <= j < i ==> v@[j] != c,
        decreases n - i,
    {
        if v[i] == c {
            return true;
        }
        i = i + 1;
    }
    proof {
        if v@.contains(c) {
            let k = choose|k: int| 0 <= k < v@.len() && v@[k] == c;
            assert(v@[k] != c);
        }
    }
    false
}

/// A set of field paths in first-insertion order, without duplicates.
#[derive(Debug)]
pub struct PathSet {
    items: Vec<FieldPath>,
}

impl View for PathSet {
    type V = Seq<Seq<u32>>;

    closed spec fn view(&self) -> Seq<Seq<u32>> {
        self.items@.map_values(|p: FieldPath| p@)
    }
}

impl PathSet {
    /// No path occurs twice.
    pub open spec fn wf(&self) -> bool {
        forall|i: int, j: int| 0 <= i < j < self@.len() ==> self@[i] != self@[j]
    }

    /// Creates an empty set.
    pub fn new() -> (r: PathSet)
        ensures
            r@ == Seq::<Seq<u32>>::empty(),
            r.wf(),
    {
        let r = PathSet { items: Vec::new() };
        proof {
            assert(r@ =~= Seq::<Seq<u32>>::empty());
        }
        r
    }

    /// The number of distinct paths.
    pub fn len(&self) -> (r: usize)
        ensures
            r == self@.len(),
    {
        self.items.len()
    }

    /// The path at position `i`, in first-insertion order.
    pub fn get(&self, i: usize) -> (r: &FieldPath)
        requires
            i < self@.len(),
        ensures
            r@ == self@[i as int],
    {
        &self.items[i]
    }

    /// Whether the set holds a path with these segments.
    pub fn contains(&self, p: &FieldPath) -> (r: bool)
        ensures
            r == self@.contains(p@),
    {
        let n = self.items.len();
        let mut i: usize = 0;
        while i < n
            invariant
                n == self@.len(),
                i <= n,
                forall|j: int| 0 <= j < i ==> self@[j] != p@,
            decreases n - i,
        {
            if self.items[i].same_as(p) {
                proof {
                    assert(self@[i as int] == p@);
                }
                return true;
            }
            i = i + 1;
        }
        proof {
            if self@.contains(p@) {
                let k = choose|k: int| 0 <= k < self@.len() && self@[k] == p@;
                assert(self@[k] != p@);
            }
        }
        false
    }

    /// Inserts a copy of `p` if no path with these segments is present.
    pub fn insert(&mut self, p: &FieldPath)
        requires
            old(self).wf(),
        ensures
            final(self).wf(),
            final(self)@ == sp_insert_path(old(self)@, p@),
    {
        if !self.contains(p) {
            self.items.push(p.duplicate());
            proof {
                assert(final(self)@ =~= old(self)@.push(p@));
                let fv = final(self)@;
                assert forall|i: int, j: int| 0 <= i < j < fv.len() implies fv[i] != fv[j] by {
                    if j == fv.len() - 1 {
                        if fv[i] == p@ {
                            assert(old(self)@.contains(p@));
                        }
                    }
                }
            }
        }
    }
}

/// A map from table path to the columns observed under it, in first-insertion
/// order on both levels.
#[derive(Debug)]
pub struct ColumnMap {
    entries: Vec<(FieldPath, Vec<u32>)>,
}

impl View for ColumnMap {
    type V = Seq<(Seq<u32>, Seq<u32>)>;

    closed spec fn view(&self) -> Seq<(Seq<u32>, Seq<u32>)> {
        self.entries@.map_values(|e: (FieldPath, Vec<u32>)| (e.0@, e.1@))
    }
}

impl ColumnMap {
    /// Keys are distinct and no column list repeats a column.
    pub open spec fn wf(&self) -> bool {
        &&& forall|i: int, j: int| 0 <= i < j < self@.len() ==> self@[i].0 != self@[j].0
        &&& forall|i: int, a: int, b: int|
            0 <= i < self@.len() && 0 <= a < b < self@[i].1.len() ==> #[trigger] self@[i].1[a]
                != #[trigger] self@[i].1[b]
    }

    /// Creates an empty map.
    pub fn new() -> (r: ColumnMap)
        ensures
            r@ == Seq::<(Seq<u32>, Seq<u32>)>::empty(),
            r.wf(),
    {
        let r = ColumnMap { entries: Vec::new() };
        proof {
            assert(r@ =~= Seq::<(Seq<u32>, Seq<u32>)>::empty());
        }
        r
    }

    /// The number of tables with observed columns.
    pub fn len(&self) -> (r: usize)
        ensures
            r == self@.len(),
    {
        self.entries.len()
    }

    /// The entry at position `i`: its table path and its columns.
    pub fn get(&self, i: usize) -> (r: (&FieldPath, &Vec<u32>))
        requires
            i < self@.len(),
        ensures
            r.0@ == self@[i as int].0,
            r.1@ == self@[i as int].1,
    {
        let e = &self.entries[i];
        (&e.0, &e.1)
    }

    /// The position of the entry for `t`, if any.
    pub fn find(&self, t: &FieldPath) -> (r: Option<usize>)
        requires
            self.wf(),
        ensures
            match r {
                Some(i) => i < self@.len() && self@[i as int].0 == t@ && i == sp_col_idx(
                    self@,
                    t@,
                ),
                None => !sp_has_col_entry(self@, t@),
            },
    {
        let n = self.entries.len();
        let mut i: usize = 0;
        while i < n
            invariant
                self.wf(),
                n == self@.len(),
                i <= n,
                forall|j: int| 0 <= j < i ==> self@[j].0 != t@,
            decreases n - i,
        {
            if self.entries[i].0.same_as(t) {
                proof {
                    assert(self@[i as int].0 == t@);
                    let k = sp_col_idx(self@, t@);
                    assert(0 <= k < self@.len() && self@[k].0 == t@);
                    assert(k == i as int);
                }
                return Some(i);
            }
            i = i + 1;
        }
        proof {
            if sp_has_col_entry(self@, t@) {
                let k = choose|k: int| 0 <= k < self@.len() && self@[k].0 == t@;
                assert(self@[k].0 != t@);
            }
        }
        None
    }

    /// A copy of this map, entry for entry.
    pub fn duplicate(&self) -> (r: ColumnMap)
        ensures
            r@ == self@,
    {
        let n = self.entries.len();
        let mut out: Vec<(FieldPath, Vec<u32>)> = Vec::new();
        let mut i: usize = 0;
        while i < n
            invariant
                n == self.entries@.len(),
                i <= n,
                out@.len() == i,
                forall|j: int|
                    0 <= j < i ==> (#[trigger] out@[j]).0@ == self.entries@[j].0@ && out@[j].1@
                        == self.entries@[j].1@,
            decreases n - i,
        {
            let e = &self.entries[i];
            out.push((e.0.duplicate(), crate::types::clone_ids(&e.1)));
            i = i + 1;
        }
        let r = ColumnMap { entries: out };
        proof {
            assert(r@ =~= self@);
        }
        r
    }

    /// Records column `c` under table `t`.
    pub fn add_column(&mut self, t: &FieldPath, c: u32)
        requires
            old(self).wf(),
        ensures
            final(self).wf(),
            final(self)@ == sp_add_col(old(self)@, t@, c),
    {
        match self.find(t) {
            Some(i) => {
                let found = vec_contains_u32(&self.entries[i].1, c);
                if !found {
                    let mut pair = self.entries.remove(i);
                    pair.1.push(c);
                    self.entries.insert(i, pair);
                    proof {
                        assert(final(self)@ =~= old(self)@.update(
                            i as int,
                            (t@, old(self)@[i as int].1.push(c)),
                        ));
                        assert(final(self)@ =~= sp_add_col(old(self)@, t@, c));
                    }
                } else {
                    proof {
                        assert(final(self)@ =~= sp_add_col(old(self)@, t@, c));
                    }
                }
            },
            None => {
                let mut cols: Vec<u32> = Vec::new();
                cols.push(c);
                self.entries.push((t.duplicate(), cols));
                proof {
                    assert(cols@ =~= seq![c]);
                    assert(final(self)@ =~= old(self)@.push((t@, seq![c])));
                    let fv = final(self)@;
                    assert forall|a: int, b: int| 0 <= a < b < fv.len() implies fv[a].0
                        != fv[b].0 by {
                        if b == fv.len() - 1 {
                            if fv[a].0 == t@ {
                                assert(sp_has_col_entry(old(self)@, t@));
                            }
                        }
                    }
                }
            },
        }
    }
}

} // verus!
