//! The resolution-request encoder: sorts the discovered paths by
//! element-wise symbol order and packs paths, path directory, path types,
//! column usage and operation entries into flat numeric arrays.
//!
//! With the interner handing out dense ids, a symbol is its own
//! string-table index, so the symbol-to-index projection is the identity;
//! the encoder still checks every index against the string table and
//! reports a mismatch as `CorruptedState`.

use vstd::prelude::*;
use crate::ast::{GqlDefinition, GqlDocument, GqlOperationKind, GqlSelection};
use crate::classify::sp_mutation_kind;
use crate::config::Config;
use crate::error::Error;
use crate::interning::{sp_index_of, Interner};
use crate::pathmap::{ColumnMap, PathSet};
use crate::strutil::str_starts_with;
use crate::types::FieldPath;

verus! {

/// Strict lexicographic order on id sequences: the order in which paths are
/// encoded.
pub open spec fn sp_lex_lt(a: Seq<u32>, b: Seq<u32>) -> bool
    decreases a.len(),
{
    if a.len() == 0 {
        b.len() > 0
    } else if b.len() == 0 {
        false
    } else if a[0] < b[0] {
        true
    } else if a[0] > b[0] {
        false
    } else {
        sp_lex_lt(a.drop_first(), b.drop_first())
    }
}

/// The order is irreflexive.
pub proof fn lemma_lex_irrefl(a: Seq<u32>)
    ensures
        !sp_lex_lt(a, a),
    decreases a.len(),
{
    if a.len() > 0 {
        lemma_lex_irrefl(a.drop_first());
    }
}

/// Any two distinct sequences are ordered one way or the other.
pub proof fn lemma_lex_total(a: Seq<u32>, b: Seq<u32>)
    ensures
        a != b ==> sp_lex_lt(a, b) || sp_lex_lt(b, a),
    decreases a.len(),
{
    if a.len() == 0 || b.len() == 0 {
        if a.len() == 0 && b.len() == 0 {
            assert(a =~= b);
        }
    } else {
        if a[0] == b[0] {
            lemma_lex_total(a.drop_first(), b.drop_first());
            if a.drop_first() == b.drop_first() {
                assert(a.drop_first().len() == a.len() - 1);
                assert(b.drop_first().len() == b.len() - 1);
                assert forall|i: int| 0 <= i < a.len() implies a[i] == b[i] by {
                    if i > 0 {
                        assert(a[i] == a.drop_first()[i - 1]);
                        assert(b[i] == b.drop_first()[i - 1]);
                    }
                }
                assert(a =~= b);
            }
        }
    }
}

/// The order is transitive.
pub proof fn lemma_lex_trans(a: Seq<u32>, b: Seq<u32>, c: Seq<u32>)
    requires
        sp_lex_lt(a, b),
        sp_lex_lt(b, c),
    ensures
        sp_lex_lt(a, c),
    decreases a.len(),
{
    if a.len() == 0 {
    } else {
        if a[0] == b[0] && b[0] == c[0] {
            lemma_lex_trans(a.drop_first(), b.drop_first(), c.drop_first());
        }
    }
}

/// The id sequences of a path vector.
pub open spec fn sp_views(s: Seq<FieldPath>) -> Seq<Seq<u32>> {
    s.map_values(|p: FieldPath| p@)
}

/// Strictly sorted in lexicographic order.
pub open spec fn sp_strictly_sorted(s: Seq<Seq<u32>>) -> bool {
    forall|i: int, j: int| 0 <= i < j < s.len() ==> sp_lex_lt(s[i], s[j])
}

/// Two sequences holding the same members.
pub open spec fn sp_same_members(s: Seq<Seq<u32>>, t: Seq<Seq<u32>>) -> bool {
    forall|x: Seq<u32>| s.contains(x) <==> t.contains(x)
}

/// A strictly sorted arrangement of a set of paths is unique.
pub proof fn lemma_ssorted_unique(s: Seq<Seq<u32>>, t: Seq<Seq<u32>>)
    requires
        sp_strictly_sorted(s),
        sp_strictly_sorted(t),
        sp_same_members(s, t),
    ensures
        s == t,
    decreases s.len(),
{
    if s.len() == 0 {
        if t.len() > 0 {
            assert(t.contains(t[0]));
            assert(s.contains(t[0]));
        }
        assert(s =~= t);
    } else {
        assert(s.contains(s[0]));
        assert(t.contains(s[0]));
        let k = choose|k: int| 0 <= k < t.len() && t[k] == s[0];
        if k > 0 {
            assert(sp_lex_lt(t[0], t[k]));
            assert(s.contains(t[0]));
            let j = choose|j: int| 0 <= j < s.len() && s[j] == t[0];
            if j == 0 {
                lemma_lex_irrefl(s[0]);
            } else {
                assert(sp_lex_lt(s[0], s[j]));
                lemma_lex_trans(s[0], t[0], s[0]);
                lemma_lex_irrefl(s[0]);
            }
        }
        assert(t[0] == s[0]);
        let s2 = s.drop_first();
        let t2 = t.drop_first();
        assert forall|x: Seq<u32>| s2.contains(x) implies t2.contains(x) by {
            let j = choose|j: int| 0 <= j < s2.len() && s2[j] == x;
            assert(s[j + 1] == x);
            assert(s.contains(x));
            assert(t.contains(x));
            let k2 = choose|k2: int| 0 <= k2 < t.len() && t[k2] == x;
            if k2 == 0 {
                assert(sp_lex_lt(s[0], s[j + 1]));
                lemma_lex_irrefl(s[0]);
            }
            assert(t2[k2 - 1] == x);
            assert(t2.contains(x));
        }
        assert forall|x: Seq<u32>| t2.contains(x) implies s2.contains(x) by {
            let j = choose|j: int| 0 <= j < t2.len() && t2[j] == x;
            assert(t[j + 1] == x);
            assert(t.contains(x));
            assert(s.contains(x));
            let k2 = choose|k2: int| 0 <= k2 < s.len() && s[k2] == x;
            if k2 == 0 {
                assert(sp_lex_lt(t[0], t[j + 1]));
                lemma_lex_irrefl(t[0]);
            }
            assert(s2[k2 - 1] == x);
            assert(s2.contains(x));
        }
        assert forall|i: int, j: int| 0 <= i < j < s2.len() implies sp_lex_lt(s2[i], s2[j]) by {
            assert(s2[i] == s[i + 1]);
            assert(s2[j] == s[j + 1]);
        }
        assert forall|i: int, j: int| 0 <= i < j < t2.len() implies sp_lex_lt(t2[i], t2[j]) by {
            assert(t2[i] == t[i + 1]);
            assert(t2[j] == t[j + 1]);
        }
        lemma_ssorted_unique(s2, t2);
        assert forall|i: int| 0 <= i < s.len() implies s[i] == t[i] by {
            if i > 0 {
                assert(s[i] == s2[i - 1]);
                assert(t[i] == t2[i - 1]);
            }
        }
        assert(s =~= t);
    }
}

/// The unique strictly sorted arrangement of a path set.
pub open spec fn sp_sort(paths: Seq<Seq<u32>>) -> Seq<Seq<u32>> {
    choose|s: Seq<Seq<u32>>| sp_strictly_sorted(s) && sp_same_members(s, paths)
}

/// Compares two paths in lexicographic id order.
#[verifier::loop_isolation(false)]
pub fn lex_less(a: &FieldPath, b: &FieldPath) -> (r: bool)
    ensures
        r == sp_lex_lt(a@, b@),
{
    let alen = a.len();
    let blen = b.len();
    let n = if alen < blen {
        alen
    } else {
        blen
    };
    let mut i: usize = 0;
    proof {
        assert(a@.skip(0) =~= a@);
        assert(b@.skip(0) =~= b@);
    }
    while i < n
        invariant
            alen == a@.len(),
            blen == b@.len(),
            n == if alen < blen {
                alen
            } else {
                blen
            },
            i <= n,
            sp_lex_lt(a@, b@) == sp_lex_lt(a@.skip(i as int), b@.skip(i as int)),
        decreases n - i,
    {
        let x = a.index(i);
        let y = b.index(i);
        if x < y {
            proof {
                assert(a@.skip(i as int)[0] == a@[i as int]);
                assert(b@.skip(i as int)[0] == b@[i as int]);
            }
            return true;
        }
        if x > y {
            proof {
                assert(a@.skip(i as int)[0] == a@[i as int]);
                assert(b@.skip(i as int)[0] == b@[i as int]);
            }
            return false;
        }
        proof {
            assert(a@.skip(i as int)[0] == a@[i as int]);
            assert(b@.skip(i as int)[0] == b@[i as int]);
            assert(a@.skip(i as int).drop_first() =~= a@.skip(i as int + 1));
            assert(b@.skip(i as int).drop_first() =~= b@.skip(i as int + 1));
        }
        i = i + 1;
    }
    proof {
        assert(a@.skip(n as int).len() == alen - n);
        assert(b@.skip(n as int).len() == blen - n);
    }
    alen < blen
}

/// Sorts the discovered paths into the unique lexicographic order.
#[verifier::loop_isolation(false)]
pub fn sort_paths(ps: &PathSet) -> (r: Vec<FieldPath>)
    requires
        ps.wf(),
    ensures
        sp_views(r@) == sp_sort(ps@),
        sp_strictly_sorted(sp_views(r@)),
        sp_same_members(sp_views(r@), ps@),
        r@.len() == ps@.len(),
    {
    let n = ps.len();
    let mut out: Vec<FieldPath> = Vec::new();
    let mut k: usize = 0;
    while k < n
        invariant
            ps.wf(),
            n == ps@.len(),
            k <= n,
            out@.len() == k,
            sp_strictly_sorted(sp_views(out@)),
            forall|x: Seq<u32>|
                sp_views(out@).contains(x) <==> exists|m: int| 0 <= m < k && ps@[m] == x,
        decreases n - k,
    {
        let p = ps.get(k).duplicate();
        let onl = out.len();
        let mut j: usize = 0;
        while j < onl && lex_less(&out[j], &p)
            invariant
                onl == out@.len(),
                j <= onl,
                forall|m: int| 0 <= m < j ==> sp_lex_lt(out@[m]@, p@),
            decreases onl - j,
        {
            j = j + 1;
        }
        proof {
            // the new element is absent from `out`, so it is strictly
            // ordered against the element at the insertion point
            assert(!sp_views(out@).contains(p@)) by {
                if sp_views(out@).contains(p@) {
                    let m = choose|m: int| 0 <= m < k && ps@[m] == p@;
                    assert(ps@[m] == ps@[k as int]);
                }
            }
            if j < onl {
                assert(sp_views(out@)[j as int] == out@[j as int]@);
                assert(sp_views(out@).contains(sp_views(out@)[j as int]));
                lemma_lex_total(out@[j as int]@, p@);
                assert(sp_lex_lt(p@, out@[j as int]@));
            }
        }
        let ghost prevv = sp_views(out@);
        let ghost jj = j as int;
        let ghost pv = p@;
        out.insert(j, p);
        proof {
            let ov = sp_views(out@);
            assert(ov =~= prevv.insert(jj, pv));
            assert forall|a: int, b: int| 0 <= a < b < ov.len() implies sp_lex_lt(
                ov[a],
                ov[b],
            ) by {
                if b < jj {
                    assert(ov[a] == prevv[a] && ov[b] == prevv[b]);
                } else if a < jj && b == jj {
                    assert(ov[a] == prevv[a] && ov[b] == pv);
                } else if a < jj && b > jj {
                    assert(ov[a] == prevv[a] && ov[b] == prevv[b - 1]);
                    assert(a < b - 1 < prevv.len());
                } else if a == jj && b > jj {
                    assert(ov[a] == pv && ov[b] == prevv[b - 1]);
                    assert(sp_lex_lt(pv, prevv[jj]));
                    if b - 1 > jj {
                        lemma_lex_trans(pv, prevv[jj], prevv[b - 1]);
                    }
                } else {
                    assert(a > jj && b > jj);
                    assert(ov[a] == prevv[a - 1] && ov[b] == prevv[b - 1]);
                }
            }
            assert forall|x: Seq<u32>|
                sp_views(out@).contains(x) implies (exists|m: int|
                0 <= m < k + 1 && ps@[m] == x) by {
                let q = choose|q: int| 0 <= q < ov.len() && ov[q] == x;
                if q == jj {
                    assert(ps@[k as int] == x);
                } else if q < jj {
                    assert(prevv[q] == x);
                    assert(prevv.contains(x));
                } else {
                    assert(prevv[q - 1] == x);
                    assert(prevv.contains(x));
                }
            }
            assert forall|x: Seq<u32>|
                (exists|m: int| 0 <= m < k + 1 && ps@[m] == x) implies sp_views(
                out@,
            ).contains(x) by {
                let m = choose|m: int| 0 <= m < k + 1 && ps@[m] == x;
                if m == k as int {
                    assert(ov[jj] == x);
                } else {
                    assert(prevv.contains(x));
                    let q = choose|q: int| 0 <= q < prevv.len() && prevv[q] == x;
                    if q < jj {
                        assert(ov[q] == x);
                    } else {
                        assert(ov[q + 1] == x);
                    }
                }
            }
        }
        k = k + 1;
    }
    proof {
        assert forall|x: Seq<u32>| sp_views(out@).contains(x) implies ps@.contains(x) by {
            let m = choose|m: int| 0 <= m < n && ps@[m] == x;
        }
        assert forall|x: Seq<u32>| ps@.contains(x) implies sp_views(out@).contains(x) by {
            let m = choose|m: int| 0 <= m < ps@.len() && ps@[m] == x;
        }
        assert(sp_strictly_sorted(sp_views(out@)) && sp_same_members(sp_views(out@), ps@));
        let w = choose|s: Seq<Seq<u32>>| sp_strictly_sorted(s) && sp_same_members(s, ps@);
        lemma_ssorted_unique(sp_views(out@), sp_sort(ps@));
    }
    out
}

/// Builds the path index of a sorted path sequence: each path paired with
/// its dense id, which is its position in the encoding order.
pub fn build_path_index(field_paths: &Vec<FieldPath>) -> (r: Vec<(FieldPath, usize)>)
    ensures
        r@.len() == field_paths@.len(),
        forall|i: int|
            0 <= i < r@.len() ==> (#[trigger] r@[i]).0@ == field_paths@[i]@ && r@[i].1 == i,
{
    let n = field_paths.len();
    let mut r: Vec<(FieldPath, usize)> = Vec::new();
    let mut i: usize = 0;
    while i < n
        invariant
            n == field_paths@.len(),
            i <= n,
            r@.len() == i,
            forall|j: int|
                0 <= j < i ==> (#[trigger] r@[j]).0@ == field_paths@[j]@ && r@[j].1 == j,
        decreases n - i,
    {
        r.push((field_paths[i].duplicate(), i));
        i = i + 1;
    }
    r
}

/// One encoded path block: the length followed by the segment indices.
pub open spec fn sp_block(p: Seq<u32>) -> Seq<u32> {
    seq![p.len() as u32] + p
}

/// The concatenation of the blocks of `sorted` from position `i` on.
pub open spec fn sp_paths_arr(sorted: Seq<Seq<u32>>, i: int) -> Seq<u32>
    decreases sorted.len() - i,
{
    if i < 0 || i >= sorted.len() {
        Seq::empty()
    } else {
        sp_block(sorted[i]) + sp_paths_arr(sorted, i + 1)
    }
}

/// The total size of the first `i` blocks.
pub open spec fn sp_size_prefix(sorted: Seq<Seq<u32>>, i: int) -> int
    decreases i,
{
    if i <= 0 {
        0
    } else {
        sp_size_prefix(sorted, i - 1) + 1 + sorted[i - 1].len()
    }
}

/// Block sizes only grow with more blocks.
pub proof fn lemma_size_prefix_mono(sorted: Seq<Seq<u32>>, i: int, j: int)
    requires
        0 <= i <= j,
    ensures
        sp_size_prefix(sorted, i) <= sp_size_prefix(sorted, j),
    decreases j,
{
    if i < j {
        lemma_size_prefix_mono(sorted, i, j - 1);
    }
}

/// The path directory: for each path, the offset of its block.
pub open spec fn sp_dir(sorted: Seq<Seq<u32>>) -> Seq<u32> {
    Seq::new(sorted.len(), |i: int| sp_size_prefix(sorted, i) as u32)
}

/// The path types: `0` for a root table of one segment, else `1`.
pub open spec fn sp_types(sorted: Seq<Seq<u32>>) -> Seq<u32> {
    Seq::new(
        sorted.len(),
        |i: int|
            if sorted[i].len() == 1 {
                0u32
            } else {
                1u32
            },
    )
}

/// Whether the sorted paths can be encoded against a string table of length
/// `slen`: every segment is a valid index, every length and offset fits.
pub open spec fn sp_enc_ok(sorted: Seq<Seq<u32>>, slen: int) -> bool {
    &&& forall|i: int|
        0 <= i < sorted.len() ==> (#[trigger] sorted[i]).len() <= u32::MAX && (forall|k: int|
            0 <= k < sorted[i].len() ==> (#[trigger] sorted[i][k]) < slen)
    &&& forall|i: int| 0 <= i < sorted.len() ==> sp_size_prefix(sorted, i) <= u32::MAX
}

/// Packs the sorted paths into the flat `paths`, `path_dir` and `path_types`
/// arrays; an index outside the string table or an overflow of the 32-bit
/// wire format is a `CorruptedState`.
#[verifier::loop_isolation(false)]
pub fn encode_paths(sorted: &Vec<FieldPath>, strings_len: usize) -> (r: Result<
    (Vec<u32>, Vec<u32>, Vec<u32>),
    Error,
>)
    requires
        strings_len <= u32::MAX,
    ensures
        match r {
            Ok(out) => sp_enc_ok(sp_views(sorted@), strings_len as int) && out.0@ == sp_paths_arr(
                sp_views(sorted@),
                0,
            ) && out.1@ == sp_dir(sp_views(sorted@)) && out.2@ == sp_types(sp_views(sorted@)),
            Err(e) => e == Error::CorruptedState && !sp_enc_ok(
                sp_views(sorted@),
                strings_len as int,
            ),
        },
{
    let ghost views = sp_views(sorted@);
    let n = sorted.len();
    let mut out_p: Vec<u32> = Vec::new();
    let mut out_d: Vec<u32> = Vec::new();
    let mut out_t: Vec<u32> = Vec::new();
    let mut i: usize = 0;
    proof {
        assert(out_p@ + sp_paths_arr(views, 0) =~= sp_paths_arr(views, 0));
    }
    while i < n
        invariant
            n == sorted@.len(),
            views == sp_views(sorted@),
            i <= n,
            strings_len <= u32::MAX,
            sp_paths_arr(views, 0) == out_p@ + sp_paths_arr(views, i as int),
            out_p@.len() == sp_size_prefix(views, i as int),
            out_d@.len() == i,
            forall|m: int| 0 <= m < i ==> sp_size_prefix(views, m) <= u32::MAX,
            forall|m: int| 0 <= m < i ==> out_d@[m] == sp_size_prefix(views, m) as u32,
            out_t@.len() == i,
            forall|m: int|
                0 <= m < i ==> out_t@[m] == (if views[m].len() == 1 {
                    0u32
                } else {
                    1u32
                }),
            forall|m: int|
                0 <= m < i ==> (#[trigger] views[m]).len() <= u32::MAX && (forall|k: int|
                    0 <= k < views[m].len() ==> (#[trigger] views[m][k]) < strings_len),
        decreases n - i,
    {
        let p = &sorted[i];
        let plen = p.len();
        proof {
            assert(views[i as int] == sorted@[i as int]@);
        }
        if plen > (u32::MAX as usize) {
            proof {
                assert(!sp_enc_ok(views, strings_len as int));
            }
            return Err(Error::CorruptedState);
        }
        if out_p.len() > (u32::MAX as usize) {
            proof {
                assert(sp_size_prefix(views, i as int) > u32::MAX);
                assert(!sp_enc_ok(views, strings_len as int));
            }
            return Err(Error::CorruptedState);
        }
        out_d.push(out_p.len() as u32);
        out_t.push(if plen == 1 {
            0u32
        } else {
            1u32
        });
        let ghost snap = out_p@;
        out_p.push(plen as u32);
        let mut k: usize = 0;
        while k < plen
            invariant
                plen == p@.len(),
                k <= plen,
                plen <= u32::MAX,
                strings_len <= u32::MAX,
                views[i as int] == p@,
                0 <= i < views.len(),
                out_p@ == snap + seq![plen as u32] + p@.subrange(0, k as int),
                forall|m: int| 0 <= m < k ==> (#[trigger] p@[m]) < strings_len,
            decreases plen - k,
        {
            let id = p.index(k);
            if (id as usize) >= strings_len {
                proof {
                    assert(views[i as int][k as int] >= strings_len);
                    assert(!sp_enc_ok(views, strings_len as int));
                }
                return Err(Error::CorruptedState);
            }
            out_p.push(id);
            proof {
                assert(out_p@ =~= snap + seq![plen as u32] + p@.subrange(0, k as int + 1));
            }
            k = k + 1;
        }
        proof {
            assert(p@.subrange(0, plen as int) =~= p@);
            assert(out_p@ =~= snap + sp_block(views[i as int]));
            assert(sp_paths_arr(views, i as int) == sp_block(views[i as int]) + sp_paths_arr(
                views,
                i as int + 1,
            ));
            assert(sp_paths_arr(views, 0) == out_p@ + sp_paths_arr(views, i as int + 1)) by {
                assert(snap + (sp_block(views[i as int]) + sp_paths_arr(views, i as int + 1)) =~= (
                snap + sp_block(views[i as int])) + sp_paths_arr(views, i as int + 1));
            }
        }
        i = i + 1;
    }
    proof {
        assert(sp_paths_arr(views, n as int) =~= Seq::<u32>::empty());
        assert(out_p@ =~= out_p@ + Seq::<u32>::empty());
        assert(out_d@ =~= sp_dir(views));
        assert(out_t@ =~= sp_types(views));
        assert(sp_enc_ok(views, strings_len as int));
    }
    Ok((out_p, out_d, out_t))
}

/// The encoded column entries: for each sorted single-segment path with a
/// non-empty column set, the table's index and its column indices; `None`
/// when an index falls outside the string table.
pub open spec fn sp_cols_arr(
    sorted: Seq<Seq<u32>>,
    i: int,
    cols: Seq<(Seq<u32>, Seq<u32>)>,
    slen: int,
) -> Option<Seq<(u32, Seq<u32>)>>
    decreases sorted.len() - i,
{
    if i < 0 || i >= sorted.len() {
        Some(Seq::empty())
    } else {
        let rest = sp_cols_arr(sorted, i + 1, cols, slen);
        if sorted[i].len() == 1 && crate::pathmap::sp_has_col_entry(cols, sorted[i]) {
            let e = cols[crate::pathmap::sp_col_idx(cols, sorted[i])];
            if e.1.len() > 0 {
                if sorted[i][0] < slen && (forall|k: int| 0 <= k < e.1.len() ==> (#[trigger] e.1[k]) < slen) {
                    match rest {
                        Some(r) => Some(seq![(sorted[i][0], e.1)] + r),
                        None => None,
                    }
                } else {
                    None
                }
            } else {
                rest
            }
        } else {
            rest
        }
    }
}

/// A corrupted suffix makes the whole column encoding corrupted.
proof fn lemma_cols_none_prop(
    sorted: Seq<Seq<u32>>,
    i: int,
    cols: Seq<(Seq<u32>, Seq<u32>)>,
    slen: int,
)
    requires
        0 <= i,
        sp_cols_arr(sorted, i, cols, slen) is None,
    ensures
        sp_cols_arr(sorted, 0, cols, slen) is None,
    decreases i,
{
    if i > 0 {
        assert(sp_cols_arr(sorted, i - 1, cols, slen) is None);
        lemma_cols_none_prop(sorted, i - 1, cols, slen);
    }
}

/// Packs column usage into the `cols` array, one entry per root table with
/// observed columns, in sorted path order.
#[verifier::loop_isolation(false)]
pub fn encode_cols(sorted: &Vec<FieldPath>, colmap: &ColumnMap, strings_len: usize) -> (r: Result<
    Vec<(u32, Vec<u32>)>,
    Error,
>)
    requires
        colmap.wf(),
        strings_len <= u32::MAX,
    ensures
        match r {
            Ok(out) => Some(
                out@.map_values(|e: (u32, Vec<u32>)| (e.0, e.1@)),
            ) == sp_cols_arr(sp_views(sorted@), 0, colmap@, strings_len as int),
            Err(e) => e == Error::CorruptedState && sp_cols_arr(
                sp_views(sorted@),
                0,
                colmap@,
                strings_len as int,
            ) is None,
        },
{
    let ghost views = sp_views(sorted@);
    let ghost slen = strings_len as int;
    let n = sorted.len();
    let mut out: Vec<(u32, Vec<u32>)> = Vec::new();
    let mut i: usize = n;
    proof {
        assert(out@.map_values(|e: (u32, Vec<u32>)| (e.0, e.1@)) =~= Seq::<(u32, Seq<u32>)>::empty());
    }
    while i > 0
        invariant
            n == sorted@.len(),
            views == sp_views(sorted@),
            i <= n,
            colmap.wf(),
            slen == strings_len as int,
            Some(out@.map_values(|e: (u32, Vec<u32>)| (e.0, e.1@))) == sp_cols_arr(
                views,
                i as int,
                colmap@,
                slen,
            ),
        decreases i,
    {
        i = i - 1;
        let p = &sorted[i];
        proof {
            assert(views[i as int] == sorted@[i as int]@);
        }
        if p.len() == 1 {
            match colmap.find(p) {
                Some(ci) => {
                    let (_, cvec) = colmap.get(ci);
                    if cvec.len() > 0 {
                        let tid = p.index(0);
                        if (tid as usize) >= strings_len {
                            proof {
                                assert(sp_cols_arr(views, i as int, colmap@, slen) is None);
                                lemma_cols_none_prop(views, i as int, colmap@, slen);
                            }
                            return Err(Error::CorruptedState);
                        }
                        let m = cvec.len();
                        let mut k: usize = 0;
                        while k < m
                            invariant
                                m == cvec@.len(),
                                k <= m,
                                slen == strings_len as int,
                                forall|q: int| 0 <= q < k ==> (#[trigger] cvec@[q]) < strings_len,
                            decreases m - k,
                        {
                            if (cvec[k] as usize) >= strings_len {
                                proof {
                                    assert(sp_cols_arr(views, i as int, colmap@, slen) is None);
                                    lemma_cols_none_prop(views, i as int, colmap@, slen);
                                }
                                return Err(Error::CorruptedState);
                            }
                            k = k + 1;
                        }
                        let copy = crate::types::clone_ids(cvec);
                        let ghost cpv = copy@;
                        let ghost snap = out@;
                        out.insert(0, (tid, copy));
                        proof {
                            assert(out@ =~= seq![(tid, out@[0].1)].add(snap));
                            assert(out@[0].1@ == cpv);
                            assert(out@.map_values(|e: (u32, Vec<u32>)| (e.0, e.1@)) =~= seq![
                                (tid, cpv),
                            ].add(snap.map_values(|e: (u32, Vec<u32>)| (e.0, e.1@))));
                        }
                    }
                },
                None => (),
            }
        }
        proof {
            assert(Some(out@.map_values(|e: (u32, Vec<u32>)| (e.0, e.1@))) == sp_cols_arr(
                views,
                i as int,
                colmap@,
                slen,
            ));
        }
    }
    Ok(out)
}

/// The numeric operation type of one root field: queries are `0`,
/// subscriptions `4`, and mutations are refined by the field's name.
pub open spec fn sp_op_type(
    kind: GqlOperationKind,
    fname: Seq<char>,
    ins: Seq<char>,
    upd: Seq<char>,
    del: Seq<char>,
) -> u32 {
    match kind {
        GqlOperationKind::Query => 0u32,
        GqlOperationKind::Subscription => 4u32,
        GqlOperationKind::Mutation => sp_mutation_kind(fname, ins, upd, del).op_type_view(),
    }
}

/// The `ops` entries of one operation's root selections; `None` when a root
/// field's name is missing from the string table.
pub open spec fn sp_ops_roots(
    sels: Seq<GqlSelection>,
    j: int,
    kind: GqlOperationKind,
    itab: Seq<Seq<char>>,
    ins: Seq<char>,
    upd: Seq<char>,
    del: Seq<char>,
) -> Option<Seq<(u32, u32)>>
    decreases sels.len() - j,
{
    if j < 0 || j >= sels.len() {
        Some(Seq::empty())
    } else {
        let rest = sp_ops_roots(sels, j + 1, kind, itab, ins, upd, del);
        match sels[j] {
            GqlSelection::Field(c) => {
                if itab.contains(c.name@) {
                    match rest {
                        Some(r) => Some(
                            seq![
                                (
                                    sp_index_of(itab, c.name@) as u32,
                                    sp_op_type(kind, c.name@, ins, upd, del),
                                ),
                            ] + r,
                        ),
                        None => None,
                    }
                } else {
                    None
                }
            },
            _ => rest,
        }
    }
}

/// The `ops` entries of the whole document, one per root selection of every
/// operation definition, in document order.
pub open spec fn sp_ops_arr(
    defs: Seq<GqlDefinition>,
    i: int,
    itab: Seq<Seq<char>>,
    ins: Seq<char>,
    upd: Seq<char>,
    del: Seq<char>,
) -> Option<Seq<(u32, u32)>>
    decreases defs.len() - i,
{
    if i < 0 || i >= defs.len() {
        Some(Seq::empty())
    } else {
        let rest = sp_ops_arr(defs, i + 1, itab, ins, upd, del);
        match defs[i] {
            GqlDefinition::Operation(op) => {
                match sp_ops_roots(op.selections@, 0, op.kind, itab, ins, upd, del) {
                    Some(s) => match rest {
                        Some(r) => Some(s + r),
                        None => None,
                    },
                    None => None,
                }
            },
            GqlDefinition::Fragment => rest,
        }
    }
}

/// Packs the `ops` array: for every root selection of every operation, the
/// field's string-table index and its numeric operation type. A root field
/// that was never interned is a `CorruptedState`.
#[verifier::loop_isolation(false)]
pub fn encode_ops(document: &GqlDocument, inter: &Interner, config: &Config) -> (r: Result<
    Vec<(u32, u32)>,
    Error,
>)
    requires
        inter.wf(),
    ensures
        match r {
            Ok(out) => Some(out@) == sp_ops_arr(
                document.definitions@,
                0,
                inter@,
                config.insert_prefix@,
                config.update_prefix@,
                config.delete_prefix@,
            ),
            Err(e) => e == Error::CorruptedState && sp_ops_arr(
                document.definitions@,
                0,
                inter@,
                config.insert_prefix@,
                config.update_prefix@,
                config.delete_prefix@,
            ) is None,
        },
{
    let ghost ins = config.insert_prefix@;
    let ghost upd = config.update_prefix@;
    let ghost del = config.delete_prefix@;
    let ghost itab = inter@;
    let defs = &document.definitions;
    let n = defs.len();
    let mut out: Vec<(u32, u32)> = Vec::new();
    let mut i: usize = n;
    while i > 0
        invariant
            n == defs@.len(),
            i <= n,
            inter.wf(),
            itab == inter@,
            Some(out@) == sp_ops_arr(defs@, i as int, itab, ins, upd, del),
        decreases i,
    {
        i = i - 1;
        match &defs[i] {
            GqlDefinition::Operation(op) => {
                let sels = &op.selections;
                let sn = sels.len();
                let mut j: usize = sn;
                let ghost outer = out@;
                let mut front: Vec<(u32, u32)> = Vec::new();
                while j > 0
                    invariant
                        sn == sels@.len(),
                        j <= sn,
                        inter.wf(),
                        itab == inter@,
                        Some(front@) == sp_ops_roots(sels@, j as int, op.kind, itab, ins, upd, del),
                    decreases j,
                {
                    j = j - 1;
                    match &sels[j] {
                        GqlSelection::Field(c) => {
                            match inter.lookup(c.name.as_str()) {
                                Some(id) => {
                                    let ot = match op.kind {
                                        GqlOperationKind::Query => 0u32,
                                        GqlOperationKind::Subscription => 4u32,
                                        GqlOperationKind::Mutation => {
                                            if str_starts_with(
                                                c.name.as_str(),
                                                config.insert_prefix.as_str(),
                                            ) {
                                                1u32
                                            } else if str_starts_with(
                                                c.name.as_str(),
                                                config.update_prefix.as_str(),
                                            ) {
                                                2u32
                                            } else if str_starts_with(
                                                c.name.as_str(),
                                                config.delete_prefix.as_str(),
                                            ) {
                                                3u32
                                            } else {
                                                1u32
                                            }
                                        },
                                    };
                                    let ghost fsnap = front@;
                                    front.insert(0, (id, ot));
                                    proof {
                                        assert(front@ =~= seq![(id, ot)] + fsnap);
                                        assert(ot == sp_op_type(op.kind, c.name@, ins, upd, del));
                                    }
                                },
                                None => {
                                    proof {
                                        assert(sp_ops_roots(
                                            sels@,
                                            j as int,
                                            op.kind,
                                            itab,
                                            ins,
                                            upd,
                                            del,
                                        ) is None);
                                        lemma_ops_roots_none(sels@, j as int, op.kind, itab, ins, upd, del);
                                        assert(sp_ops_arr(defs@, i as int, itab, ins, upd, del) is None);
                                        lemma_ops_arr_none(defs@, i as int, itab, ins, upd, del);
                                    }
                                    return Err(Error::CorruptedState);
                                },
                            }
                        },
                        _ => (),
                    }
                }
                let fm = front.len();
                let mut q: usize = fm;
                while q > 0
                    invariant
                        fm == front@.len(),
                        q <= fm,
                        out@ == front@.skip(q as int) + outer,
                    decreases q,
                {
                    q = q - 1;
                    let e = front[q];
                    out.insert(0, e);
                    proof {
                        assert(out@ =~= front@.skip(q as int) + outer);
                    }
                }
                proof {
                    assert(front@.skip(0) =~= front@);
                    assert(out@ == front@ + outer);
                }
            },
            _ => (),
        }
    }
    Ok(out)
}

/// A missing root field propagates corruption to the start of the list.
proof fn lemma_ops_roots_none(
    sels: Seq<GqlSelection>,
    j: int,
    kind: GqlOperationKind,
    itab: Seq<Seq<char>>,
    ins: Seq<char>,
    upd: Seq<char>,
    del: Seq<char>,
)
    requires
        0 <= j,
        sp_ops_roots(sels, j, kind, itab, ins, upd, del) is None,
    ensures
        sp_ops_roots(sels, 0, kind, itab, ins, upd, del) is None,
    decreases j,
{
    if j > 0 {
        assert(sp_ops_roots(sels, j - 1, kind, itab, ins, upd, del) is None);
        lemma_ops_roots_none(sels, j - 1, kind, itab, ins, upd, del);
    }
}

/// A corrupted operation propagates corruption to the whole document fold.
proof fn lemma_ops_arr_none(
    defs: Seq<GqlDefinition>,
    i: int,
    itab: Seq<Seq<char>>,
    ins: Seq<char>,
    upd: Seq<char>,
    del: Seq<char>,
)
    requires
        0 <= i,
        sp_ops_arr(defs, i, itab, ins, upd, del) is None,
    ensures
        sp_ops_arr(defs, 0, itab, ins, upd, del) is None,
    decreases i,
{
    if i > 0 {
        assert(sp_ops_arr(defs, i - 1, itab, ins, upd, del) is None);
        lemma_ops_arr_none(defs, i - 1, itab, ins, upd, del);
    }
}

} // verus!
