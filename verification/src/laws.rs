//! The laws of the wire format and of the cache, stated and proved over the
//! spec functions that the public contracts use.
//!
//! Each public proof function here is a statement about every possible
//! output of the library, not about chosen values; the concrete scenarios
//! live in the test suite.

use vstd::prelude::*;
use crate::cache::{
    sp_cache_has, sp_cache_idx, sp_cache_insert, sp_cache_remove, sp_keys_distinct, EntryV,
};
use crate::encode::{
    lemma_lex_total, lemma_lex_trans, sp_block, sp_cols_arr, sp_dir, sp_enc_ok, sp_lex_lt,
    sp_ops_arr, sp_ops_roots, sp_op_type, sp_paths_arr, sp_same_members, sp_size_prefix, sp_sort,
    sp_strictly_sorted, sp_types,
};
use crate::engine::{sp_hit_analysis, sp_is_hit, AnalysisV};
use crate::interning::sp_index_of;
use crate::pathmap::{sp_col_idx, sp_has_col_entry};
use crate::ast::{GqlDefinition, GqlOperationKind, GqlSelection};

verus! {

/// The flat paths array splits at each directory offset: what stands from
/// the offset of block `i` on is the encoding of the remaining blocks.
proof fn lemma_paths_split(sorted: Seq<Seq<u32>>, i: int)
    requires
        0 <= i <= sorted.len(),
    ensures
        sp_paths_arr(sorted, 0).skip(sp_size_prefix(sorted, i)) == sp_paths_arr(sorted, i),
        sp_paths_arr(sorted, 0).len() == sp_size_prefix(sorted, sorted.len() as int),
    decreases i,
{
    lemma_paths_len(sorted, 0);
    if i == 0 {
        assert(sp_paths_arr(sorted, 0).skip(0) =~= sp_paths_arr(sorted, 0));
    } else {
        lemma_paths_split(sorted, i - 1);
        lemma_paths_len(sorted, i - 1);
        lemma_size_prefix_mono_local(sorted, 0, i - 1);
        lemma_size_prefix_mono_local(sorted, i, sorted.len() as int);
        let rest = sp_paths_arr(sorted, i - 1);
        assert(rest == sp_block(sorted[i - 1]) + sp_paths_arr(sorted, i));
        assert(rest.skip(1 + sorted[i - 1].len() as int) =~= sp_paths_arr(sorted, i));
        assert(sp_paths_arr(sorted, 0).skip(sp_size_prefix(sorted, i)) =~= sp_paths_arr(
            sorted,
            0,
        ).skip(sp_size_prefix(sorted, i - 1)).skip(1 + sorted[i - 1].len() as int));
    }
}

/// The length of the encoding of the blocks from `i` on.
proof fn lemma_paths_len(sorted: Seq<Seq<u32>>, i: int)
    requires
        0 <= i <= sorted.len(),
    ensures
        sp_paths_arr(sorted, i).len() == sp_size_prefix(sorted, sorted.len() as int)
            - sp_size_prefix(sorted, i),
    decreases sorted.len() - i,
{
    if i < sorted.len() {
        lemma_paths_len(sorted, i + 1);
    } else {
        lemma_size_prefix_zero(sorted, i);
    }
}

/// A helper: the prefix sum is what the recursion says it is.
proof fn lemma_size_prefix_zero(sorted: Seq<Seq<u32>>, i: int)
    requires
        i == sorted.len(),
    ensures
        sp_paths_arr(sorted, i).len() == 0,
{
}

/// Decoding one block of the flat paths array back into a path.
pub open spec fn sp_decode_one(paths: Seq<u32>, off: int) -> Seq<u32> {
    paths.subrange(off + 1, off + 1 + paths[off])
}

/// Decoding the whole paths array through the directory.
pub open spec fn sp_decode(paths: Seq<u32>, dir: Seq<u32>) -> Seq<Seq<u32>> {
    Seq::new(dir.len(), |i: int| sp_decode_one(paths, dir[i] as int))
}

/// Round trip of the path encoding: decoding `paths` through `path_dir`
/// yields exactly the sorted path sequence that was encoded, path for path.
pub proof fn lemma_paths_round_trip(sorted: Seq<Seq<u32>>, slen: int)
    requires
        sp_enc_ok(sorted, slen),
    ensures
        sp_decode(sp_paths_arr(sorted, 0), sp_dir(sorted)) == sorted,
{
    let arr = sp_paths_arr(sorted, 0);
    let dir = sp_dir(sorted);
    assert forall|i: int| 0 <= i < sorted.len() implies sp_decode_one(arr, dir[i] as int)
        == sorted[i] by {
        lemma_paths_split(sorted, i);
        lemma_paths_len(sorted, i);
        let off = sp_size_prefix(sorted, i);
        lemma_size_prefix_mono_local(sorted, 0, i);
        assert(0 <= off <= u32::MAX);
        assert(dir[i] == off as u32);
        let blk = sp_block(sorted[i]) + sp_paths_arr(sorted, i + 1);
        assert(arr.skip(off) == blk);
        assert(arr.len() == sp_size_prefix(sorted, sorted.len() as int));
        lemma_size_prefix_mono_local(sorted, i + 1, sorted.len() as int);
        assert(arr[off] == blk[0]);
        assert(blk[0] == sorted[i].len() as u32);
        assert(sp_decode_one(arr, off) =~= sorted[i]) by {
            assert forall|k: int| 0 <= k < sorted[i].len() implies arr[off + 1 + k]
                == sorted[i][k] by {
                assert(arr[off + 1 + k] == arr.skip(off)[1 + k]);
                assert(blk[1 + k] == sp_block(sorted[i])[1 + k]);
            }
        }
    }
    assert(sp_decode(arr, dir) =~= sorted);
}

/// Local copy of the prefix monotonicity fact.
proof fn lemma_size_prefix_mono_local(sorted: Seq<Seq<u32>>, i: int, j: int)
    requires
        0 <= i <= j,
    ensures
        sp_size_prefix(sorted, i) <= sp_size_prefix(sorted, j),
    decreases j,
{
    if i < j {
        lemma_size_prefix_mono_local(sorted, i, j - 1);
    }
}

/// Path-type correctness: the type of an encoded path is `0` exactly when
/// the path it decodes to has a single segment, and `1` otherwise.
pub proof fn lemma_path_types(sorted: Seq<Seq<u32>>, slen: int)
    requires
        sp_enc_ok(sorted, slen),
    ensures
        forall|i: int|
            0 <= i < sorted.len() ==> ((#[trigger] sp_types(sorted)[i] == 0) <==> sp_decode(
                sp_paths_arr(sorted, 0),
                sp_dir(sorted),
            )[i].len() == 1),
{
    lemma_paths_round_trip(sorted, slen);
}

/// String-table closure for the path blocks: every segment index stored in
/// the paths array is a valid position in the string table.
pub proof fn lemma_paths_indices(sorted: Seq<Seq<u32>>, slen: int)
    requires
        sp_enc_ok(sorted, slen),
    ensures
        forall|i: int, k: int|
            0 <= i < sorted.len() && 0 <= k < sorted[i].len() ==> (#[trigger] sp_decode(
                sp_paths_arr(sorted, 0),
                sp_dir(sorted),
            )[i][k]) < slen,
{
    lemma_paths_round_trip(sorted, slen);
}

/// Column-set soundness: every encoded column entry names a non-empty
/// column list, its table is an encoded path of one segment whose type is
/// `0`, and all its indices are valid positions in the string table.
pub proof fn lemma_cols_sound(
    sorted: Seq<Seq<u32>>,
    i: int,
    cols: Seq<(Seq<u32>, Seq<u32>)>,
    slen: int,
    out: Seq<(u32, Seq<u32>)>,
)
    requires
        0 <= i,
        sp_cols_arr(sorted, i, cols, slen) == Some(out),
    ensures
        forall|m: int|
            0 <= m < out.len() ==> {
                &&& (#[trigger] out[m]).1.len() > 0
                &&& out[m].0 < slen
                &&& (forall|k: int| 0 <= k < out[m].1.len() ==> (#[trigger] out[m].1[k]) < slen)
                &&& exists|p: int|
                    i <= p < sorted.len() && sorted[p] =~= seq![out[m].0] && sorted[p].len() == 1
            },
    decreases sorted.len() - i,
{
    if i < sorted.len() {
        let rest = sp_cols_arr(sorted, i + 1, cols, slen);
        if sorted[i].len() == 1 && sp_has_col_entry(cols, sorted[i]) {
            let e = cols[sp_col_idx(cols, sorted[i])];
            if e.1.len() > 0 {
                let r = rest->Some_0;
                lemma_cols_sound(sorted, i + 1, cols, slen, r);
                assert(out == seq![(sorted[i][0], e.1)] + r);
                assert forall|m: int| 0 <= m < out.len() implies {
                    &&& (#[trigger] out[m]).1.len() > 0
                    &&& out[m].0 < slen
                    &&& (forall|k: int| 0 <= k < out[m].1.len() ==> (#[trigger] out[m].1[k]) < slen)
                    &&& exists|p: int|
                        i <= p < sorted.len() && sorted[p] =~= seq![out[m].0] && sorted[p].len()
                            == 1
                } by {
                    if m == 0 {
                        assert(out[0] == (sorted[i][0], e.1));
                        assert(sorted[i] =~= seq![out[0].0]);
                    } else {
                        assert(out[m] == r[m - 1]);
                        let p = choose|p: int|
                            i + 1 <= p < sorted.len() && sorted[p] =~= seq![r[m - 1].0]
                                && sorted[p].len() == 1;
                    }
                }
            } else {
                lemma_cols_sound(sorted, i + 1, cols, slen, out);
                assert forall|m: int| 0 <= m < out.len() implies (exists|p: int|
                    i <= p < sorted.len() && sorted[p] =~= seq![(#[trigger] out[m]).0]
                        && sorted[p].len() == 1) by {
                    let p = choose|p: int|
                        i + 1 <= p < sorted.len() && sorted[p] =~= seq![out[m].0] && sorted[p].len()
                            == 1;
                }
            }
        } else {
            lemma_cols_sound(sorted, i + 1, cols, slen, out);
            assert forall|m: int| 0 <= m < out.len() implies (exists|p: int|
                i <= p < sorted.len() && sorted[p] =~= seq![(#[trigger] out[m]).0]
                    && sorted[p].len() == 1) by {
                let p = choose|p: int|
                    i + 1 <= p < sorted.len() && sorted[p] =~= seq![out[m].0] && sorted[p].len()
                        == 1;
            }
        }
    }
}

/// Re-classification round trip for one operation's root entries: every
/// encoded `(field_idx, op_type)` pair satisfies that resolving the index
/// through the string table and classifying the resulting name under the
/// operation's kind yields exactly the stored operation type.
pub proof fn lemma_ops_round_trip(
    sels: Seq<GqlSelection>,
    j: int,
    kind: GqlOperationKind,
    itab: Seq<Seq<char>>,
    ins: Seq<char>,
    upd: Seq<char>,
    del: Seq<char>,
    out: Seq<(u32, u32)>,
)
    requires
        0 <= j,
        itab.len() <= u32::MAX,
        sp_ops_roots(sels, j, kind, itab, ins, upd, del) == Some(out),
    ensures
        forall|m: int|
            0 <= m < out.len() ==> (#[trigger] out[m]).0 < itab.len() && out[m].1 == sp_op_type(
                kind,
                itab[out[m].0 as int],
                ins,
                upd,
                del,
            ),
    decreases sels.len() - j,
{
    if j < sels.len() {
        let rest = sp_ops_roots(sels, j + 1, kind, itab, ins, upd, del);
        match sels[j] {
            GqlSelection::Field(c) => {
                if itab.contains(c.name@) {
                    let r = rest->Some_0;
                    lemma_ops_round_trip(sels, j + 1, kind, itab, ins, upd, del, r);
                    let idx = sp_index_of(itab, c.name@);
                    assert(0 <= idx < itab.len() && itab[idx] == c.name@);
                    assert(out == seq![(idx as u32, sp_op_type(kind, c.name@, ins, upd, del))] + r);
                }
            },
            _ => {
                lemma_ops_round_trip(sels, j + 1, kind, itab, ins, upd, del, out);
            },
        }
    }
}

/// Cache consistency: after an analysis is stored under its key, a lookup
/// for that key finds exactly that entry at the back of the recency order.
pub proof fn lemma_insert_then_find(
    cache: Seq<(u64, EntryV)>,
    k: u64,
    e: EntryV,
    max: int,
)
    requires
        sp_keys_distinct(cache),
        max > 0,
    ensures
        sp_cache_has(sp_cache_insert(cache, k, e, max), k),
        sp_cache_insert(cache, k, e, max)[sp_cache_idx(sp_cache_insert(cache, k, e, max), k)].1
            == e,
{
    crate::cache::lemma_cache_remove_props(cache, k);
    let v1 = sp_cache_remove(cache, k);
    let v2 = if v1.len() >= max {
        v1.drop_first()
    } else {
        v1
    };
    let w = v2.push((k, e));
    assert(w[w.len() - 1] == (k, e));
    assert(sp_cache_has(w, k));
    let i = sp_cache_idx(w, k);
    assert(0 <= i < w.len() && w[i].0 == k);
    if i < w.len() - 1 {
        if v1.len() >= max && v1.len() > 0 {
            crate::cache::lemma_drop_first_distinct(v1);
            assert(v2[i] == v1[i + 1]);
        } else {
            assert(v2[i] == v1[i]);
        }
        assert(false);
    }
}

/// Consistency of repeated analyses: between a stored analysis and any
/// later fresh hit for the same key, the analysis handed out is the stored
/// one, field for field. Together with the determinism of the analysis
/// pipeline (a spec-level function of the interner table and the query
/// text), two hits within the time to live and below the eviction bound
/// observe identical outputs.
pub proof fn lemma_cache_consistency(
    cache: Seq<(u64, EntryV)>,
    k: u64,
    e: EntryV,
    qid: Seq<char>,
    now2: u64,
    ttl: u64,
    max: int,
)
    requires
        sp_keys_distinct(cache),
        max > 0,
        now2 < e.stored_at + ttl,
    ensures
        ({
            let stored = sp_cache_insert(cache, k, e, max);
            &&& sp_is_hit(stored, k, ttl, now2)
            &&& sp_hit_analysis(stored[sp_cache_idx(stored, k)].1, qid).request == e.request
            &&& sp_hit_analysis(stored[sp_cache_idx(stored, k)].1, qid).operation_kind
                == e.operation_kind
            &&& sp_hit_analysis(stored[sp_cache_idx(stored, k)].1, qid).operation_name
                == e.operation_name
        }),
{
    lemma_insert_then_find(cache, k, e, max);
}

/// Any path can be inserted into a sorted sequence, keeping it sorted.
proof fn lemma_sorted_insert(s: Seq<Seq<u32>>, x: Seq<u32>)
    requires
        sp_strictly_sorted(s),
        !s.contains(x),
    ensures
        exists|t: Seq<Seq<u32>>|
            sp_strictly_sorted(t) && (forall|y: Seq<u32>|
                t.contains(y) <==> s.contains(y) || y == x),
    decreases s.len(),
{
    if s.len() == 0 {
        let t = seq![x];
        assert(sp_strictly_sorted(t));
        assert forall|y: Seq<u32>| t.contains(y) <==> s.contains(y) || y == x by {
            if t.contains(y) {
                let q = choose|q: int| 0 <= q < t.len() && t[q] == y;
                assert(y == x);
            }
            if y == x {
                assert(t[0] == x);
            }
        }
        assert(sp_strictly_sorted(t) && (forall|y: Seq<u32>|
            t.contains(y) <==> s.contains(y) || y == x));
    } else {
        lemma_lex_total(x, s[0]);
        assert(s.contains(s[0]));
        assert(x != s[0]);
        if sp_lex_lt(x, s[0]) {
            let t = seq![x] + s;
            assert forall|a: int, b: int| 0 <= a < b < t.len() implies sp_lex_lt(t[a], t[b]) by {
                if a == 0 {
                    assert(t[0] == x && t[b] == s[b - 1]);
                    if b > 1 {
                        lemma_lex_trans(x, s[0], s[b - 1]);
                    }
                } else {
                    assert(t[a] == s[a - 1] && t[b] == s[b - 1]);
                }
            }
            assert forall|y: Seq<u32>| t.contains(y) <==> s.contains(y) || y == x by {
                if t.contains(y) {
                    let q = choose|q: int| 0 <= q < t.len() && t[q] == y;
                    if q > 0 {
                        assert(s[q - 1] == y);
                        assert(s.contains(y));
                    }
                }
                if s.contains(y) {
                    let q = choose|q: int| 0 <= q < s.len() && s[q] == y;
                    assert(t[q + 1] == y);
                }
                if y == x {
                    assert(t[0] == x);
                }
            }
        assert(sp_strictly_sorted(t) && (forall|y: Seq<u32>|
            t.contains(y) <==> s.contains(y) || y == x));
        } else {
            assert(sp_lex_lt(s[0], x));
            let s2 = s.drop_first();
            assert forall|a: int, b: int| 0 <= a < b < s2.len() implies sp_lex_lt(
                s2[a],
                s2[b],
            ) by {
                assert(s2[a] == s[a + 1] && s2[b] == s[b + 1]);
            }
            assert(!s2.contains(x)) by {
                if s2.contains(x) {
                    let q = choose|q: int| 0 <= q < s2.len() && s2[q] == x;
                    assert(s[q + 1] == x);
                    assert(s.contains(x));
                }
            }
            lemma_sorted_insert(s2, x);
            let t2 = choose|t2: Seq<Seq<u32>>|
                sp_strictly_sorted(t2) && (forall|y: Seq<u32>|
                    t2.contains(y) <==> s2.contains(y) || y == x);
            let t = seq![s[0]] + t2;
            assert forall|a: int, b: int| 0 <= a < b < t.len() implies sp_lex_lt(t[a], t[b]) by {
                if a == 0 {
                    assert(t[b] == t2[b - 1]);
                    assert(t2.contains(t2[b - 1]));
                    if t2[b - 1] == x {
                        assert(sp_lex_lt(s[0], x));
                    } else {
                        assert(s2.contains(t2[b - 1]));
                        let q = choose|q: int| 0 <= q < s2.len() && s2[q] == t2[b - 1];
                        assert(s[q + 1] == t2[b - 1]);
                        assert(sp_lex_lt(s[0], s[q + 1]));
                    }
                } else {
                    assert(t[a] == t2[a - 1] && t[b] == t2[b - 1]);
                }
            }
            assert forall|y: Seq<u32>| t.contains(y) <==> s.contains(y) || y == x by {
                if t.contains(y) {
                    let q = choose|q: int| 0 <= q < t.len() && t[q] == y;
                    if q == 0 {
                        assert(s.contains(s[0]));
                    } else {
                        assert(t2[q - 1] == y);
                        assert(t2.contains(y));
                        if y != x {
                            assert(s2.contains(y));
                            let w = choose|w: int| 0 <= w < s2.len() && s2[w] == y;
                            assert(s[w + 1] == y);
                            assert(s.contains(y));
                        }
                    }
                }
                if s.contains(y) {
                    let q = choose|q: int| 0 <= q < s.len() && s[q] == y;
                    if q == 0 {
                        assert(t[0] == y);
                    } else {
                        assert(s2[q - 1] == y);
                        assert(s2.contains(y));
                        assert(t2.contains(y));
                        let w = choose|w: int| 0 <= w < t2.len() && t2[w] == y;
                        assert(t[w + 1] == y);
                    }
                }
                if y == x {
                    assert(t2.contains(x));
                    let w = choose|w: int| 0 <= w < t2.len() && t2[w] == x;
                    assert(t[w + 1] == x);
                }
            }
        assert(sp_strictly_sorted(t) && (forall|y: Seq<u32>|
            t.contains(y) <==> s.contains(y) || y == x));
        }
    }
}

/// Every finite set of paths has a strictly sorted arrangement, so the
/// sorted order used by the encoder exists and is unique.
pub proof fn lemma_sorted_arrangement_exists(ps: Seq<Seq<u32>>)
    ensures
        sp_strictly_sorted(sp_sort(ps)),
        sp_same_members(sp_sort(ps), ps),
    decreases ps.len(),
{
    if ps.len() == 0 {
        let t = Seq::<Seq<u32>>::empty();
        assert(sp_strictly_sorted(t) && sp_same_members(t, ps));
    } else {
        let ps2 = ps.drop_last();
        lemma_sorted_arrangement_exists(ps2);
        let s = sp_sort(ps2);
        let x = ps.last();
        if s.contains(x) {
            assert forall|y: Seq<u32>| s.contains(y) <==> ps.contains(y) by {
                if s.contains(y) {
                    assert(ps2.contains(y));
                    let q = choose|q: int| 0 <= q < ps2.len() && ps2[q] == y;
                    assert(ps[q] == y);
                }
                if ps.contains(y) {
                    let q = choose|q: int| 0 <= q < ps.len() && ps[q] == y;
                    if q < ps.len() - 1 {
                        assert(ps2[q] == y);
                        assert(ps2.contains(y));
                    } else {
                        assert(y == x);
                    }
                }
            }
            assert(sp_strictly_sorted(s) && sp_same_members(s, ps));
        } else {
            lemma_sorted_insert(s, x);
            let t = choose|t: Seq<Seq<u32>>|
                sp_strictly_sorted(t) && (forall|y: Seq<u32>|
                    t.contains(y) <==> s.contains(y) || y == x);
            assert forall|y: Seq<u32>| t.contains(y) <==> ps.contains(y) by {
                if t.contains(y) {
                    if y == x {
                        assert(ps[ps.len() - 1] == x);
                        assert(ps.contains(y));
                    } else {
                        assert(s.contains(y));
                        assert(ps2.contains(y));
                        let q = choose|q: int| 0 <= q < ps2.len() && ps2[q] == y;
                        assert(ps[q] == y);
                        assert(ps.contains(y));
                    }
                }
                if ps.contains(y) {
                    let q = choose|q: int| 0 <= q < ps.len() && ps[q] == y;
                    if q < ps.len() - 1 {
                        assert(ps2[q] == y);
                        assert(ps2.contains(y));
                        assert(s.contains(y));
                    }
                }
            }
            assert(sp_strictly_sorted(t) && sp_same_members(t, ps));
        }
    }
}

/// With every column id valid and every remaining sorted path valid, the
/// column encoding cannot be corrupted.
proof fn lemma_cols_arr_some(
    sorted: Seq<Seq<u32>>,
    i: int,
    cols: Seq<(Seq<u32>, Seq<u32>)>,
    slen: int,
)
    requires
        0 <= i,
        forall|a: int, k: int|
            0 <= a < cols.len() && 0 <= k < cols[a].1.len() ==> (#[trigger] cols[a].1[k]) < slen,
        forall|j: int, k: int|
            i <= j < sorted.len() && 0 <= k < sorted[j].len() ==> (#[trigger] sorted[j][k]) < slen,
    ensures
        sp_cols_arr(sorted, i, cols, slen) is Some,
    decreases sorted.len() - i,
{
    if i < sorted.len() {
        lemma_cols_arr_some(sorted, i + 1, cols, slen);
        if sorted[i].len() == 1 && sp_has_col_entry(cols, sorted[i]) {
            let e = cols[sp_col_idx(cols, sorted[i])];
            if e.1.len() > 0 {
                assert(sorted[i][0] < slen);
            }
        }
    }
}

/// With every root field name interned, the operation encoding of one
/// operation cannot be corrupted.
proof fn lemma_ops_roots_some(
    sels: Seq<GqlSelection>,
    j: int,
    kind: GqlOperationKind,
    itab: Seq<Seq<char>>,
    ins: Seq<char>,
    upd: Seq<char>,
    del: Seq<char>,
)
    requires
        0 <= j,
        forall|m: int|
            j <= m < sels.len() && sels[m] is Field ==> itab.contains(
                (#[trigger] sels[m])->Field_0.name@,
            ),
    ensures
        sp_ops_roots(sels, j, kind, itab, ins, upd, del) is Some,
    decreases sels.len() - j,
{
    if j < sels.len() {
        lemma_ops_roots_some(sels, j + 1, kind, itab, ins, upd, del);
    }
}

/// With every operation's root field names interned, the operation array
/// cannot be corrupted.
proof fn lemma_ops_arr_some(
    defs: Seq<GqlDefinition>,
    i: int,
    itab: Seq<Seq<char>>,
    ins: Seq<char>,
    upd: Seq<char>,
    del: Seq<char>,
)
    requires
        0 <= i,
        forall|d: int, j: int|
            i <= d < defs.len() && defs[d] is Operation && 0 <= j
                < defs[d]->Operation_0.selections@.len()
                && defs[d]->Operation_0.selections@[j] is Field ==> itab.contains(
                (#[trigger] defs[d]->Operation_0.selections@[j])->Field_0.name@,
            ),
    ensures
        sp_ops_arr(defs, i, itab, ins, upd, del) is Some,
    decreases defs.len() - i,
{
    if i < defs.len() {
        lemma_ops_arr_some(defs, i + 1, itab, ins, upd, del);
        match defs[i] {
            GqlDefinition::Operation(op) => {
                lemma_ops_roots_some(op.selections@, 0, op.kind, itab, ins, upd, del);
            },
            GqlDefinition::Fragment => {},
        }
    }
}

/// Whether the sorted encoding of an extraction result fits the 32-bit wire
/// format: every path length and every block offset fits.
pub open spec fn sp_wire_fits(st: crate::extract::ExtSt) -> bool {
    let sorted = sp_sort(st.paths);
    &&& forall|i: int| 0 <= i < sorted.len() ==> (#[trigger] sorted[i]).len() <= u32::MAX
    &&& forall|i: int| 0 <= i < sorted.len() ==> sp_size_prefix(sorted, i) <= u32::MAX
}

/// Success is owed exactly to clean inputs: a fresh analysis succeeds if
/// and only if the text parses, the document avoids fragments and
/// directives, holds an operation, and the extraction accepts its mutation
/// arguments without exhausting the id space — provided the result fits the
/// 32-bit wire format, which only queries of astronomical size can violate.
pub proof fn lemma_parse_success_iff(
    itab: Seq<Seq<char>>,
    qv: Seq<char>,
    ins: Seq<char>,
    upd: Seq<char>,
    del: Seq<char>,
)
    requires
        crate::parse::sp_parse(qv) matches Some(doc) ==> (crate::extract::sp_extract(
            itab,
            doc,
            ins,
            upd,
        ) matches crate::extract::ExtOut::Good(st) ==> sp_wire_fits(st)),
    ensures
        crate::engine::sp_pipeline(itab, qv, ins, upd, del) is Ok <==> {
            &&& crate::parse::sp_parse(qv) matches Some(doc)
            &&& crate::validate::sp_doc_supported(doc.definitions@, 0)
            &&& crate::classify::sp_doc_has_operation(doc.definitions@)
            &&& crate::extract::sp_extract(itab, doc, ins, upd) is Good
        },
{
    match crate::parse::sp_parse(qv) {
        Some(doc) => {
            if crate::validate::sp_doc_supported(doc.definitions@, 0)
                && crate::classify::sp_doc_has_operation(doc.definitions@) {
                match crate::extract::sp_extract(itab, doc, ins, upd) {
                    crate::extract::ExtOut::Good(st) => {
                        crate::extract::lemma_ok_extract(itab, doc, ins, upd);
                        lemma_sorted_arrangement_exists(st.paths);
                        let sorted = sp_sort(st.paths);
                        let slen = st.itab.len() as int;
                        assert forall|j: int, k: int|
                            0 <= j < sorted.len() && 0 <= k < sorted[j].len() implies (
                        #[trigger] sorted[j][k]) < slen by {
                            assert(sorted.contains(sorted[j]));
                            assert(st.paths.contains(sorted[j]));
                            let m = choose|m: int|
                                0 <= m < st.paths.len() && st.paths[m] == sorted[j];
                        }
                        assert(sp_enc_ok(sorted, slen));
                        lemma_cols_arr_some(sorted, 0, st.cols, slen);
                        lemma_ops_arr_some(doc.definitions@, 0, st.itab, ins, upd, del);
                    },
                    crate::extract::ExtOut::Bad(_) => {},
                }
            }
        },
        None => {},
    }
}

/// Round trip at the analysis level: decoding the `paths` array of a
/// successful analysis through its `path_dir` reproduces, up to ordering,
/// exactly the path set the extractor emitted for the document; and each
/// decoded path has a single segment exactly where its `path_types` entry
/// is zero.
pub proof fn lemma_analysis_paths_round_trip(
    itab: Seq<Seq<char>>,
    qv: Seq<char>,
    ins: Seq<char>,
    upd: Seq<char>,
    del: Seq<char>,
)
    ensures
        crate::engine::sp_pipeline(itab, qv, ins, upd, del) matches Ok(p) ==> {
            &&& crate::parse::sp_parse(qv) matches Some(doc)
            &&& crate::extract::sp_extract(itab, doc, ins, upd)
                matches crate::extract::ExtOut::Good(st)
            &&& sp_same_members(sp_decode(p.0.request.paths, p.0.request.path_dir), st.paths)
            &&& forall|i: int|
                0 <= i < p.0.request.path_types.len() ==> ((#[trigger] p.0.request.path_types[i]
                    == 0) <==> sp_decode(p.0.request.paths, p.0.request.path_dir)[i].len() == 1)
        },
{
    match crate::engine::sp_pipeline(itab, qv, ins, upd, del) {
        Ok(p) => {
            let doc = crate::parse::sp_parse(qv)->Some_0;
            match crate::extract::sp_extract(itab, doc, ins, upd) {
                crate::extract::ExtOut::Good(st) => {
                    let sorted = sp_sort(st.paths);
                    let slen = st.itab.len() as int;
                    assert(sp_enc_ok(sorted, slen));
                    lemma_sorted_arrangement_exists(st.paths);
                    lemma_paths_round_trip(sorted, slen);
                    lemma_path_types(sorted, slen);
                    assert(p.0.request.paths == sp_paths_arr(sorted, 0));
                    assert(p.0.request.path_dir == sp_dir(sorted));
                    assert(p.0.request.path_types == sp_types(sorted));
                },
                crate::extract::ExtOut::Bad(_) => {
                    assert(false);
                },
            }
        },
        Err(_) => {},
    }
}

/// Re-classification across the whole document: every encoded operation
/// entry resolves through the string table to a name whose classification
/// under the kind of some operation of the document is the stored type.
pub proof fn lemma_ops_arr_round_trip(
    defs: Seq<GqlDefinition>,
    i: int,
    itab: Seq<Seq<char>>,
    ins: Seq<char>,
    upd: Seq<char>,
    del: Seq<char>,
    out: Seq<(u32, u32)>,
)
    requires
        0 <= i,
        itab.len() <= u32::MAX,
        sp_ops_arr(defs, i, itab, ins, upd, del) == Some(out),
    ensures
        forall|m: int|
            0 <= m < out.len() ==> (#[trigger] out[m]).0 < itab.len() && (exists|d: int|
                i <= d < defs.len() && defs[d] is Operation && out[m].1 == sp_op_type(
                    defs[d]->Operation_0.kind,
                    itab[out[m].0 as int],
                    ins,
                    upd,
                    del,
                )),
    decreases defs.len() - i,
{
    if i < defs.len() {
        let rest = sp_ops_arr(defs, i + 1, itab, ins, upd, del);
        match defs[i] {
            GqlDefinition::Operation(op) => {
                let s = sp_ops_roots(op.selections@, 0, op.kind, itab, ins, upd, del)->Some_0;
                let r = rest->Some_0;
                lemma_ops_round_trip(op.selections@, 0, op.kind, itab, ins, upd, del, s);
                lemma_ops_arr_round_trip(defs, i + 1, itab, ins, upd, del, r);
                assert(out == s + r);
                assert forall|m: int|
                    0 <= m < out.len() implies (#[trigger] out[m]).0 < itab.len() && (exists|
                    d: int,
                |
                    i <= d < defs.len() && defs[d] is Operation && out[m].1 == sp_op_type(
                        defs[d]->Operation_0.kind,
                        itab[out[m].0 as int],
                        ins,
                        upd,
                        del,
                    )) by {
                    if m < s.len() {
                        assert(out[m] == s[m]);
                        assert(defs[i] is Operation && out[m].1 == sp_op_type(
                            defs[i]->Operation_0.kind,
                            itab[out[m].0 as int],
                            ins,
                            upd,
                            del,
                        ));
                    } else {
                        assert(out[m] == r[m - s.len()]);
                        let d = choose|d: int|
                            i + 1 <= d < defs.len() && defs[d] is Operation && r[m - s.len()].1
                                == sp_op_type(
                                defs[d]->Operation_0.kind,
                                itab[r[m - s.len()].0 as int],
                                ins,
                                upd,
                                del,
                            );
                    }
                }
            },
            GqlDefinition::Fragment => {
                lemma_ops_arr_round_trip(defs, i + 1, itab, ins, upd, del, out);
                assert forall|m: int|
                    0 <= m < out.len() implies (#[trigger] out[m]).0 < itab.len() && (exists|
                    d: int,
                |
                    i <= d < defs.len() && defs[d] is Operation && out[m].1 == sp_op_type(
                        defs[d]->Operation_0.kind,
                        itab[out[m].0 as int],
                        ins,
                        upd,
                        del,
                    )) by {
                    let d = choose|d: int|
                        i + 1 <= d < defs.len() && defs[d] is Operation && out[m].1 == sp_op_type(
                            defs[d]->Operation_0.kind,
                            itab[out[m].0 as int],
                            ins,
                            upd,
                            del,
                        );
                }
            },
        }
    }
}

/// Two documents agree in operation shape: same definition count, matching
/// operation positions and kinds, and matching root selections with equal
/// field names. A re-serialization of a document always has this shape.
pub open spec fn sp_ops_shape_eq(defs1: Seq<GqlDefinition>, defs2: Seq<GqlDefinition>) -> bool {
    &&& defs1.len() == defs2.len()
    &&& forall|d: int|
        0 <= d < defs1.len() ==> ((#[trigger] defs1[d]) is Operation <==> defs2[d] is Operation)
    &&& forall|d: int|
        0 <= d < defs1.len() && (#[trigger] defs1[d]) is Operation ==> defs1[d]->Operation_0.kind
            == defs2[d]->Operation_0.kind && defs1[d]->Operation_0.selections@.len()
            == defs2[d]->Operation_0.selections@.len()
    &&& forall|d: int, j: int|
        0 <= d < defs1.len() && defs1[d] is Operation && 0 <= j
            < defs1[d]->Operation_0.selections@.len() ==> (((
        #[trigger] defs1[d]->Operation_0.selections@[j]) is Field
            <==> defs2[d]->Operation_0.selections@[j] is Field)
            && (defs1[d]->Operation_0.selections@[j] is Field
            ==> defs1[d]->Operation_0.selections@[j]->Field_0.name@
            == defs2[d]->Operation_0.selections@[j]->Field_0.name@))
}

/// Root entries of one operation under two interner tables: with matching
/// field names, the operation types agree pairwise.
proof fn lemma_ops_roots_shape(
    sels1: Seq<GqlSelection>,
    sels2: Seq<GqlSelection>,
    j: int,
    kind: GqlOperationKind,
    itab1: Seq<Seq<char>>,
    itab2: Seq<Seq<char>>,
    ins: Seq<char>,
    upd: Seq<char>,
    del: Seq<char>,
    o1: Seq<(u32, u32)>,
    o2: Seq<(u32, u32)>,
)
    requires
        0 <= j,
        sels1.len() == sels2.len(),
        forall|m: int|
            0 <= m < sels1.len() ==> ((#[trigger] sels1[m]) is Field <==> sels2[m] is Field),
        forall|m: int|
            0 <= m < sels1.len() && (#[trigger] sels1[m]) is Field ==> sels1[m]->Field_0.name@
                == sels2[m]->Field_0.name@,
        sp_ops_roots(sels1, j, kind, itab1, ins, upd, del) == Some(o1),
        sp_ops_roots(sels2, j, kind, itab2, ins, upd, del) == Some(o2),
    ensures
        o1.len() == o2.len(),
        forall|m: int| 0 <= m < o1.len() ==> (#[trigger] o1[m]).1 == o2[m].1,
    decreases sels1.len() - j,
{
    if j < sels1.len() {
        match sels1[j] {
            GqlSelection::Field(c1) => {
                let c2 = sels2[j]->Field_0;
                assert(c1.name@ == c2.name@);
                let r1 = sp_ops_roots(sels1, j + 1, kind, itab1, ins, upd, del)->Some_0;
                let r2 = sp_ops_roots(sels2, j + 1, kind, itab2, ins, upd, del)->Some_0;
                lemma_ops_roots_shape(
                    sels1,
                    sels2,
                    j + 1,
                    kind,
                    itab1,
                    itab2,
                    ins,
                    upd,
                    del,
                    r1,
                    r2,
                );
                assert(o1 == seq![
                    (sp_index_of(itab1, c1.name@) as u32, sp_op_type(kind, c1.name@, ins, upd, del)),
                ] + r1);
                assert(o2 == seq![
                    (sp_index_of(itab2, c2.name@) as u32, sp_op_type(kind, c2.name@, ins, upd, del)),
                ] + r2);
                assert forall|m: int| 0 <= m < o1.len() implies (#[trigger] o1[m]).1
                    == o2[m].1 by {
                    if m > 0 {
                        assert(o1[m] == r1[m - 1] && o2[m] == r2[m - 1]);
                    }
                }
            },
            _ => {
                lemma_ops_roots_shape(sels1, sels2, j + 1, kind, itab1, itab2, ins, upd, del, o1, o2);
            },
        }
    }
}

/// Re-classification of a re-serialized document: for two documents of the
/// same operation shape — as a faithful re-serialization always is — the
/// encoded operation types agree pairwise in order, whatever the two
/// interner tables hold.
pub proof fn lemma_ops_reserialization(
    defs1: Seq<GqlDefinition>,
    defs2: Seq<GqlDefinition>,
    i: int,
    itab1: Seq<Seq<char>>,
    itab2: Seq<Seq<char>>,
    ins: Seq<char>,
    upd: Seq<char>,
    del: Seq<char>,
    o1: Seq<(u32, u32)>,
    o2: Seq<(u32, u32)>,
)
    requires
        0 <= i,
        sp_ops_shape_eq(defs1, defs2),
        sp_ops_arr(defs1, i, itab1, ins, upd, del) == Some(o1),
        sp_ops_arr(defs2, i, itab2, ins, upd, del) == Some(o2),
    ensures
        o1.len() == o2.len(),
        forall|m: int| 0 <= m < o1.len() ==> (#[trigger] o1[m]).1 == o2[m].1,
    decreases defs1.len() - i,
{
    if i < defs1.len() {
        match defs1[i] {
            GqlDefinition::Operation(op1) => {
                let op2 = defs2[i]->Operation_0;
                let s1 = sp_ops_roots(op1.selections@, 0, op1.kind, itab1, ins, upd, del)->Some_0;
                let s2 = sp_ops_roots(op2.selections@, 0, op2.kind, itab2, ins, upd, del)->Some_0;
                let r1 = sp_ops_arr(defs1, i + 1, itab1, ins, upd, del)->Some_0;
                let r2 = sp_ops_arr(defs2, i + 1, itab2, ins, upd, del)->Some_0;
                assert forall|m: int|
                    0 <= m < op1.selections@.len() implies ((#[trigger] op1.selections@[m])
                    is Field <==> op2.selections@[m] is Field) by {
                    assert(defs1[i]->Operation_0.selections@[m] == op1.selections@[m]);
                }
                assert forall|m: int|
                    0 <= m < op1.selections@.len() && (#[trigger] op1.selections@[m]) is Field
                    implies op1.selections@[m]->Field_0.name@
                    == op2.selections@[m]->Field_0.name@ by {
                    assert(defs1[i]->Operation_0.selections@[m] == op1.selections@[m]);
                }
                lemma_ops_roots_shape(
                    op1.selections@,
                    op2.selections@,
                    0,
                    op1.kind,
                    itab1,
                    itab2,
                    ins,
                    upd,
                    del,
                    s1,
                    s2,
                );
                lemma_ops_reserialization(
                    defs1,
                    defs2,
                    i + 1,
                    itab1,
                    itab2,
                    ins,
                    upd,
                    del,
                    r1,
                    r2,
                );
                assert(o1 == s1 + r1);
                assert(o2 == s2 + r2);
                assert forall|m: int| 0 <= m < o1.len() implies (#[trigger] o1[m]).1
                    == o2[m].1 by {
                    if m < s1.len() {
                        assert(o1[m] == s1[m] && o2[m] == s2[m]);
                    } else {
                        assert(o1[m] == r1[m - s1.len()] && o2[m] == r2[m - s1.len()]);
                    }
                }
            },
            GqlDefinition::Fragment => {
                lemma_ops_reserialization(defs1, defs2, i + 1, itab1, itab2, ins, upd, del, o1, o2);
            },
        }
    }
}

/// Soundness of a successful analysis: every column entry names a
/// non-empty column set of a root table that stands among the encoded
/// single-segment paths, every index in `cols` and `ops` is a valid
/// position in the string table, and re-classifying any operation entry
/// through the string table reproduces its stored operation type.
pub proof fn lemma_analysis_sound(
    itab: Seq<Seq<char>>,
    qv: Seq<char>,
    ins: Seq<char>,
    upd: Seq<char>,
    del: Seq<char>,
)
    requires
        itab.len() <= crate::interning::sp_cap(),
    ensures
        crate::engine::sp_pipeline(itab, qv, ins, upd, del) matches Ok(p) ==> {
            &&& forall|m: int|
                0 <= m < p.0.request.cols.len() ==> {
                    &&& (#[trigger] p.0.request.cols[m]).1.len() > 0
                    &&& p.0.request.cols[m].0 < p.0.request.strings.len()
                    &&& (forall|k: int|
                        0 <= k < p.0.request.cols[m].1.len() ==> (
                        #[trigger] p.0.request.cols[m].1[k]) < p.0.request.strings.len())
                    &&& sp_decode(p.0.request.paths, p.0.request.path_dir).contains(
                        seq![p.0.request.cols[m].0],
                    )
                }
            &&& forall|m: int|
                0 <= m < p.0.request.ops.len() ==> (#[trigger] p.0.request.ops[m]).0
                    < p.0.request.strings.len()
            &&& crate::parse::sp_parse(qv) matches Some(doc) && (forall|m: int|
                0 <= m < p.0.request.ops.len() ==> exists|d: int|
                    0 <= d < doc.definitions@.len() && doc.definitions@[d] is Operation && (
                    #[trigger] p.0.request.ops[m]).1 == sp_op_type(
                        doc.definitions@[d]->Operation_0.kind,
                        p.0.request.strings[p.0.request.ops[m].0 as int],
                        ins,
                        upd,
                        del,
                    ))
        },
{
    match crate::engine::sp_pipeline(itab, qv, ins, upd, del) {
        Ok(p) => {
            let doc = crate::parse::sp_parse(qv)->Some_0;
            match crate::extract::sp_extract(itab, doc, ins, upd) {
                crate::extract::ExtOut::Good(st) => {
                    let sorted = sp_sort(st.paths);
                    let slen = st.itab.len() as int;
                    assert(sp_enc_ok(sorted, slen));
                    lemma_sorted_arrangement_exists(st.paths);
                    lemma_paths_round_trip(sorted, slen);
                    let colsv = sp_cols_arr(sorted, 0, st.cols, slen)->Some_0;
                    lemma_cols_sound(sorted, 0, st.cols, slen, colsv);
                    assert(p.0.request.cols == colsv);
                    assert(p.0.request.strings == st.itab);
                    assert forall|m: int|
                        0 <= m < p.0.request.cols.len() implies sp_decode(
                        p.0.request.paths,
                        p.0.request.path_dir,
                    ).contains(seq![(#[trigger] p.0.request.cols[m]).0]) by {
                        let q = choose|q: int|
                            0 <= q < sorted.len() && sorted[q] =~= seq![colsv[m].0]
                                && sorted[q].len() == 1;
                        assert(sp_decode(p.0.request.paths, p.0.request.path_dir)[q] == sorted[q]);
                    }
                    let opsv = sp_ops_arr(doc.definitions@, 0, st.itab, ins, upd, del)->Some_0;
                    crate::extract::lemma_ok_extract(itab, doc, ins, upd);
                    assert(st.itab.len() <= u32::MAX);
                    lemma_ops_arr_round_trip(doc.definitions@, 0, st.itab, ins, upd, del, opsv);
                    assert(p.0.request.ops == opsv);
                },
                crate::extract::ExtOut::Bad(_) => {
                    assert(false);
                },
            }
        },
        Err(_) => {},
    }
}

/// Idempotence of the fresh analysis: the whole pipeline is a function of
/// the interner table, the query text and the configured prefixes, so two
/// analyses computed from equal states on equal texts agree in every array,
/// byte for byte. The equal-table hypothesis marks the exact boundary: the
/// string table is a snapshot of the shared interner, so when other queries
/// intern names between two uncached analyses of the same text, the
/// snapshots (and with them the indices) legitimately differ; repeated
/// calls on one engine observe identical bytes through the cache instead
/// (see `lemma_cache_consistency`).
pub proof fn lemma_analysis_idempotent(
    itab1: Seq<Seq<char>>,
    itab2: Seq<Seq<char>>,
    q1: Seq<char>,
    q2: Seq<char>,
    ins: Seq<char>,
    upd: Seq<char>,
    del: Seq<char>,
)
    requires
        itab1 == itab2,
        q1 == q2,
    ensures
        crate::engine::sp_pipeline(itab1, q1, ins, upd, del) == crate::engine::sp_pipeline(
            itab2,
            q2,
            ins,
            upd,
            del,
        ),
{
}

/// Fingerprint determinism: the query id is a pure function of the raw
/// bytes of the query text.
pub proof fn lemma_query_id_of_bytes(q1: Seq<char>, q2: Seq<char>)
    requires
        vstd::utf8::encode_utf8(q1) == vstd::utf8::encode_utf8(q2),
    ensures
        crate::fingerprint::sp_hex16(crate::engine::sp_qkey(q1)) == crate::fingerprint::sp_hex16(
            crate::engine::sp_qkey(q2),
        ),
{
}

} // verus!
