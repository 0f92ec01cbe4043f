//! The analyzer entry: fingerprint, cache lookup, parse, classify, extract,
//! encode, store.
//!
//! The whole of `parse_query` is modelled by [`sp_pipeline`] (the fresh
//! analysis of a query against an interner table) together with the cache
//! model: a hit returns the stored analysis unchanged, a miss runs the
//! pipeline and stores its result. Everything an engine call returns or
//! changes is pinned by these spec functions.

use vstd::prelude::*;
use vstd::string::StringSliceAdditionalSpecFns;
use vstd::string::StringExecFns;
use crate::cache::{
    lemma_cache_remove_member, lemma_drop_first_member, sp_cache_has, sp_cache_idx,
    sp_cache_insert, sp_cache_remove, sp_expired, CacheEntry, EntryV, QueryCache,
};
use crate::classify::{
    determine_operation_kind, operation_name, sp_classify, sp_doc_has_operation, sp_operation_name,
};
use crate::config::Config;
use crate::encode::{
    encode_cols, encode_ops, encode_paths, sort_paths, sp_cols_arr, sp_dir, sp_enc_ok,
    sp_ops_arr, sp_paths_arr, sp_sort, sp_strictly_sorted, sp_types,
};
use crate::error::Error;
use crate::extract::{sp_extract, sp_tab_le, ExtOut, FieldPathExtractor};
use crate::fingerprint::{hex16, sp_hex16, sp_xxh3};
use crate::interning::Interner;
use crate::parse::{parse_document, sp_parse};
use crate::types::{GraphQLOperationKind, ReqV, ResolutionRequest};

verus! {

/// One successful analysis as handed to the host: the fingerprint, the
/// classified operation, its optional name, and the packed request.
#[derive(Debug)]
pub struct AnalyzedQuery {
    pub query_id: String,
    pub operation_kind: GraphQLOperationKind,
    pub operation_name: Option<String>,
    pub request: ResolutionRequest,
}

/// The mathematical content of an analysis.
pub ghost struct AnalysisV {
    pub query_id: Seq<char>,
    pub operation_kind: GraphQLOperationKind,
    pub operation_name: Option<Seq<char>>,
    pub request: ReqV,
}

impl View for AnalyzedQuery {
    type V = AnalysisV;

    open spec fn view(&self) -> AnalysisV {
        AnalysisV {
            query_id: self.query_id@,
            operation_kind: self.operation_kind,
            operation_name: match self.operation_name {
                Some(s) => Some(s@),
                None => None,
            },
            request: self.request@,
        }
    }
}

/// The 64-bit fingerprint of a query text.
pub open spec fn sp_qkey(qv: Seq<char>) -> u64 {
    sp_xxh3(vstd::utf8::encode_utf8(qv))
}

/// The fresh analysis of a parsed-and-accepted document: classification,
/// extraction, and encoding, producing the analysis content and the grown
/// interner table, or the error that aborts the call.
pub open spec fn sp_pipeline(
    itab: Seq<Seq<char>>,
    qv: Seq<char>,
    ins: Seq<char>,
    upd: Seq<char>,
    del: Seq<char>,
) -> Result<(AnalysisV, Seq<Seq<char>>), Error> {
    let qid = sp_hex16(sp_qkey(qv));
    match sp_parse(qv) {
        None => Err(Error::SyntaxError),
        Some(doc) => {
            if !crate::validate::sp_doc_supported(doc.definitions@, 0) {
                Err(Error::UnsupportedFeature)
            } else if !sp_doc_has_operation(doc.definitions@) {
                Err(Error::EmptyDocument)
            } else {
                let kind = sp_classify(doc.definitions@, ins, upd, del);
                let name = sp_operation_name(doc.definitions@, 0);
                match sp_extract(itab, doc, ins, upd) {
                    ExtOut::Bad(e) => Err(e),
                    ExtOut::Good(st) => {
                        let sorted = sp_sort(st.paths);
                        let slen = st.itab.len() as int;
                        if !sp_enc_ok(sorted, slen) {
                            Err(Error::CorruptedState)
                        } else {
                            match sp_cols_arr(sorted, 0, st.cols, slen) {
                                None => Err(Error::CorruptedState),
                                Some(colsv) => {
                                    match sp_ops_arr(doc.definitions@, 0, st.itab, ins, upd, del) {
                                        None => Err(Error::CorruptedState),
                                        Some(opsv) => {
                                            Ok(
                                                (
                                                    AnalysisV {
                                                        query_id: qid,
                                                        operation_kind: kind,
                                                        operation_name: name,
                                                        request: ReqV {
                                                            query_id: qid,
                                                            strings: st.itab,
                                                            paths: sp_paths_arr(sorted, 0),
                                                            path_dir: sp_dir(sorted),
                                                            path_types: sp_types(sorted),
                                                            cols: colsv,
                                                            ops: opsv,
                                                        },
                                                    },
                                                    st.itab,
                                                ),
                                            )
                                        },
                                    }
                                },
                            }
                        }
                    },
                }
            }
        },
    }
}

/// A request in the shape the encoder produces: its directory and type
/// arrays are equally long, its flat arrays are the encoding of one
/// strictly sorted path sequence, every column entry is non-empty and names
/// an encoded single-segment table, and every index in `cols` and `ops`
/// lies inside the string table.
pub open spec fn sp_request_wf(r: ReqV) -> bool {
    &&& r.path_dir.len() == r.path_types.len()
    &&& exists|sorted: Seq<Seq<u32>>|
        #![trigger sp_dir(sorted)]
        {
            &&& sp_strictly_sorted(sorted)
            &&& sp_enc_ok(sorted, r.strings.len() as int)
            &&& r.paths == sp_paths_arr(sorted, 0)
            &&& r.path_dir == sp_dir(sorted)
            &&& r.path_types == sp_types(sorted)
            &&& forall|m: int|
                0 <= m < r.cols.len() ==> {
                    &&& (#[trigger] r.cols[m]).1.len() > 0
                    &&& (r.cols[m].0 as int) < r.strings.len()
                    &&& (forall|k: int|
                        0 <= k < r.cols[m].1.len() ==> ((#[trigger] r.cols[m].1[k]) as int)
                            < r.strings.len())
                    &&& sorted.contains(seq![r.cols[m].0])
                }
            &&& forall|m: int|
                0 <= m < r.ops.len() ==> ((#[trigger] r.ops[m]).0 as int) < r.strings.len()
        }
}

/// What the engine maintains of every cached pair: the stored request names
/// its own key in hexadecimal and has the encoder's shape.
pub open spec fn sp_entry_ok(p: (u64, EntryV)) -> bool {
    p.1.request.query_id == sp_hex16(p.0) && sp_request_wf(p.1.request)
}

/// Whether a lookup for `key` at `now` hits a live, fresh cache entry.
pub open spec fn sp_is_hit(cache: Seq<(u64, EntryV)>, key: u64, ttl: u64, now: u64) -> bool {
    sp_cache_has(cache, key) && !sp_expired(cache[sp_cache_idx(cache, key)].1.stored_at, ttl, now)
}

/// The analysis a cache hit returns: the stored entry's fields under the
/// freshly rendered fingerprint.
pub open spec fn sp_hit_analysis(e: EntryV, qid: Seq<char>) -> AnalysisV {
    AnalysisV {
        query_id: qid,
        operation_kind: e.operation_kind,
        operation_name: e.operation_name,
        request: e.request,
    }
}

/// The cache entry a fresh analysis deposits: the analysis itself together
/// with the parsed record spec'd alongside it — the sorted field paths,
/// their dense-id index, and the column usage. Meaningful only when the
/// pipeline succeeds on this text.
pub open spec fn sp_miss_entry(
    itab: Seq<Seq<char>>,
    qv: Seq<char>,
    ins: Seq<char>,
    upd: Seq<char>,
    del: Seq<char>,
    now: u64,
) -> EntryV {
    let a = (sp_pipeline(itab, qv, ins, upd, del))->Ok_0.0;
    let doc = sp_parse(qv)->Some_0;
    let st = (sp_extract(itab, doc, ins, upd))->Good_0;
    let sorted = sp_sort(st.paths);
    EntryV {
        operation_kind: a.operation_kind,
        operation_name: a.operation_name,
        original_query: qv,
        field_paths: sorted,
        path_index: Seq::new(sorted.len(), |i: int| (sorted[i], i as usize)),
        column_usage: st.cols,
        request: a.request,
        stored_at: now,
    }
}

/// The analysis front end: configuration, string interner and query cache,
/// owned together and threaded through every call.
#[derive(Debug)]
pub struct Engine {
    config: Config,
    interner: Interner,
    cache: QueryCache,
}

impl Engine {
    /// The engine's invariants: interner and cache are well formed, and
    /// every cached entry satisfies [`sp_entry_ok`]: its request names its
    /// own key in hexadecimal and has the encoder's shape.
    pub closed spec fn wf(&self) -> bool {
        &&& self.interner.wf()
        &&& self.cache.wf()
        &&& forall|i: int| 0 <= i < self.cache@.len() ==> sp_entry_ok(#[trigger] self.cache@[i])
    }

    /// The configuration the engine was initialised with.
    pub closed spec fn spec_config(&self) -> Config {
        self.config
    }

    /// Read access to the configuration.
    pub fn config(&self) -> (r: &Config)
        ensures
            *r == self.spec_config(),
    {
        &self.config
    }

    /// The interner table.
    pub closed spec fn itab(&self) -> Seq<Seq<char>> {
        self.interner@
    }

    /// The cache contents in recency order.
    pub closed spec fn cachev(&self) -> Seq<(u64, EntryV)> {
        self.cache@
    }

    /// The configured time to live.
    pub closed spec fn ttl(&self) -> u64 {
        self.cache.spec_ttl()
    }

    /// The configured capacity.
    pub closed spec fn cache_max(&self) -> int {
        self.cache.spec_max()
    }

    /// Creates an engine from a configuration; this is the one-time
    /// initialisation step.
    pub fn new(config: Config) -> (r: Engine)
        ensures
            r.wf(),
            r.itab() == Seq::<Seq<char>>::empty(),
            r.cachev() == Seq::<(u64, EntryV)>::empty(),
            r.cache_max() == config.query_cache_max_size,
            r.ttl() == config.query_cache_ttl_seconds,
            r.spec_config() == config,
    {
        let cache = QueryCache::new(config.query_cache_max_size, config.query_cache_ttl_seconds);
        Engine { config, interner: Interner::new(), cache }
    }

    /// All interned strings in assignment order.
    pub fn get_all_strings(&self) -> (r: Vec<String>)
        ensures
            r@.len() == self.itab().len(),
            forall|i: int| 0 <= i < r@.len() ==> r@[i]@ == self.itab()[i],
    {
        self.interner.get_all_strings()
    }

    /// Analyzes a query text at time `now_s`: on a fresh cache hit the
    /// stored analysis is returned unchanged and becomes the most recently
    /// used entry; on a miss the text is parsed, checked, classified,
    /// extracted and encoded, and the analysis is stored before being
    /// returned. Errors are never cached. The text must lie within
    /// [`crate::parse::sp_parse_safe`], which the host checks with
    /// [`crate::parse::text_is_parse_safe`] before calling in.
    pub fn parse_query(&mut self, query: &str, now_s: u64) -> (r: Result<AnalyzedQuery, Error>)
        requires
            old(self).wf(),
            crate::parse::sp_parse_safe(query@),
        ensures
            final(self).wf(),
            final(self).spec_config() == old(self).spec_config(),
            final(self).ttl() == old(self).ttl(),
            final(self).cache_max() == old(self).cache_max(),
            sp_tab_le(old(self).itab(), final(self).itab()),
            match r {
                Ok(a) => {
                    &&& a@.query_id == sp_hex16(sp_qkey(query@))
                    &&& a@.request.query_id == sp_hex16(sp_qkey(query@))
                    &&& sp_request_wf(a@.request)
                    &&& if sp_is_hit(old(self).cachev(), sp_qkey(query@), old(self).ttl(), now_s) {
                        let e = old(self).cachev()[sp_cache_idx(
                            old(self).cachev(),
                            sp_qkey(query@),
                        )].1;
                        &&& a@ == sp_hit_analysis(e, sp_hex16(sp_qkey(query@)))
                        &&& final(self).cachev() == sp_cache_remove(
                            old(self).cachev(),
                            sp_qkey(query@),
                        ).push((sp_qkey(query@), e))
                        &&& final(self).itab() == old(self).itab()
                    } else {
                        &&& sp_pipeline(
                            old(self).itab(),
                            query@,
                            old(self).spec_config().insert_prefix@,
                            old(self).spec_config().update_prefix@,
                            old(self).spec_config().delete_prefix@,
                        ) == Ok::<_, Error>((a@, final(self).itab()))
                        &&& final(self).cachev() == sp_cache_insert(
                            sp_cache_remove(old(self).cachev(), sp_qkey(query@)),
                            sp_qkey(query@),
                            sp_miss_entry(
                                old(self).itab(),
                                query@,
                                old(self).spec_config().insert_prefix@,
                                old(self).spec_config().update_prefix@,
                                old(self).spec_config().delete_prefix@,
                                now_s,
                            ),
                            old(self).cache_max(),
                        )
                    }
                },
                Err(e) => {
                    &&& !sp_is_hit(old(self).cachev(), sp_qkey(query@), old(self).ttl(), now_s)
                    &&& sp_pipeline(
                        old(self).itab(),
                        query@,
                        old(self).spec_config().insert_prefix@,
                        old(self).spec_config().update_prefix@,
                        old(self).spec_config().delete_prefix@,
                    ) == Err::<(AnalysisV, Seq<Seq<char>>), _>(e)
                    &&& final(self).cachev() == sp_cache_remove(old(self).cachev(), sp_qkey(query@))
                },
            },
    {
        let h = xxhash_rust::xxh3::xxh3_64(query.as_bytes());
        let id_hex = hex16(h);
        proof {
            assert(h == sp_qkey(query@));
        }
        match self.cache.get_from_cache(h, now_s) {
            Some(e) => {
                proof {
                    lemma_cache_remove_member(old(self).cachev(), h);
                    let fv = self.cachev();
                    assert forall|i: int| 0 <= i < fv.len() implies sp_entry_ok(
                        #[trigger] fv[i],
                    ) by {
                        if i < fv.len() - 1 {
                            assert(old(self).cachev().contains(fv[i]));
                            let m = choose|m: int|
                                0 <= m < old(self).cachev().len() && old(self).cachev()[m] == fv[i];
                            assert(sp_entry_ok(old(self).cachev()[m]));
                        } else {
                            let oi = sp_cache_idx(old(self).cachev(), h);
                            assert(sp_entry_ok(old(self).cachev()[oi]));
                        }
                    }
                }
                let a = AnalyzedQuery {
                    query_id: id_hex,
                    operation_kind: e.operation_kind,
                    operation_name: e.operation_name,
                    request: e.request,
                };
                return Ok(a);
            },
            None => {
                proof {
                    lemma_cache_remove_member(old(self).cachev(), h);
                    let fv = self.cachev();
                    assert forall|i: int| 0 <= i < fv.len() implies sp_entry_ok(
                        #[trigger] fv[i],
                    ) by {
                        assert(old(self).cachev().contains(fv[i]));
                        let m = choose|m: int|
                            0 <= m < old(self).cachev().len() && old(self).cachev()[m] == fv[i];
                        assert(sp_entry_ok(old(self).cachev()[m]));
                    }
                }
            },
        }
        let doc = match parse_document(query) {
            Ok(doc) => doc,
            Err(_) => {
                return Err(Error::SyntaxError);
            },
        };
        proof {
            assert(sp_parse(query@) == Some(doc));
        }
        match crate::validate::check_unsupported(&doc) {
            Ok(_) => (),
            Err(e) => {
                return Err(e);
            },
        }
        let kind = match determine_operation_kind(&doc, &self.config) {
            Ok(k) => k,
            Err(e) => {
                return Err(e);
            },
        };
        let name = operation_name(&doc);
        let mut extractor = FieldPathExtractor::new();
        match extractor.extract(&doc, &mut self.interner, &self.config) {
            Ok(_) => (),
            Err(e) => {
                return Err(e);
            },
        }
        let strings = self.interner.get_all_strings();
        let strings_len = strings.len();
        proof {
            assert(strings_len <= u32::MAX as usize);
        }
        let sorted = sort_paths(&extractor.field_paths);
        let (paths_arr, path_dir, path_types) = match encode_paths(&sorted, strings_len) {
            Ok(t) => t,
            Err(e) => {
                return Err(e);
            },
        };
        let cols = match encode_cols(&sorted, &extractor.column_usage, strings_len) {
            Ok(c) => c,
            Err(e) => {
                return Err(e);
            },
        };
        let ops = match encode_ops(&doc, &self.interner, &self.config) {
            Ok(o) => o,
            Err(e) => {
                return Err(e);
            },
        };
        let request = ResolutionRequest {
            query_id: id_hex.clone(),
            strings,
            paths: paths_arr,
            path_dir,
            path_types,
            cols,
            ops,
        };
        proof {
            assert(request@.strings =~= self.interner@);
            let sortedv = crate::encode::sp_views(sorted@);
            let slen = request@.strings.len() as int;
            crate::laws::lemma_cols_sound(sortedv, 0, extractor.column_usage@, slen, request@.cols);
            crate::laws::lemma_ops_arr_round_trip(
                doc.definitions@,
                0,
                self.interner@,
                self.config.insert_prefix@,
                self.config.update_prefix@,
                self.config.delete_prefix@,
                request@.ops,
            );
            assert forall|m: int|
                0 <= m < request@.cols.len() implies sortedv.contains(
                seq![(#[trigger] request@.cols[m]).0],
            ) by {
                let p = choose|p: int|
                    0 <= p < sortedv.len() && sortedv[p] =~= seq![request@.cols[m].0]
                        && sortedv[p].len() == 1;
            }
            assert(sp_dir(sortedv) == request@.path_dir);
            assert(sp_request_wf(request@));
        }
        let entry_name = match &name {
            Some(s) => Some(s.clone()),
            None => None,
        };
        let entry = CacheEntry {
            operation_kind: kind,
            operation_name: entry_name,
            original_query: String::from_str(query),
            field_paths: crate::types::clone_paths(&sorted),
            path_index: crate::encode::build_path_index(&sorted),
            column_usage: extractor.column_usage,
            request: request.duplicate(),
            stored_at: now_s,
        };
        proof {
            assert(entry@.field_paths =~= crate::encode::sp_views(sorted@));
            assert(entry@.path_index =~= Seq::new(
                crate::encode::sp_views(sorted@).len(),
                |i: int| (crate::encode::sp_views(sorted@)[i], i as usize),
            ));
        }
        let ghost pre_insert = self.cachev();
        self.cache.add_to_cache(h, entry);
        proof {
            lemma_cache_remove_member(pre_insert, h);
            let v1 = sp_cache_remove(pre_insert, h);
            if v1.len() > 0 {
                lemma_drop_first_member(v1);
            }
            let fv = self.cachev();
            assert forall|i: int| 0 <= i < fv.len() implies sp_entry_ok(#[trigger] fv[i]) by {
                if self.cache_max() > 0 && i == fv.len() - 1 {
                    assert(fv[i].0 == h && fv[i].1.request.query_id == sp_hex16(h));
                    assert(fv[i].1.request == request@);
                } else {
                    assert(pre_insert.contains(fv[i]));
                    let m = choose|m: int| 0 <= m < pre_insert.len() && pre_insert[m] == fv[i];
                    assert(sp_entry_ok(pre_insert[m]));
                }
            }
        }
        let a = AnalyzedQuery {
            query_id: id_hex,
            operation_kind: kind,
            operation_name: name,
            request,
        };
        Ok(a)
    }

    /// Hands a resolver response off to the downstream SQL generator. Only
    /// the interface is in scope here: the call retrieves the cached entry
    /// named by the response's query id and answers with a placeholder
    /// statement; an unknown or expired id is a `CacheMiss`.
    pub fn generate_sql(&self, response_query_id: &str, now_s: u64) -> (r: Result<
        (String, Vec<String>),
        Error,
    >)
        ensures
            match r {
                Ok(out) => {
                    &&& out.0@ == "SELECT 1"@
                    &&& out.1@ == Seq::<String>::empty()
                    &&& exists|i: int|
                        0 <= i < self.cachev().len() && (#[trigger] self.cachev()[i]).1.request.query_id
                            == response_query_id@ && !sp_expired(
                            self.cachev()[i].1.stored_at,
                            self.ttl(),
                            now_s,
                        )
                },
                Err(e) => {
                    &&& e == Error::CacheMiss
                    &&& forall|i: int|
                        0 <= i < self.cachev().len() && (#[trigger] self.cachev()[i]).1.request.query_id
                            == response_query_id@ ==> sp_expired(
                            self.cachev()[i].1.stored_at,
                            self.ttl(),
                            now_s,
                        )
                },
            },
    {
        match self.cache.find_fresh_query_id(response_query_id, now_s) {
            Some(_) => Ok((String::from_str("SELECT 1"), Vec::new())),
            None => Err(Error::CacheMiss),
        }
    }
}

} // verus!
