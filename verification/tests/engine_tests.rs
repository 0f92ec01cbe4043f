//! The analyzer end to end: exact wire encodings for the concrete
//! scenarios, the error taxonomy, the cache policy, and spot checks of the
//! invariants that the library proves in general.

use grasql::cache::{CacheEntry, QueryCache};
use grasql::pathmap::ColumnMap;
use grasql::config::{translate_operator, Config};
use grasql::engine::Engine;
use grasql::error::Error;
use grasql::fingerprint::generate_query_id;
use grasql::types::{GraphQLOperationKind, ResolutionRequest};

fn fresh_engine() -> Engine {
    Engine::new(Config::standard())
}

#[test]
fn scenario_simple_query_exact_encoding() {
    let mut engine = fresh_engine();
    let a = engine
        .parse_query("{ users { id name } }", 0)
        .expect("parse should succeed");

    assert_eq!(a.operation_kind, GraphQLOperationKind::Query);
    assert_eq!(
        a.request.strings,
        vec!["users".to_string(), "id".to_string(), "name".to_string()]
    );
    assert_eq!(a.request.paths, vec![1, 0]);
    assert_eq!(a.request.path_dir, vec![0]);
    assert_eq!(a.request.path_types, vec![0]);
    assert_eq!(a.request.cols, vec![(0, vec![1, 2])]);
    assert_eq!(a.request.ops, vec![(0, 0)]);
}

#[test]
fn scenario_nested_relationship_exact_encoding() {
    let mut engine = fresh_engine();
    let a = engine
        .parse_query("{ users { id profile { avatar } posts { title } } }", 0)
        .expect("parse should succeed");

    assert_eq!(
        a.request.strings,
        vec![
            "users".to_string(),
            "id".to_string(),
            "profile".to_string(),
            "avatar".to_string(),
            "posts".to_string(),
            "title".to_string(),
        ]
    );
    assert_eq!(a.request.paths, vec![1, 0, 2, 0, 2, 2, 0, 4]);
    assert_eq!(a.request.path_dir, vec![0, 2, 5]);
    assert_eq!(a.request.path_types, vec![0, 1, 1]);
    assert_eq!(a.request.cols, vec![(0, vec![1])]);
    assert_eq!(a.request.ops, vec![(0, 0)]);
}

#[test]
fn scenario_filter_with_operator_object() {
    let mut engine = fresh_engine();
    let a = engine
        .parse_query(
            "{ users(where: { profile: { avatar: { _eq: \"x\" } } }) { id } }",
            0,
        )
        .expect("parse should succeed");

    let strings = &a.request.strings;
    let idx = |name: &str| strings.iter().position(|s| s == name).unwrap() as u32;

    // decode the encoded paths back into id sequences
    let mut decoded: Vec<Vec<u32>> = Vec::new();
    for p in 0..a.request.path_dir.len() {
        let off = a.request.path_dir[p] as usize;
        let len = a.request.paths[off] as usize;
        decoded.push(a.request.paths[off + 1..off + 1 + len].to_vec());
    }

    assert!(decoded.contains(&vec![idx("users")]));
    assert!(decoded.contains(&vec![idx("users"), idx("profile")]));

    // the operator object makes `avatar` a column of the parent path, and
    // `id` is a column of the root table
    assert!(a.request.cols.iter().any(|(t, cs)| {
        *t == idx("users") && cs.contains(&idx("id"))
    }));
}

#[test]
fn scenario_insert_mutation() {
    let mut engine = fresh_engine();
    let a = engine
        .parse_query(
            "mutation { insert_users(objects: [{ name: \"a\", email: \"b\" }]) { returning { id name } } }",
            0,
        )
        .expect("parse should succeed");

    assert_eq!(a.operation_kind, GraphQLOperationKind::InsertMutation);

    let strings = &a.request.strings;
    let idx = |name: &str| strings.iter().position(|s| s == name).unwrap() as u32;

    assert_eq!(a.request.ops, vec![(idx("insert_users"), 1)]);

    let (_, cs) = a
        .request
        .cols
        .iter()
        .find(|(t, _)| *t == idx("insert_users"))
        .expect("insert_users should have columns");
    assert!(cs.contains(&idx("name")));
    assert!(cs.contains(&idx("email")));
    assert!(cs.contains(&idx("id")));
}

#[test]
fn scenario_update_mutation_with_set() {
    let mut engine = fresh_engine();
    let a = engine
        .parse_query(
            "mutation { update_users(where:{ id:{_eq:1} }, _set:{ name:\"x\", status:\"active\" }) { returning { id } } }",
            0,
        )
        .expect("parse should succeed");

    assert_eq!(a.operation_kind, GraphQLOperationKind::UpdateMutation);

    let strings = &a.request.strings;
    let idx = |name: &str| strings.iter().position(|s| s == name).unwrap() as u32;

    assert_eq!(a.request.ops[0].1, 2);

    let (_, cs) = a
        .request
        .cols
        .iter()
        .find(|(t, _)| *t == idx("update_users"))
        .expect("update_users should have columns");
    assert!(cs.contains(&idx("name")));
    assert!(cs.contains(&idx("status")));
    assert!(cs.contains(&idx("id")));
}

#[test]
fn scenario_directive_is_unsupported() {
    let mut engine = fresh_engine();
    let r = engine.parse_query("{ user @include(if: true) { id } }", 0);
    assert_eq!(r.unwrap_err(), Error::UnsupportedFeature);
}

#[test]
fn fragment_definition_is_unsupported() {
    let mut engine = fresh_engine();
    let r = engine.parse_query(
        "fragment UserFields on User { id } { users { id } }",
        0,
    );
    assert_eq!(r.unwrap_err(), Error::UnsupportedFeature);
}

#[test]
fn fragment_spread_is_unsupported() {
    let mut engine = fresh_engine();
    let r = engine.parse_query(
        "fragment UserFields on User { id } { users { ...UserFields } }",
        0,
    );
    assert_eq!(r.unwrap_err(), Error::UnsupportedFeature);
}

#[test]
fn inline_fragment_is_unsupported() {
    let mut engine = fresh_engine();
    let r = engine.parse_query("{ users { ... on User { id } } }", 0);
    assert_eq!(r.unwrap_err(), Error::UnsupportedFeature);
}

#[test]
fn syntax_error_is_reported() {
    let mut engine = fresh_engine();
    let r = engine.parse_query("{ users { id ", 0);
    assert_eq!(r.unwrap_err(), Error::SyntaxError);
}

#[test]
fn empty_document_is_reported() {
    let mut engine = fresh_engine();
    let r = engine.parse_query("", 0);
    assert_eq!(r.unwrap_err(), Error::EmptyDocument);
}

#[test]
fn set_must_be_an_object() {
    let mut engine = fresh_engine();
    let r = engine.parse_query(
        "mutation { update_users(_set: 5) { returning { id } } }",
        0,
    );
    assert_eq!(r.unwrap_err(), Error::InvalidInput);
}

#[test]
fn singular_object_rejects_a_list() {
    let mut engine = fresh_engine();
    let r = engine.parse_query(
        "mutation { insert_users(object: [{ name: \"a\" }]) { returning { id } } }",
        0,
    );
    assert_eq!(r.unwrap_err(), Error::InvalidInput);
}

#[test]
fn unknown_query_id_is_a_cache_miss() {
    let engine = fresh_engine();
    let r = engine.generate_sql("0123456789abcdef", 0);
    assert_eq!(r.unwrap_err(), Error::CacheMiss);
}

#[test]
fn query_id_is_sixteen_lowercase_hex_characters() {
    let id = generate_query_id("{ users { id } }");
    assert_eq!(id.len(), 16);
    assert!(id.chars().all(|c| c.is_ascii_hexdigit() && !c.is_ascii_uppercase()));

    // a pure function of the raw bytes
    assert_eq!(id, generate_query_id("{ users { id } }"));
    assert_ne!(id, generate_query_id("{ posts { id } }"));
}

#[test]
fn repeated_analysis_is_byte_identical() {
    let mut engine = fresh_engine();
    let q = "{ users { id name posts { title } } }";
    let a1 = engine.parse_query(q, 0).expect("first parse");
    let a2 = engine.parse_query(q, 1).expect("second parse");

    assert_eq!(a1.query_id, a2.query_id);
    assert_eq!(a1.operation_kind, a2.operation_kind);
    assert_eq!(a1.operation_name, a2.operation_name);
    assert_eq!(a1.request.strings, a2.request.strings);
    assert_eq!(a1.request.paths, a2.request.paths);
    assert_eq!(a1.request.path_dir, a2.request.path_dir);
    assert_eq!(a1.request.path_types, a2.request.path_types);
    assert_eq!(a1.request.cols, a2.request.cols);
    assert_eq!(a1.request.ops, a2.request.ops);
}

#[test]
fn cache_hit_within_ttl_returns_identical_output() {
    let mut engine = fresh_engine();
    let q = "{ users { id } }";
    let a1 = engine.parse_query(q, 100).expect("first parse");
    // well within the default 600-second time to live
    let a2 = engine.parse_query(q, 400).expect("second parse");
    assert_eq!(a1.request.paths, a2.request.paths);
    assert_eq!(a1.request.strings, a2.request.strings);
    assert_eq!(a1.request.query_id, a2.request.query_id);
}

#[test]
fn expired_entry_is_reanalyzed_identically() {
    let mut engine = fresh_engine();
    let q = "{ users { id } }";
    let a1 = engine.parse_query(q, 0).expect("first parse");
    // past the default 600-second time to live: a miss and a fresh analysis
    let a2 = engine.parse_query(q, 601).expect("second parse");
    assert_eq!(a1.request.paths, a2.request.paths);
    assert_eq!(a1.request.query_id, a2.request.query_id);
}

#[test]
fn path_types_match_decoded_lengths() {
    let mut engine = fresh_engine();
    let a = engine
        .parse_query(
            "{ users { id profile { avatar settings { theme } } } posts { title } }",
            0,
        )
        .expect("parse should succeed");

    for p in 0..a.request.path_dir.len() {
        let off = a.request.path_dir[p] as usize;
        let len = a.request.paths[off] as usize;
        assert_eq!(
            a.request.path_types[p] == 0,
            len == 1,
            "path type must be 0 exactly for single-segment paths"
        );
    }
}

#[test]
fn cols_entries_are_nonempty_root_tables() {
    let mut engine = fresh_engine();
    let a = engine
        .parse_query(
            "{ users(where: { posts: { title: { _eq: \"t\" } } }) { id posts { title } } }",
            0,
        )
        .expect("parse should succeed");

    for (t, cs) in &a.request.cols {
        assert!(!cs.is_empty(), "column sets are never empty");
        // [t] must be an encoded path with type 0
        let mut found = false;
        for p in 0..a.request.path_dir.len() {
            let off = a.request.path_dir[p] as usize;
            let len = a.request.paths[off] as usize;
            if len == 1 && a.request.paths[off + 1] == *t {
                assert_eq!(a.request.path_types[p], 0);
                found = true;
            }
        }
        assert!(found, "every cols table is an encoded single-segment path");
    }
}

#[test]
fn every_index_is_inside_the_string_table() {
    let mut engine = fresh_engine();
    let a = engine
        .parse_query(
            "mutation { insert_users(objects: [{ name: \"n\" }]) { returning { id } } }",
            0,
        )
        .expect("parse should succeed");

    let n = a.request.strings.len() as u32;
    for p in 0..a.request.path_dir.len() {
        let off = a.request.path_dir[p] as usize;
        let len = a.request.paths[off] as usize;
        for k in 0..len {
            assert!(a.request.paths[off + 1 + k] < n);
        }
    }
    for (t, cs) in &a.request.cols {
        assert!(*t < n);
        for c in cs {
            assert!(*c < n);
        }
    }
    for (f, _) in &a.request.ops {
        assert!(*f < n);
    }
}

#[test]
fn ops_reclassify_through_the_string_table() {
    let mut engine = fresh_engine();
    let a = engine
        .parse_query(
            "mutation { insert_a(objects: [{x: 1}]) { returning { id } } update_b(_set: {y: 2}) { returning { id } } delete_c(where: {id: {_eq: 1}}) { returning { id } } other_d { id } }",
            0,
        )
        .expect("parse should succeed");

    assert_eq!(a.request.ops.len(), 4);
    for (f, t) in &a.request.ops {
        let name = &a.request.strings[*f as usize];
        let expected = if name.starts_with("insert_") {
            1
        } else if name.starts_with("update_") {
            2
        } else if name.starts_with("delete_") {
            3
        } else {
            1
        };
        assert_eq!(*t, expected, "re-classifying '{}' must agree", name);
    }
}

#[test]
fn operator_table_translates_exactly() {
    assert_eq!(translate_operator("_eq"), "=");
    assert_eq!(translate_operator("_neq"), "<>");
    assert_eq!(translate_operator("_gt"), ">");
    assert_eq!(translate_operator("_lt"), "<");
    assert_eq!(translate_operator("_gte"), ">=");
    assert_eq!(translate_operator("_lte"), "<=");
    assert_eq!(translate_operator("_like"), "LIKE");
    assert_eq!(translate_operator("_ilike"), "ILIKE");
    assert_eq!(translate_operator("_in"), "IN");
    assert_eq!(translate_operator("_nin"), "NOT IN");
    assert_eq!(translate_operator("_is_null"), "IS NULL");
    assert_eq!(translate_operator("_and"), "AND");
    assert_eq!(translate_operator("_or"), "OR");
    assert_eq!(translate_operator("_not"), "NOT");
    assert_eq!(translate_operator("_json_contains"), "@>");
    assert_eq!(translate_operator("_json_contained_in"), "<@");
    assert_eq!(translate_operator("_json_has_key"), "?");
    assert_eq!(translate_operator("_json_has_any_keys"), "?|");
    assert_eq!(translate_operator("_json_has_all_keys"), "?&");
    assert_eq!(translate_operator("_json_path"), "->");
    assert_eq!(translate_operator("_json_path_text"), "->>");
    assert_eq!(translate_operator("_is_json"), "IS JSON");
    assert_eq!(translate_operator("_unknown_token"), "=");
}

fn stub_entry(text: &str, stored_at: u64) -> CacheEntry {
    CacheEntry {
        operation_kind: GraphQLOperationKind::Query,
        operation_name: None,
        original_query: text.to_string(),
        field_paths: Vec::new(),
        path_index: Vec::new(),
        column_usage: ColumnMap::new(),
        request: ResolutionRequest::new(),
        stored_at,
    }
}

#[test]
fn test_basic_cache_functionality() {
    let query = "{ users { id name } }";
    let mut cache = QueryCache::new(1000, 600);

    cache.add_to_cache(42, stub_entry(query, 0));
    let got = cache.get_from_cache(42, 10).expect("entry should be live");
    assert_eq!(got.operation_kind, GraphQLOperationKind::Query);
    assert_eq!(got.original_query, query);
    assert!(cache.get_from_cache(7, 10).is_none());
}

#[test]
fn cache_expires_entries_after_ttl() {
    let mut cache = QueryCache::new(1000, 600);
    cache.add_to_cache(1, stub_entry("q", 100));

    assert!(cache.get_from_cache(1, 699).is_some());
    // re-insert to restore the entry consumed above, then let it expire
    cache.add_to_cache(1, stub_entry("q", 100));
    assert!(cache.get_from_cache(1, 700).is_none());
    // lazy expiry dropped it for good
    assert!(cache.get_from_cache(1, 100).is_none());
}

#[test]
fn cache_evicts_least_recently_used() {
    let mut cache = QueryCache::new(2, 600);
    cache.add_to_cache(1, stub_entry("a", 0));
    cache.add_to_cache(2, stub_entry("b", 0));
    // touching key 1 makes key 2 the least recently used
    assert!(cache.get_from_cache(1, 1).is_some());
    cache.add_to_cache(3, stub_entry("c", 0));

    assert!(cache.get_from_cache(2, 1).is_none());
    assert!(cache.get_from_cache(1, 1).is_some());
    assert!(cache.get_from_cache(3, 1).is_some());
}
