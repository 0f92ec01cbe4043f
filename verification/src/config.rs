//! Runtime configuration and the static operator table.
//!
//! The configuration names the mutation prefixes, cache bounds and related
//! knobs; the operator table maps filter-operator tokens of the query
//! language to SQL operator tokens, defaulting to `=` for unknown tokens.

use vstd::prelude::*;
use vstd::string::StringExecFns;
use crate::strutil::str_eq;

verus! {

/// Runtime configuration of the analysis front end, set once at
/// initialisation.
#[derive(Debug, Clone)]
pub struct Config {
    /// Field-name suffix that marks aggregate queries.
    pub aggregate_field_suffix: String,
    /// Argument name used for the primary key in single-record queries.
    pub primary_key_argument_name: String,
    /// Prefix of insert-mutation root fields.
    pub insert_prefix: String,
    /// Prefix of update-mutation root fields.
    pub update_prefix: String,
    /// Prefix of delete-mutation root fields.
    pub delete_prefix: String,
    /// Operator mappings merged over the static table, as pairs of query
    /// token and SQL token.
    pub operators: Vec<(String, String)>,
    /// Bound on the number of cached analyses.
    pub query_cache_max_size: usize,
    /// Seconds after which a cached analysis expires.
    pub query_cache_ttl_seconds: u64,
    /// Advisory cap on nesting depth, reserved for future checks.
    pub max_query_depth: usize,
}

impl Config {
    /// The stock configuration: conventional prefixes, a cache of a thousand
    /// entries and a ten-minute time to live.
    pub fn standard() -> (r: Config)
        ensures
            r.insert_prefix@ == "insert_"@,
            r.update_prefix@ == "update_"@,
            r.delete_prefix@ == "delete_"@,
            r.aggregate_field_suffix@ == "_aggregate"@,
            r.primary_key_argument_name@ == "id"@,
            r.operators@ == Seq::<(String, String)>::empty(),
            r.query_cache_max_size == 1000,
            r.query_cache_ttl_seconds == 600,
            r.max_query_depth == 10,
    {
        Config {
            aggregate_field_suffix: String::from_str("_aggregate"),
            primary_key_argument_name: String::from_str("id"),
            insert_prefix: String::from_str("insert_"),
            update_prefix: String::from_str("update_"),
            delete_prefix: String::from_str("delete_"),
            operators: Vec::new(),
            query_cache_max_size: 1000,
            query_cache_ttl_seconds: 600,
            max_query_depth: 10,
        }
    }
}

impl Default for Config {
    /// The stock configuration, also reachable through `Default`.
    fn default() -> (r: Config)
        ensures
            r.insert_prefix@ == "insert_"@,
            r.update_prefix@ == "update_"@,
            r.delete_prefix@ == "delete_"@,
    {
        Config::standard()
    }
}

/// The SQL token for a filter-operator token; unknown tokens map to `=`.
pub open spec fn sp_translate_operator(op: Seq<char>) -> Seq<char> {
    if op == "_and"@ {
        "AND"@
    } else if op == "_or"@ {
        "OR"@
    } else if op == "_not"@ {
        "NOT"@
    } else if op == "_eq"@ {
        "="@
    } else if op == "_neq"@ {
        "<>"@
    } else if op == "_gt"@ {
        ">"@
    } else if op == "_lt"@ {
        "<"@
    } else if op == "_gte"@ {
        ">="@
    } else if op == "_lte"@ {
        "<="@
    } else if op == "_like"@ {
        "LIKE"@
    } else if op == "_ilike"@ {
        "ILIKE"@
    } else if op == "_in"@ {
        "IN"@
    } else if op == "_nin"@ {
        "NOT IN"@
    } else if op == "_is_null"@ {
        "IS NULL"@
    } else if op == "_json_contains"@ {
        "@>"@
    } else if op == "_json_contained_in"@ {
        "<@"@
    } else if op == "_json_has_key"@ {
        "?"@
    } else if op == "_json_has_any_keys"@ {
        "?|"@
    } else if op == "_json_has_all_keys"@ {
        "?&"@
    } else if op == "_json_path"@ {
        "->"@
    } else if op == "_json_path_text"@ {
        "->>"@
    } else if op == "_is_json"@ {
        "IS JSON"@
    } else {
        "="@
    }
}

/// Translates a filter-operator token of the query language to its SQL
/// operator token; unknown tokens translate to `=`.
pub fn translate_operator(graphql_op: &str) -> (r: &'static str)
    ensures
        r@ == sp_translate_operator(graphql_op@),
{
    if str_eq(graphql_op, "_and") {
        "AND"
    } else if str_eq(graphql_op, "_or") {
        "OR"
    } else if str_eq(graphql_op, "_not") {
        "NOT"
    } else if str_eq(graphql_op, "_eq") {
        "="
    } else if str_eq(graphql_op, "_neq") {
        "<>"
    } else if str_eq(graphql_op, "_gt") {
        ">"
    } else if str_eq(graphql_op, "_lt") {
        "<"
    } else if str_eq(graphql_op, "_gte") {
        ">="
    } else if str_eq(graphql_op, "_lte") {
        "<="
    } else if str_eq(graphql_op, "_like") {
        "LIKE"
    } else if str_eq(graphql_op, "_ilike") {
        "ILIKE"
    } else if str_eq(graphql_op, "_in") {
        "IN"
    } else if str_eq(graphql_op, "_nin") {
        "NOT IN"
    } else if str_eq(graphql_op, "_is_null") {
        "IS NULL"
    } else if str_eq(graphql_op, "_json_contains") {
        "@>"
    } else if str_eq(graphql_op, "_json_contained_in") {
        "<@"
    } else if str_eq(graphql_op, "_json_has_key") {
        "?"
    } else if str_eq(graphql_op, "_json_has_any_keys") {
        "?|"
    } else if str_eq(graphql_op, "_json_has_all_keys") {
        "?&"
    } else if str_eq(graphql_op, "_json_path") {
        "->"
    } else if str_eq(graphql_op, "_json_path_text") {
        "->>"
    } else if str_eq(graphql_op, "_is_json") {
        "IS JSON"
    } else {
        "="
    }
}

} // verus!
