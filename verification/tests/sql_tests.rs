//! The SQL hand-off stub: reachable only for analyses that are actually
//! cached, and answering with a placeholder statement.

use grasql::config::Config;
use grasql::engine::Engine;

#[test]
fn test_basic_sql_generation() {
    let mut engine = Engine::new(Config::standard());
    let analysis = engine
        .parse_query("{ test { id } }", 0)
        .expect("parse should succeed");

    let (sql, params) = engine
        .generate_sql(&analysis.query_id, 0)
        .expect("cached query id should be found");
    assert!(sql.contains("SELECT"));
    assert!(params.is_empty());
}

#[test]
fn test_sql_generation_with_cached_document() {
    let query = "{ users { id name } }";
    let mut engine = Engine::new(Config::standard());
    let analysis = engine
        .parse_query(query, 0)
        .expect("Failed to parse valid GraphQL query");

    let r = engine.generate_sql(&analysis.query_id, 1);
    assert!(r.is_ok(), "Document should be accessible from cache");
    let (sql, _) = r.unwrap();
    assert!(sql.contains("SELECT"));
}
