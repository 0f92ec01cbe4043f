//! Resolution-request generation for a gallery of sample queries: basic
//! selections, arguments, relationships, filtering, pagination, sorting,
//! aggregation, and all three mutation families.

use grasql::config::Config;
use grasql::engine::Engine;
use grasql::extract::FieldPathExtractor;
use grasql::interning::Interner;
use grasql::parse::parse_document;
use grasql::types::{GraphQLOperationKind, ResolutionRequest};

fn analyze(query: &str) -> grasql::engine::AnalyzedQuery {
    let mut engine = Engine::new(Config::standard());
    engine.parse_query(query, 0).expect("Failed to parse query")
}

/// Checks the strings table, the basic array shapes and the operation entry.
fn verify_basic_structure(
    request: &ResolutionRequest,
    expected_strings: &[&str],
    expected_op_type: u32,
    expected_root_field: &str,
) {
    for string in expected_strings {
        assert!(
            request.strings.iter().any(|s| s == string),
            "Missing expected string: {}",
            string
        );
    }

    assert!(!request.query_id.is_empty(), "query_id should not be empty");
    assert!(!request.paths.is_empty(), "paths should not be empty");
    assert!(!request.path_dir.is_empty(), "path_dir should not be empty");
    assert!(
        !request.path_types.is_empty(),
        "path_types should not be empty"
    );

    let op_found = request.ops.iter().any(|(field_idx, op_type)| {
        let field_name = &request.strings[*field_idx as usize];
        *op_type == expected_op_type && field_name == expected_root_field
    });

    assert!(
        op_found,
        "Expected operation type {} for field {} not found",
        expected_op_type, expected_root_field
    );
}

/// Finds the path id of the single-segment path for `table_idx`.
fn find_path_id_for_table(request: &ResolutionRequest, table_idx: u32) -> Option<usize> {
    for path_id in 0..request.path_types.len() {
        if request.path_types[path_id] == 0 {
            let start_offset = request.path_dir[path_id] as usize;
            let path_length = request.paths[start_offset] as usize;
            let path = &request.paths[start_offset + 1..start_offset + 1 + path_length];

            if path.contains(&table_idx) {
                return Some(path_id);
            }
        }
    }

    None
}

/// Checks that `table` stands among the encoded paths as a root table with
/// observed columns.
fn verify_table_path(request: &ResolutionRequest, table: &str) {
    let table_idx = request
        .strings
        .iter()
        .position(|s| s == table)
        .unwrap_or_else(|| panic!("Table '{}' not found in strings", table)) as u32;

    let path_id = find_path_id_for_table(request, table_idx);

    assert!(path_id.is_some(), "No path found for table {}", table);
    let path_id = path_id.unwrap();

    assert_eq!(
        request.path_types[path_id], 0,
        "Path for '{}' should be a table (type 0)",
        table
    );

    let table_cols = request.cols.iter().find(|(idx, _)| *idx == table_idx);

    assert!(table_cols.is_some(), "No columns found for table {}", table);
}

/// Checks that a relationship path containing both names is encoded with
/// type 1.
fn verify_relationship_path(request: &ResolutionRequest, parent: &str, child: &str) {
    let parent_idx = request
        .strings
        .iter()
        .position(|s| s == parent)
        .unwrap_or_else(|| panic!("Parent '{}' not found in strings", parent)) as u32;

    let child_idx = request
        .strings
        .iter()
        .position(|s| s == child)
        .unwrap_or_else(|| panic!("Child '{}' not found in strings", child)) as u32;

    let parent_path_id = find_path_id_for_table(request, parent_idx);
    assert!(
        parent_path_id.is_some(),
        "No path found for parent {}",
        parent
    );

    let mut relationship_path_id = None;
    for path_id in 0..request.path_types.len() {
        if request.path_types[path_id] == 1 {
            let start_offset = request.path_dir[path_id] as usize;
            let path_length = request.paths[start_offset] as usize;
            let path = &request.paths[start_offset + 1..start_offset + 1 + path_length];

            if path.contains(&parent_idx) && path.contains(&child_idx) {
                relationship_path_id = Some(path_id);
                break;
            }
        }
    }

    assert!(
        relationship_path_id.is_some(),
        "No relationship path found between {} and {}",
        parent,
        child
    );
}

/// Checks the observed columns of a table or relationship against the
/// extractor's column-usage map: the entry whose path ends in `table` must
/// contain every expected column.
fn verify_columns(query: &str, table: &str, columns: &[&str]) {
    let config = Config::standard();
    let doc = parse_document(query).expect("query should parse");
    let mut interner = Interner::new();
    let mut extractor = FieldPathExtractor::new();
    extractor
        .extract(&doc, &mut interner, &config)
        .expect("extraction should succeed");

    let table_id = interner.intern_str(table);
    let n = extractor.column_usage.len();
    let mut found = None;
    for i in 0..n {
        let (path, _) = extractor.column_usage.get(i);
        let len = path.len();
        if len > 0 && path.index(len - 1) == table_id {
            found = Some(i);
            break;
        }
    }

    let entry = found.unwrap_or_else(|| panic!("No columns found for table {}", table));
    let (_, cols) = extractor.column_usage.get(entry);

    for col in columns {
        let col_id = interner.intern_str(col);
        assert!(
            cols.contains(&col_id),
            "Column '{}' not found for table '{}'",
            col,
            table
        );
    }
}

#[test]
fn test_sample_01_simple_query() {
    let query = r#"{
      users {
        id
        name
      }
    }"#;

    let analysis = analyze(query);
    assert_eq!(analysis.operation_kind, GraphQLOperationKind::Query);
    verify_basic_structure(&analysis.request, &["users", "id", "name"], 0, "users");
    verify_table_path(&analysis.request, "users");
    verify_columns(query, "users", &["id", "name"]);
}

#[test]
fn test_sample_02_query_with_arguments() {
    let query = r#"{
      user(id: 123) {
        id
        name
      }
    }"#;

    let analysis = analyze(query);
    assert_eq!(analysis.operation_kind, GraphQLOperationKind::Query);
    verify_basic_structure(&analysis.request, &["user", "id", "name"], 0, "user");
    verify_table_path(&analysis.request, "user");
    verify_columns(query, "user", &["id", "name"]);
}

#[test]
fn test_sample_03_basic_relationship() {
    let query = r#"{
      users {
        id
        posts {
          title
        }
      }
    }"#;

    let analysis = analyze(query);
    assert_eq!(analysis.operation_kind, GraphQLOperationKind::Query);
    verify_basic_structure(
        &analysis.request,
        &["users", "id", "posts", "title"],
        0,
        "users",
    );
    verify_table_path(&analysis.request, "users");
    verify_relationship_path(&analysis.request, "users", "posts");
    verify_columns(query, "users", &["id"]);
    verify_columns(query, "posts", &["title"]);
}

#[test]
fn test_sample_13_many_to_many_relationship() {
    let query = r#"{
      users {
        id
        name
        categories {
          name
        }
      }
    }"#;

    let analysis = analyze(query);
    assert_eq!(analysis.operation_kind, GraphQLOperationKind::Query);
    verify_basic_structure(
        &analysis.request,
        &["users", "id", "name", "categories"],
        0,
        "users",
    );
    verify_table_path(&analysis.request, "users");
    verify_relationship_path(&analysis.request, "users", "categories");
    verify_columns(query, "users", &["id", "name"]);
    verify_columns(query, "categories", &["name"]);
}

#[test]
fn test_sample_04_basic_filtering() {
    let query = r#"{
      users(where: { name: { _eq: "John" } }) {
        id
        name
      }
    }"#;

    let analysis = analyze(query);
    assert_eq!(analysis.operation_kind, GraphQLOperationKind::Query);
    verify_basic_structure(&analysis.request, &["users", "id", "name"], 0, "users");
    verify_table_path(&analysis.request, "users");
    verify_columns(query, "users", &["id", "name"]);
}

#[test]
fn test_sample_05_nested_filtering() {
    let query = r#"{
      users(where: { posts: { title: { _like: "%test%" } } }) {
        id
      }
    }"#;

    let analysis = analyze(query);
    assert_eq!(analysis.operation_kind, GraphQLOperationKind::Query);
    verify_basic_structure(
        &analysis.request,
        &["users", "id", "posts", "title"],
        0,
        "users",
    );
    verify_table_path(&analysis.request, "users");
    verify_relationship_path(&analysis.request, "users", "posts");
    verify_columns(query, "users", &["id"]);
    verify_columns(query, "posts", &["title"]);
}

#[test]
fn test_sample_12_complex_boolean_logic() {
    let query = r#"{
      users(
        where: {
          _or: [
            { name: { _like: "%John%" } }
            { _and: [{ age: { _gt: 30 } }, { active: { _eq: true } }] }
          ]
        }
      ) {
        id
        name
        age
      }
    }"#;

    let analysis = analyze(query);
    assert_eq!(analysis.operation_kind, GraphQLOperationKind::Query);
    verify_basic_structure(
        &analysis.request,
        &["users", "id", "name", "age", "active"],
        0,
        "users",
    );
    verify_table_path(&analysis.request, "users");
    verify_columns(query, "users", &["id", "name", "age"]);
}

#[test]
fn test_sample_06_pagination() {
    let query = r#"{
      users(limit: 10, offset: 20) {
        id
        name
      }
    }"#;

    let analysis = analyze(query);
    assert_eq!(analysis.operation_kind, GraphQLOperationKind::Query);
    verify_basic_structure(&analysis.request, &["users", "id", "name"], 0, "users");
    verify_table_path(&analysis.request, "users");
    verify_columns(query, "users", &["id", "name"]);
}

#[test]
fn test_sample_07_sorting() {
    let query = r#"{
      users(order_by: { name: asc }) {
        id
        name
      }
    }"#;

    let analysis = analyze(query);
    assert_eq!(analysis.operation_kind, GraphQLOperationKind::Query);
    verify_basic_structure(&analysis.request, &["users", "id", "name"], 0, "users");
    verify_table_path(&analysis.request, "users");
    verify_columns(query, "users", &["id", "name"]);
}

#[test]
fn test_sample_08_basic_aggregation() {
    let query = r#"{
      users_aggregate {
        aggregate {
          count
        }
      }
    }"#;

    let analysis = analyze(query);
    assert_eq!(analysis.operation_kind, GraphQLOperationKind::Query);
    verify_basic_structure(
        &analysis.request,
        &["users_aggregate", "aggregate", "count"],
        0,
        "users_aggregate",
    );
    verify_table_path(&analysis.request, "users_aggregate");
}

#[test]
fn test_sample_09_aggregation_with_nodes() {
    let query = r#"{
      users_aggregate {
        aggregate {
          count
          max {
            id
          }
        }
        nodes {
          name
        }
      }
    }"#;

    let analysis = analyze(query);
    assert_eq!(analysis.operation_kind, GraphQLOperationKind::Query);
    verify_basic_structure(
        &analysis.request,
        &[
            "users_aggregate",
            "aggregate",
            "count",
            "max",
            "id",
            "nodes",
            "name",
        ],
        0,
        "users_aggregate",
    );
    verify_table_path(&analysis.request, "users_aggregate");
    verify_columns(query, "users_aggregate", &["name"]);
}

#[test]
fn test_sample_10_nested_aggregation() {
    let query = r#"{
      users {
        id
        name
        posts_aggregate {
          aggregate {
            count
          }
        }
      }
    }"#;

    let analysis = analyze(query);
    assert_eq!(analysis.operation_kind, GraphQLOperationKind::Query);
    verify_basic_structure(
        &analysis.request,
        &[
            "users",
            "id",
            "name",
            "posts_aggregate",
            "aggregate",
            "count",
        ],
        0,
        "users",
    );
    verify_table_path(&analysis.request, "users");
    verify_relationship_path(&analysis.request, "users", "posts_aggregate");
    verify_columns(query, "users", &["id", "name"]);
}

#[test]
fn test_sample_11_distinct_queries() {
    let query = r#"{
      users(distinct_on: name) {
        id
        name
      }
    }"#;

    let analysis = analyze(query);
    assert_eq!(analysis.operation_kind, GraphQLOperationKind::Query);
    verify_basic_structure(&analysis.request, &["users", "id", "name"], 0, "users");
    verify_table_path(&analysis.request, "users");
    verify_columns(query, "users", &["id", "name"]);
}

#[test]
fn test_sample_14_complex_combined_query() {
    let query = r#"{
      users(
        where: { age: { _gt: 21 } }
        order_by: { name: asc }
        limit: 5
        offset: 10
      ) {
        id
        name
        posts(
          where: { published: { _eq: true } }
          order_by: { created_at: desc }
          limit: 3
        ) {
          title
          content
        }
      }
    }"#;

    let analysis = analyze(query);
    assert_eq!(analysis.operation_kind, GraphQLOperationKind::Query);
    verify_basic_structure(
        &analysis.request,
        &[
            "users",
            "id",
            "name",
            "posts",
            "title",
            "content",
            "age",
            "published",
        ],
        0,
        "users",
    );
    verify_table_path(&analysis.request, "users");
    verify_relationship_path(&analysis.request, "users", "posts");
    verify_columns(query, "users", &["id", "name", "age"]);
    verify_columns(query, "posts", &["title", "content", "published"]);
}

#[test]
fn test_sample_15_insert_mutation() {
    let query = r#"mutation {
      insert_users_one(
        object: { name: "John Doe", email: "john@example.com", age: 30 }
      ) {
        id
        name
        email
      }
    }"#;

    let analysis = analyze(query);
    assert_eq!(analysis.operation_kind, GraphQLOperationKind::InsertMutation);
    verify_basic_structure(
        &analysis.request,
        &["insert_users_one", "id", "name", "email", "age"],
        1,
        "insert_users_one",
    );
    verify_table_path(&analysis.request, "insert_users_one");
    verify_columns(query, "insert_users_one", &["id", "name", "email"]);
}

#[test]
fn test_sample_16_batch_insert_mutation() {
    let query = r#"mutation {
      insert_users(
        objects: [
          { name: "John Doe", email: "john@example.com", age: 30 }
          { name: "Jane Smith", email: "jane@example.com", age: 28 }
        ]
      ) {
        affected_rows
        returning {
          id
          name
        }
      }
    }"#;

    let analysis = analyze(query);
    assert_eq!(analysis.operation_kind, GraphQLOperationKind::InsertMutation);
    verify_basic_structure(
        &analysis.request,
        &[
            "insert_users",
            "affected_rows",
            "returning",
            "id",
            "name",
            "email",
            "age",
        ],
        1,
        "insert_users",
    );
    verify_table_path(&analysis.request, "insert_users");
    verify_columns(query, "insert_users", &["id", "name"]);
}

#[test]
fn test_sample_17_update_mutation() {
    let query = r#"mutation {
      update_users_by_pk(
        pk_columns: { id: 123 }
        _set: { name: "Updated Name", email: "updated@example.com" }
      ) {
        id
        name
        email
        updated_at
      }
    }"#;

    let analysis = analyze(query);
    assert_eq!(analysis.operation_kind, GraphQLOperationKind::UpdateMutation);
    verify_basic_structure(
        &analysis.request,
        &["update_users_by_pk", "id", "name", "email", "updated_at"],
        2,
        "update_users_by_pk",
    );
    verify_table_path(&analysis.request, "update_users_by_pk");
    verify_columns(
        query,
        "update_users_by_pk",
        &["id", "name", "email", "updated_at"],
    );
}

#[test]
fn test_sample_18_batch_update_mutation() {
    let query = r#"mutation {
      update_users(
        where: { active: { _eq: false } }
        _set: { active: true, updated_at: "2023-06-15T12:00:00Z" }
      ) {
        affected_rows
        returning {
          id
          name
          active
          updated_at
        }
      }
    }"#;

    let analysis = analyze(query);
    assert_eq!(analysis.operation_kind, GraphQLOperationKind::UpdateMutation);
    verify_basic_structure(
        &analysis.request,
        &[
            "update_users",
            "affected_rows",
            "returning",
            "id",
            "name",
            "active",
            "updated_at",
        ],
        2,
        "update_users",
    );
    verify_table_path(&analysis.request, "update_users");
    verify_columns(
        query,
        "update_users",
        &["id", "name", "active", "updated_at"],
    );
}

#[test]
fn test_sample_19_delete_mutation() {
    let query = r#"mutation {
      delete_users_by_pk(id: 123) {
        id
        name
      }
    }"#;

    let analysis = analyze(query);
    assert_eq!(analysis.operation_kind, GraphQLOperationKind::DeleteMutation);
    verify_basic_structure(
        &analysis.request,
        &["delete_users_by_pk", "id", "name"],
        3,
        "delete_users_by_pk",
    );
    verify_table_path(&analysis.request, "delete_users_by_pk");
    verify_columns(query, "delete_users_by_pk", &["id", "name"]);
}

#[test]
fn test_sample_20_batch_delete_mutation() {
    let query = r#"mutation {
      delete_users(
        where: {
          last_login: { _lt: "2022-01-01T00:00:00Z" }
          active: { _eq: false }
        }
      ) {
        affected_rows
        returning {
          id
          name
          email
        }
      }
    }"#;

    let analysis = analyze(query);
    assert_eq!(analysis.operation_kind, GraphQLOperationKind::DeleteMutation);
    verify_basic_structure(
        &analysis.request,
        &[
            "delete_users",
            "affected_rows",
            "returning",
            "id",
            "name",
            "email",
            "last_login",
            "active",
        ],
        3,
        "delete_users",
    );
    verify_table_path(&analysis.request, "delete_users");
    verify_columns(query, "delete_users", &["id", "name", "email"]);
}
