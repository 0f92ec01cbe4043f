//! End-to-end analysis: deep nesting, filters, aggregations, mutations,
//! multiple operations, and the shape of the resolution request.

use grasql::config::Config;
use grasql::engine::Engine;
use grasql::extract::FieldPathExtractor;
use grasql::interning::Interner;
use grasql::parse::parse_document;
use grasql::types::{FieldPath, GraphQLOperationKind};

fn create_path(interner: &mut Interner, segments: &[&str]) -> FieldPath {
    let mut path = FieldPath::new();
    for &segment in segments {
        path.push(interner.intern_str(segment));
    }
    path
}

struct Extracted {
    interner: Interner,
    extractor: FieldPathExtractor,
}

fn extract_field_paths(query: &str) -> Extracted {
    let config = Config::standard();
    let doc = parse_document(query).expect("query should parse");
    let mut interner = Interner::new();
    let mut extractor = FieldPathExtractor::new();
    extractor
        .extract(&doc, &mut interner, &config)
        .expect("extraction should succeed");
    Extracted { interner, extractor }
}

fn assert_path_exists(ex: &mut Extracted, segments: &[&str]) {
    let path = create_path(&mut ex.interner, segments);
    assert!(
        ex.extractor.field_paths.contains(&path),
        "Expected path {:?} not found in extracted paths",
        segments
    );
}

#[test]
fn test_deeply_nested_query() {
    let query = r#"
    {
        users {
            id
            profile {
                avatar
                settings {
                    theme
                    notifications {
                        email
                        push {
                            enabled
                            frequency
                        }
                    }
                }
            }
            posts {
                id
                comments {
                    id
                    replies {
                        id
                        author {
                            id
                            name
                        }
                    }
                }
            }
        }
    }
    "#;

    let mut ex = extract_field_paths(query);

    assert_path_exists(&mut ex, &["users"]);
    assert_path_exists(&mut ex, &["users", "profile"]);
    assert_path_exists(&mut ex, &["users", "profile", "settings"]);
    assert_path_exists(&mut ex, &["users", "profile", "settings", "notifications"]);
    assert_path_exists(
        &mut ex,
        &["users", "profile", "settings", "notifications", "push"],
    );
    assert_path_exists(&mut ex, &["users", "posts"]);
    assert_path_exists(&mut ex, &["users", "posts", "comments"]);
    assert_path_exists(&mut ex, &["users", "posts", "comments", "replies"]);
    assert_path_exists(&mut ex, &["users", "posts", "comments", "replies", "author"]);
}

#[test]
fn test_complex_filters() {
    let query = r#"
    {
        users(where: {
            _and: [
                { name: { _like: "%John%" } },
                { email: { _ilike: "%example.com" } },
                {
                    _or: [
                        { age: { _gt: 18 } },
                        { status: { _eq: "ACTIVE" } }
                    ]
                },
                {
                    profile: {
                        _and: [
                            { verified: { _eq: true } },
                            {
                                location: {
                                    city: { _eq: "New York" }
                                }
                            }
                        ]
                    }
                },
                {
                    posts: {
                        _in: [1, 2, 3]
                    }
                },
                {
                    posts: {
                        published: { _eq: true },
                        comments: {
                            content: { _like: "%Great%" }
                        }
                    }
                }
            ]
        }) {
            id
            name
        }
    }
    "#;

    let mut ex = extract_field_paths(query);

    assert_path_exists(&mut ex, &["users"]);
    assert_path_exists(&mut ex, &["users", "profile"]);
    assert_path_exists(&mut ex, &["users", "profile", "location"]);
    assert_path_exists(&mut ex, &["users", "posts"]);
    assert_path_exists(&mut ex, &["users", "posts", "comments"]);
}

#[test]
fn test_aggregations() {
    let query = r#"
    {
        users_aggregate {
            aggregate {
                count
                sum {
                    age
                    score
                }
                avg {
                    age
                }
                max {
                    age
                }
                min {
                    age
                }
            }
            nodes {
                id
                name
            }
        }
        posts_aggregate(where: { author: { name: { _eq: "John" } } }) {
            aggregate {
                count
            }
        }
    }
    "#;

    let mut ex = extract_field_paths(query);

    assert_path_exists(&mut ex, &["users_aggregate"]);
    assert_path_exists(&mut ex, &["posts_aggregate"]);
    assert_path_exists(&mut ex, &["posts_aggregate", "author"]);
}

#[test]
fn test_pagination_and_sorting() {
    let query = r#"
    {
        users(
            limit: 10,
            offset: 20,
            order_by: { name: asc, created_at: desc }
        ) {
            id
            name
        }
        posts(
            limit: 5,
            order_by: [
                { published_date: desc },
                { title: asc }
            ]
        ) {
            id
            title
        }
    }
    "#;

    let mut ex = extract_field_paths(query);

    assert_path_exists(&mut ex, &["users"]);
    assert_path_exists(&mut ex, &["posts"]);
}

#[test]
fn test_combined_features() {
    let query = r#"
    {
        users(
            where: {
                posts: {
                    comments_aggregate: {
                        aggregate: {
                            count: { _gt: 5 }
                        }
                    }
                }
            },
            limit: 10,
            offset: 20,
            order_by: { name: asc }
        ) {
            id
            name
            posts(limit: 3, order_by: { created_at: desc }) {
                title
                comments_aggregate {
                    aggregate {
                        count
                    }
                }
            }
            profile {
                avatar
            }
        }
    }
    "#;

    let mut ex = extract_field_paths(query);

    assert_path_exists(&mut ex, &["users"]);
    assert_path_exists(&mut ex, &["users", "posts"]);
    assert_path_exists(&mut ex, &["users", "posts", "comments_aggregate"]);
    assert_path_exists(&mut ex, &["users", "profile"]);
}

#[test]
fn test_mutations() {
    let query_insert = r#"
    mutation {
        insert_users(
            objects: [
                { name: "John", email: "john@example.com" },
                { name: "Jane", email: "jane@example.com" }
            ]
        ) {
            returning {
                id
                name
                profile {
                    avatar
                }
            }
            affected_rows
        }
        update_posts(
            where: { author_id: { _eq: 123 } },
            _set: { published: true }
        ) {
            returning {
                id
                title
            }
        }
    }
    "#;

    let mut ex = extract_field_paths(query_insert);

    assert_path_exists(&mut ex, &["insert_users"]);
    assert_path_exists(&mut ex, &["insert_users", "returning"]);
    assert_path_exists(&mut ex, &["insert_users", "returning", "profile"]);
    assert_path_exists(&mut ex, &["update_posts"]);
    assert_path_exists(&mut ex, &["update_posts", "returning"]);
}

#[test]
fn test_variables() {
    let query = r#"
    query GetUsers($limit: Int!, $offset: Int, $filter: UserFilter) {
        users(
            limit: $limit,
            offset: $offset,
            where: $filter
        ) {
            id
            name
            email
        }
    }
    "#;

    let mut ex = extract_field_paths(query);

    assert_path_exists(&mut ex, &["users"]);
}

#[test]
fn test_aliases() {
    let query = r#"
    {
        active_users: users(where: { status: { _eq: "ACTIVE" } }) {
            id
            full_name: name
            contact_info: profile {
                email
                phone
            }
            recent_posts: posts(limit: 5, order_by: { created_at: desc }) {
                id
                headline: title
            }
        }
    }
    "#;

    let mut ex = extract_field_paths(query);

    assert_path_exists(&mut ex, &["users"]);
    assert_path_exists(&mut ex, &["users", "profile"]);
    assert_path_exists(&mut ex, &["users", "posts"]);
}

#[test]
fn test_parse_graphql_function() {
    let query = r#"
    {
        users {
            id
            name
            posts {
                title
            }
        }
    }
    "#;

    let mut engine = Engine::new(Config::standard());
    let result = engine.parse_query(query, 0);
    assert!(result.is_ok(), "Failed to parse valid GraphQL query");

    let analysis = result.unwrap();
    assert_eq!(analysis.operation_kind, GraphQLOperationKind::Query);

    assert!(analysis.request.strings.contains(&"users".to_string()));
    assert!(analysis.request.strings.contains(&"posts".to_string()));
}

#[test]
fn test_invalid_queries() {
    let mut engine = Engine::new(Config::standard());

    let invalid_query = "{ users { invalid syntax }";
    let result = engine.parse_query(invalid_query, 0);
    assert!(result.is_err());

    let empty_query = "";
    let result = engine.parse_query(empty_query, 0);
    assert!(result.is_err());
}

#[test]
fn test_resolution_request_format() {
    let query = r#"
    query GetUsers {
        users(where: { active: true }) {
            id
            name
            posts {
                title
                content
            }
        }
    }
    "#;

    let mut engine = Engine::new(Config::standard());
    let analysis = engine.parse_query(query, 0).expect("Failed to parse query");
    let resolution_request = &analysis.request;

    assert!(
        !resolution_request.query_id.is_empty(),
        "query_id should not be empty"
    );

    assert!(
        !resolution_request.strings.is_empty(),
        "strings table should not be empty"
    );

    let expected_strings = vec!["users", "id", "name", "posts", "title", "content", "active"];
    for expected in expected_strings {
        assert!(
            resolution_request.strings.iter().any(|s| s == expected),
            "strings table should contain '{}'",
            expected
        );
    }

    assert!(
        !resolution_request.paths.is_empty(),
        "paths array should not be empty"
    );

    assert!(
        !resolution_request.path_dir.is_empty(),
        "path_dir should not be empty"
    );
    assert_eq!(
        resolution_request.path_dir.len(),
        resolution_request.path_types.len(),
        "path_dir and path_types should have the same length"
    );

    assert!(
        !resolution_request.path_types.is_empty(),
        "path_types should not be empty"
    );

    assert!(
        !resolution_request.cols.is_empty(),
        "cols should not be empty"
    );

    assert!(
        !resolution_request.ops.is_empty(),
        "ops should not be empty"
    );
    assert_eq!(
        resolution_request.ops.len(),
        1,
        "There should be one operation"
    );

    let (_, op_type) = resolution_request.ops[0];
    assert_eq!(op_type, 0, "Operation type should be query (0)");
}

#[test]
fn test_resolution_request_caching() {
    let query = "{ users { id name } }";

    let mut engine = Engine::new(Config::standard());

    let analysis1 = engine.parse_query(query, 0).expect("Failed to parse query 1");
    let analysis2 = engine.parse_query(query, 1).expect("Failed to parse query 2");

    assert_eq!(
        analysis1.request.query_id, analysis2.request.query_id,
        "query_id should be the same for identical queries"
    );

    assert_eq!(
        analysis1.operation_kind, analysis2.operation_kind,
        "operation_kind should be preserved in cache"
    );

    assert!(
        !analysis1.request.strings.is_empty(),
        "First parse should have strings"
    );
    assert!(
        !analysis2.request.strings.is_empty(),
        "Second parse should have strings"
    );

    assert!(!analysis1.request.paths.is_empty(), "First parse should have paths");
    assert!(!analysis2.request.paths.is_empty(), "Second parse should have paths");

    assert!(
        analysis1.request.strings.contains(&"users".to_string()),
        "First parse should contain 'users'"
    );
    assert!(
        analysis2.request.strings.contains(&"users".to_string()),
        "Second parse should contain 'users'"
    );
    assert!(
        analysis1.request.strings.contains(&"id".to_string()),
        "First parse should contain 'id'"
    );
    assert!(
        analysis2.request.strings.contains(&"id".to_string()),
        "Second parse should contain 'id'"
    );
    assert!(
        analysis1.request.strings.contains(&"name".to_string()),
        "First parse should contain 'name'"
    );
    assert!(
        analysis2.request.strings.contains(&"name".to_string()),
        "Second parse should contain 'name'"
    );
}

#[test]
fn test_mutation_operation_type() {
    let mut engine = Engine::new(Config::standard());

    let insert_query =
        "mutation { insert_users(objects: [{name: \"test\"}]) { returning { id } } }";
    let insert_analysis = engine
        .parse_query(insert_query, 0)
        .expect("Failed to parse insert mutation");

    assert!(!insert_analysis.request.ops.is_empty(), "ops should not be empty");
    let (_, insert_op_type) = insert_analysis.request.ops[0];
    assert_eq!(
        insert_op_type, 1,
        "Insert mutation should have operation type 1"
    );

    let update_query = "mutation { update_users(where: {id: {_eq: 1}}, _set: {name: \"updated\"}) { returning { id } } }";
    let update_analysis = engine
        .parse_query(update_query, 0)
        .expect("Failed to parse update mutation");

    assert!(!update_analysis.request.ops.is_empty(), "ops should not be empty");
    let (_, update_op_type) = update_analysis.request.ops[0];
    assert_eq!(
        update_op_type, 2,
        "Update mutation should have operation type 2"
    );

    let delete_query = "mutation { delete_users(where: {id: {_eq: 1}}) { returning { id } } }";
    let delete_analysis = engine
        .parse_query(delete_query, 0)
        .expect("Failed to parse delete mutation");

    assert!(!delete_analysis.request.ops.is_empty(), "ops should not be empty");
    let (_, delete_op_type) = delete_analysis.request.ops[0];
    assert_eq!(
        delete_op_type, 3,
        "Delete mutation should have operation type 3"
    );
}

#[test]
fn test_multiple_operations() {
    let mut engine = Engine::new(Config::standard());

    let query_operation = "query GetUsers { users { id name } }";
    let query_analysis = engine
        .parse_query(query_operation, 0)
        .expect("Failed to parse query operation");
    assert_eq!(query_analysis.request.ops.len(), 1, "Should contain 1 operation");
    let (_, query_op_type) = query_analysis.request.ops[0];
    assert_eq!(query_op_type, 0, "Query operation should have type 0");

    let insert_operation = "mutation InsertPost { insert_posts(objects: [{title: \"New Post\"}]) { returning { id } } }";
    let insert_analysis = engine
        .parse_query(insert_operation, 0)
        .expect("Failed to parse insert operation");
    assert_eq!(insert_analysis.request.ops.len(), 1, "Should contain 1 operation");
    let (_, insert_op_type) = insert_analysis.request.ops[0];
    assert_eq!(insert_op_type, 1, "Insert operation should have type 1");

    let update_operation = "mutation UpdateUser { update_users(where: {id: {_eq: 1}}, _set: {name: \"Updated\"}) { returning { id } } }";
    let update_analysis = engine
        .parse_query(update_operation, 0)
        .expect("Failed to parse update operation");
    assert_eq!(update_analysis.request.ops.len(), 1, "Should contain 1 operation");
    let (_, update_op_type) = update_analysis.request.ops[0];
    assert_eq!(update_op_type, 2, "Update operation should have type 2");

    let delete_operation =
        "mutation DeleteComment { delete_comments(where: {id: {_eq: 5}}) { affected_rows } }";
    let delete_analysis = engine
        .parse_query(delete_operation, 0)
        .expect("Failed to parse delete operation");
    assert_eq!(delete_analysis.request.ops.len(), 1, "Should contain 1 operation");
    let (_, delete_op_type) = delete_analysis.request.ops[0];
    assert_eq!(delete_op_type, 3, "Delete operation should have type 3");

    let multi_op_query = r#"
    query GetUsers {
        users {
            id
            name
        }
    }

    mutation InsertPost {
        insert_posts(objects: [{title: "New Post", content: "Content here"}]) {
            returning {
                id
            }
        }
    }
    "#;

    let analysis = engine
        .parse_query(multi_op_query, 0)
        .expect("Failed to parse multi-operation document");

    assert_eq!(
        analysis.operation_kind,
        GraphQLOperationKind::InsertMutation,
        "Primary operation kind should be InsertMutation"
    );

    assert_eq!(
        analysis.operation_name,
        Some("GetUsers".to_string()),
        "Operation name should be GetUsers"
    );

    let request = &analysis.request;
    assert_eq!(request.ops.len(), 2, "Should contain exactly 2 operations");

    assert!(
        request.strings.contains(&"users".to_string()),
        "Strings table should contain 'users'"
    );
    assert!(
        request.strings.contains(&"insert_posts".to_string()),
        "Strings table should contain 'insert_posts'"
    );

    let mut found_query = false;
    let mut found_insert = false;

    for (field_idx, op_type) in &request.ops {
        let field_name = &request.strings[*field_idx as usize];

        if field_name == "users" {
            assert_eq!(*op_type, 0, "User operation should have type 0 (query)");
            found_query = true;
        } else if field_name == "insert_posts" {
            assert_eq!(
                *op_type, 1,
                "Insert_posts operation should have type 1 (insert mutation)"
            );
            found_insert = true;
        }
    }

    assert!(found_query, "Should contain a query operation for 'users'");
    assert!(
        found_insert,
        "Should contain an insert mutation operation for 'insert_posts'"
    );

    assert!(!request.paths.is_empty(), "Paths should not be empty");
    assert!(
        !request.path_dir.is_empty(),
        "Path directory should not be empty"
    );
    assert!(
        !request.path_types.is_empty(),
        "Path types should not be empty"
    );
}
