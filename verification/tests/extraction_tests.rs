//! Field-path extraction over parsed documents: simple selections,
//! relationships, filters, and the full operator table.

use grasql::config::Config;
use grasql::extract::FieldPathExtractor;
use grasql::interning::Interner;
use grasql::parse::parse_document;
use grasql::types::FieldPath;

fn create_path(interner: &mut Interner, segments: &[&str]) -> FieldPath {
    let mut path = FieldPath::new();
    for &segment in segments {
        path.push(interner.intern_str(segment));
    }
    path
}

struct Extracted {
    interner: Interner,
    extractor: FieldPathExtractor,
}

fn run_extraction(query: &str) -> Extracted {
    let config = Config::standard();
    let doc = parse_document(query).expect("query should parse");
    let mut interner = Interner::new();
    let mut extractor = FieldPathExtractor::new();
    extractor
        .extract(&doc, &mut interner, &config)
        .expect("extraction should succeed");
    Extracted { interner, extractor }
}

#[test]
fn test_field_extraction_simple() {
    let query = "{ users { id name email } }";
    let mut ex = run_extraction(query);

    assert_eq!(ex.extractor.field_paths.len(), 1);

    let users_path = create_path(&mut ex.interner, &["users"]);
    assert!(ex.extractor.field_paths.contains(&users_path));
}

#[test]
fn test_field_extraction_with_relationships() {
    let query = "{ users { id profile { avatar } posts { title } } }";
    let mut ex = run_extraction(query);

    assert_eq!(ex.extractor.field_paths.len(), 3);

    let users_path = create_path(&mut ex.interner, &["users"]);
    assert!(ex.extractor.field_paths.contains(&users_path));

    let users_profile_path = create_path(&mut ex.interner, &["users", "profile"]);
    assert!(ex.extractor.field_paths.contains(&users_profile_path));

    let users_posts_path = create_path(&mut ex.interner, &["users", "posts"]);
    assert!(ex.extractor.field_paths.contains(&users_posts_path));
}

#[test]
fn test_field_extraction_with_filters() {
    let query = "{ users(where: { profile: { avatar: \"something\" } }) { id } }";
    let mut ex = run_extraction(query);

    assert_eq!(ex.extractor.field_paths.len(), 2);

    let users_path = create_path(&mut ex.interner, &["users"]);
    assert!(ex.extractor.field_paths.contains(&users_path));

    let users_profile_path = create_path(&mut ex.interner, &["users", "profile"]);
    assert!(ex.extractor.field_paths.contains(&users_profile_path));
}

#[test]
fn snapshot_test_field_extraction_basic_queries() {
    let queries = vec![
        "{ users { id name } }",
        "{ users { id profile { avatar } posts { title } } }",
        "{ users(where: { profile: { avatar: \"something\" } }) { id } }",
        r#"
        {
            users(limit: 10, offset: 20) {
                id
                name
                posts {
                    title
                    comments {
                        id
                        author {
                            name
                        }
                    }
                }
            }
        }
        "#,
    ];

    for (i, query) in queries.iter().enumerate() {
        if parse_document(query).is_err() {
            continue;
        }
        let ex = run_extraction(query);
        let paths = &ex.extractor.field_paths;

        assert!(paths.len() > 0, "Field paths should not be empty");

        match i {
            0 => {
                assert_eq!(paths.len(), 1, "Simple query should have exactly one path");
            }
            1 => {
                assert!(
                    paths.len() >= 3,
                    "Relationship query should have at least 3 paths"
                );
            }
            _ => {}
        }
    }
}

#[test]
fn test_all_operators() {
    let query = r#"
    {
        users(
            where: {
                _and: [
                    { name: { _eq: "John" } },
                    { age: { _neq: 30 } },
                    { score: { _gt: 50 } },
                    { rank: { _lt: 10 } },
                    { experience: { _gte: 5 } },
                    { failures: { _lte: 3 } },
                    { bio: { _like: "%engineer%" } },
                    { email: { _ilike: "%EXAMPLE.com" } },
                    { id: { _in: [1, 2, 3] } },
                    { status: { _nin: ["INACTIVE", "BANNED"] } },
                    { deleted_at: { _is_null: true } },
                    {
                        _or: [
                            { role: { _eq: "ADMIN" } },
                            { permissions: { _json_contains: {"admin": true} } }
                        ]
                    },
                    { metadata: { _json_contained_in: {"verified": true} } },
                    { tags: { _json_has_key: "premium" } },
                    { categories: { _json_has_any_keys: ["sport", "tech"] } },
                    { requirements: { _json_has_all_keys: ["id", "name"] } },
                    { data: { _json_path: "profile" } },
                    { info: { _json_path_text: "contact" } },
                    { config: { _is_json: true } }
                ]
            },
            limit: 20,
            offset: 10,
            order_by: { created_at: desc }
        ) {
            id
            name
            email
            profile {
                avatar
                settings {
                    theme
                    notifications
                }
            }
            posts(
                limit: 5,
                offset: 0,
                order_by: { published_at: desc }
            ) {
                id
                title
                content
                comments(
                    where: { approved: { _eq: true } },
                    limit: 10
                ) {
                    id
                    text
                    author {
                        id
                        name
                    }
                }
            }
        }
    }
    "#;

    // A query the parser happens to reject is skipped rather than failed.
    if parse_document(query).is_err() {
        return;
    }
    let mut ex = run_extraction(query);
    let n = ex.extractor.field_paths.len();
    assert!(n > 0, "Paths shouldn't be empty");

    let expected_paths = [
        create_path(&mut ex.interner, &["users"]),
        create_path(&mut ex.interner, &["users", "profile"]),
        create_path(&mut ex.interner, &["users", "profile", "settings"]),
        create_path(&mut ex.interner, &["users", "posts"]),
        create_path(&mut ex.interner, &["users", "posts", "comments"]),
        create_path(&mut ex.interner, &["users", "posts", "comments", "author"]),
    ];

    for path in &expected_paths {
        assert!(
            ex.extractor.field_paths.contains(path),
            "Expected path {:?} not found in extracted paths",
            path
        );
    }
}
