//! Column extraction from insert and update mutations: `objects`, `object`,
//! variables, `_set`, and batch inserts.

use grasql::config::Config;
use grasql::extract::FieldPathExtractor;
use grasql::interning::Interner;
use grasql::parse::parse_document;
use grasql::types::FieldPath;

fn create_path(interner: &mut Interner, segments: &[&str]) -> FieldPath {
    let mut path = FieldPath::new();
    for &segment in segments {
        path.push(interner.intern_str(segment));
    }
    path
}

struct Extracted {
    interner: Interner,
    extractor: FieldPathExtractor,
}

fn run_extraction(query: &str) -> Extracted {
    let config = Config::standard();
    let doc = parse_document(query).expect("query should parse");
    let mut interner = Interner::new();
    let mut extractor = FieldPathExtractor::new();
    extractor
        .extract(&doc, &mut interner, &config)
        .expect("extraction should succeed");
    Extracted { interner, extractor }
}

fn table_has_column(ex: &mut Extracted, table: &FieldPath, column: &str) -> bool {
    let id = ex.interner.intern_str(column);
    match ex.extractor.column_usage.find(table) {
        Some(i) => ex.extractor.column_usage.get(i).1.contains(&id),
        None => false,
    }
}

#[test]
fn test_insert_mutation_extraction() {
    let query = r#"
    mutation {
        insert_users(objects: {
            name: "John",
            email: "john@example.com",
            profile: {
                bio: "Developer",
                website: "example.com"
            }
        }) {
            returning {
                id
                name
            }
        }
    }
    "#;

    let mut ex = run_extraction(query);
    let users_path = create_path(&mut ex.interner, &["insert_users"]);

    assert!(table_has_column(&mut ex, &users_path, "name"));
    assert!(table_has_column(&mut ex, &users_path, "email"));
    assert!(table_has_column(&mut ex, &users_path, "profile"));
}

#[test]
fn test_insert_with_object_param() {
    let query = r#"
    mutation {
        insert_user(object: {
            name: "John",
            email: "john@example.com"
        }) {
            returning {
                id
            }
        }
    }
    "#;

    let mut ex = run_extraction(query);
    let user_path = create_path(&mut ex.interner, &["insert_user"]);

    assert!(table_has_column(&mut ex, &user_path, "name"));
    assert!(table_has_column(&mut ex, &user_path, "email"));
}

#[test]
fn test_insert_with_variable() {
    let query = r#"
    mutation InsertUser($userData: UserInput!) {
        insert_user(object: $userData) {
            returning {
                id
            }
        }
    }
    "#;

    let mut ex = run_extraction(query);
    let user_path = create_path(&mut ex.interner, &["insert_user"]);

    assert!(ex.extractor.field_paths.contains(&user_path));
}

#[test]
fn test_update_mutation_extraction() {
    let query = r#"
    mutation {
        update_users(
            where: { id: { _eq: 1 } },
            _set: {
                name: "Updated Name",
                email: "updated@example.com",
                status: "active"
            }
        ) {
            returning {
                id
                name
            }
        }
    }
    "#;

    let mut ex = run_extraction(query);
    let users_path = create_path(&mut ex.interner, &["update_users"]);

    assert!(table_has_column(&mut ex, &users_path, "name"));
    assert!(table_has_column(&mut ex, &users_path, "email"));
    assert!(table_has_column(&mut ex, &users_path, "status"));
}

#[test]
fn test_batch_insert_extraction() {
    let query = r#"
    mutation {
        insert_users(objects: [
            {
                name: "User 1",
                email: "user1@example.com"
            },
            {
                name: "User 2",
                email: "user2@example.com",
                phone: "123-456-7890"
            },
            {
                name: "User 3",
                status: "active"
            }
        ]) {
            returning {
                id
                name
            }
        }
    }
    "#;

    let mut ex = run_extraction(query);
    let users_path = create_path(&mut ex.interner, &["insert_users"]);

    assert!(table_has_column(&mut ex, &users_path, "name"));
    assert!(table_has_column(&mut ex, &users_path, "email"));
    assert!(table_has_column(&mut ex, &users_path, "phone"));
    assert!(table_has_column(&mut ex, &users_path, "status"));
}
