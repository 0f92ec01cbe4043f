//! The schema-needs extractor on hand-built documents: entities,
//! relationships, and alias preservation.

use grasql::ast::{GqlDefinition, GqlDocument, GqlField, GqlOperation, GqlOperationKind, GqlSelection};
use grasql::schema::SchemaExtractor;
use std::collections::HashSet;

fn create_field(name: &str, alias: Option<&str>, nested_fields: Vec<GqlField>) -> GqlField {
    GqlField {
        name: name.to_string(),
        alias: alias.map(|s| s.to_string()),
        has_directives: false,
        arguments: Vec::new(),
        selections: nested_fields.into_iter().map(GqlSelection::Field).collect(),
    }
}

fn document_with_roots(root_fields: Vec<GqlField>) -> GqlDocument {
    GqlDocument {
        definitions: vec![GqlDefinition::Operation(GqlOperation {
            kind: GqlOperationKind::Query,
            name: None,
            has_directives: false,
            selections: root_fields.into_iter().map(GqlSelection::Field).collect(),
        })],
    }
}

#[test]
fn test_extract_single_table() {
    let extractor = SchemaExtractor::new();

    let user_field = create_field("user", None, vec![]);
    let doc = document_with_roots(vec![user_field]);

    let schema_needs = extractor.extract_schema_needs(&doc).unwrap();

    assert_eq!(schema_needs.entity_references.len(), 1);
    assert_eq!(schema_needs.entity_references[0].graphql_name, "user");
    assert_eq!(schema_needs.entity_references[0].alias, None);

    assert_eq!(schema_needs.relationship_references.len(), 0);
}

#[test]
fn test_extract_nested_tables_and_relationships() {
    let extractor = SchemaExtractor::new();

    let comment_field = create_field(
        "comment",
        None,
        vec![
            create_field("id", None, vec![]),
            create_field("text", None, vec![]),
        ],
    );

    let post_field = create_field(
        "post",
        None,
        vec![
            create_field("id", None, vec![]),
            create_field("title", None, vec![]),
            comment_field,
        ],
    );

    let user_field = create_field(
        "user",
        None,
        vec![
            create_field("id", None, vec![]),
            create_field("name", None, vec![]),
            post_field,
        ],
    );

    let doc = document_with_roots(vec![user_field]);
    let schema_needs = extractor.extract_schema_needs(&doc).unwrap();

    let expected_entities = HashSet::from([
        "user".to_string(),
        "post".to_string(),
        "comment".to_string(),
    ]);

    let actual_entities: HashSet<String> = schema_needs
        .entity_references
        .iter()
        .map(|e| e.graphql_name.clone())
        .collect();

    for entity in &expected_entities {
        assert!(
            actual_entities.contains(entity),
            "Expected entity '{}' not found. Found entities: {:?}",
            entity,
            actual_entities
        );
    }

    assert!(
        schema_needs.relationship_references.len() >= 2,
        "Expected at least 2 relationships, found {}",
        schema_needs.relationship_references.len()
    );

    let relationship_pairs: HashSet<(String, String)> = schema_needs
        .relationship_references
        .iter()
        .map(|r| (r.parent_name.clone(), r.child_name.clone()))
        .collect();

    assert!(
        relationship_pairs.contains(&("user".to_string(), "post".to_string())),
        "Missing user->post relationship"
    );
    assert!(
        relationship_pairs.contains(&("post".to_string(), "comment".to_string())),
        "Missing post->comment relationship"
    );
}

#[test]
fn test_extract_multiple_root_tables() {
    let extractor = SchemaExtractor::new();

    let user_field = create_field("user", None, vec![]);
    let post_field = create_field("post", None, vec![]);

    let doc = document_with_roots(vec![user_field, post_field]);
    let schema_needs = extractor.extract_schema_needs(&doc).unwrap();

    assert_eq!(schema_needs.entity_references.len(), 2);

    let entity_names: HashSet<String> = schema_needs
        .entity_references
        .iter()
        .map(|e| e.graphql_name.clone())
        .collect();

    assert!(entity_names.contains("user"));
    assert!(entity_names.contains("post"));

    assert_eq!(schema_needs.relationship_references.len(), 0);
}

#[test]
fn test_extract_deeply_nested_tables() {
    let extractor = SchemaExtractor::new();

    let geo_field = create_field(
        "geo",
        None,
        vec![
            create_field("latitude", None, vec![]),
            create_field("longitude", None, vec![]),
        ],
    );

    let address_field = create_field(
        "address",
        None,
        vec![
            create_field("street", None, vec![]),
            create_field("city", None, vec![]),
            geo_field,
        ],
    );

    let profile_field = create_field(
        "profile",
        None,
        vec![
            create_field("bio", None, vec![]),
            create_field("avatar", None, vec![]),
            address_field,
        ],
    );

    let user_field = create_field(
        "user",
        None,
        vec![
            create_field("id", None, vec![]),
            create_field("name", None, vec![]),
            profile_field,
        ],
    );

    let doc = document_with_roots(vec![user_field]);
    let schema_needs = extractor.extract_schema_needs(&doc).unwrap();

    let expected_entities = HashSet::from([
        "user".to_string(),
        "profile".to_string(),
        "address".to_string(),
        "geo".to_string(),
    ]);

    let entity_names: HashSet<String> = schema_needs
        .entity_references
        .iter()
        .map(|e| e.graphql_name.clone())
        .collect();

    for entity in &expected_entities {
        assert!(
            entity_names.contains(entity),
            "Expected entity '{}' not found",
            entity
        );
    }

    assert!(
        schema_needs.relationship_references.len() >= 3,
        "Expected at least 3 relationships, found {}",
        schema_needs.relationship_references.len()
    );

    let relationship_pairs: HashSet<(String, String)> = schema_needs
        .relationship_references
        .iter()
        .map(|r| (r.parent_name.clone(), r.child_name.clone()))
        .collect();

    assert!(
        relationship_pairs.contains(&("user".to_string(), "profile".to_string())),
        "Missing user->profile relationship"
    );
    assert!(
        relationship_pairs.contains(&("profile".to_string(), "address".to_string())),
        "Missing profile->address relationship"
    );
    assert!(
        relationship_pairs.contains(&("address".to_string(), "geo".to_string())),
        "Missing address->geo relationship"
    );
}

#[test]
fn test_table_aliases() {
    let extractor = SchemaExtractor::new();

    let user_field = create_field("user", Some("u"), vec![]);
    let doc = document_with_roots(vec![user_field]);

    let schema_needs = extractor.extract_schema_needs(&doc).unwrap();

    assert_eq!(schema_needs.entity_references.len(), 1);
    assert_eq!(schema_needs.entity_references[0].graphql_name, "user");
    assert_eq!(
        schema_needs.entity_references[0].alias,
        Some("u".to_string())
    );
}
