//! The string interner and the small value types around it.

use grasql::encode::{build_path_index, sort_paths};
use grasql::error::Error;
use grasql::interning::Interner;
use grasql::parse::{parse_document, text_is_parse_safe};
use grasql::pathmap::PathSet;
use grasql::types::FieldPath;

#[test]
fn interner_assigns_dense_ids_in_first_seen_order() {
    let mut interner = Interner::new();
    let a = interner.intern_str("users");
    let b = interner.intern_str("id");
    let c = interner.intern_str("users");

    assert_eq!(a, 0);
    assert_eq!(b, 1);
    assert_eq!(c, a, "equal strings get equal ids");
    assert_eq!(interner.len(), 2);

    let strings = interner.get_all_strings();
    assert_eq!(strings, vec!["users".to_string(), "id".to_string()]);
}

#[test]
fn interner_resolves_ids_back_to_strings() {
    let mut interner = Interner::new();
    let id = interner.intern_str("posts");

    assert_eq!(interner.resolve_str(id), Some("posts".to_string()));
    assert_eq!(interner.resolve_str(id + 1), None);
    assert_eq!(interner.lookup("posts"), Some(id));
    assert_eq!(interner.lookup("absent"), None);
}

#[test]
fn field_path_operations() {
    let mut p = FieldPath::new();
    assert!(p.is_empty());

    p.push(3);
    p.push(7);
    assert_eq!(p.len(), 2);
    assert_eq!(p.index(0), 3);
    assert_eq!(p.index(1), 7);

    let q = p.with_field(9);
    assert_eq!(q.len(), 3);
    assert_eq!(q.to_vec(), vec![3, 7, 9]);
    assert!(!q.same_as(&p));

    let parent = q.parent();
    assert!(parent.same_as(&p));

    assert_eq!(p.pop(), Some(7));
    p.clear();
    assert!(p.is_empty());
}

#[test]
fn sorted_paths_and_their_index() {
    let mut ps = PathSet::new();
    let mut a = FieldPath::new();
    a.push(2);
    let mut b = FieldPath::new();
    b.push(1);
    let mut c = FieldPath::new();
    c.push(1);
    c.push(3);
    ps.insert(&a);
    ps.insert(&b);
    ps.insert(&c);

    let sorted = sort_paths(&ps);
    assert_eq!(sorted.len(), 3);
    assert_eq!(sorted[0].to_vec(), vec![1]);
    assert_eq!(sorted[1].to_vec(), vec![1, 3]);
    assert_eq!(sorted[2].to_vec(), vec![2]);

    let index = build_path_index(&sorted);
    for (i, entry) in index.iter().enumerate() {
        assert!(entry.0.same_as(&sorted[i]));
        assert_eq!(entry.1, i);
    }
}

#[test]
fn error_tags_are_stable() {
    assert_eq!(Error::SyntaxError.tag(), "syntax_error");
    assert_eq!(Error::UnsupportedFeature.tag(), "unsupported_feature");
    assert_eq!(Error::EmptyDocument.tag(), "empty_document");
    assert_eq!(Error::InvalidInput.tag(), "invalid_input");
    assert_eq!(Error::NotInitialized.tag(), "not_initialized");
    assert_eq!(Error::CacheMiss.tag(), "cache_miss");
    assert_eq!(Error::CorruptedState.tag(), "corrupted_state");
}

#[test]
fn parse_safety_screen() {
    // plain texts and ASCII block strings are in bounds
    assert!(text_is_parse_safe("{ users { id } }"));
    assert!(text_is_parse_safe("{ f(a: \"\"\"\n block\n\"\"\") { b } }"));
    // non-ASCII text without a block string is in bounds
    assert!(text_is_parse_safe("{ f(a: \"caf\u{e9}\") { b } }"));
    // a block string combined with non-ASCII text is screened out: the
    // outside parser's indentation trimmer could split a character there
    assert!(!text_is_parse_safe("{ f(a: \"\"\"\n x\n\u{e9}!\"\"\") { b } }"));

    // an in-bounds ASCII block string flows through the analyzer
    let mut engine = grasql::engine::Engine::new(grasql::config::Config::standard());
    let r = engine.parse_query("{ f(a: \"\"\"block\"\"\") { b } }", 0);
    assert!(r.is_ok());
}

#[test]
fn parse_rejection_reports_a_location() {
    let loc = parse_document("{ users { id ").unwrap_err();
    assert!(loc.line >= 1, "a rejected text names the line it failed on");
}
