//! The trusted boundary to the outside GraphQL parser.
//!
//! `graphql_query` parses a source text into an arena-allocated AST. The
//! wrappers here make that call and copy the AST into the library's plain
//! document model ([`crate::ast`]); each copy helper moves fields one for
//! one. Everything downstream of [`parse_document`] is verified against its
//! contract: the parse result is named by `sp_parse`, a pure function of the
//! source text, since the parser consults nothing but its input.

use vstd::prelude::*;
use crate::ast::{
    GqlArgument, GqlDefinition, GqlDocument, GqlField, GqlObjectField, GqlOperation,
    GqlOperationKind, GqlSelection, GqlValue,
};
use crate::error::ErrorLocation;
use graphql_query::ast::ParseNode;
use vstd::string::StrSliceExecFns;

verus! {

#[verifier::external_type_specification]
#[verifier::external_body]
pub struct ExValue<'a>(graphql_query::ast::Value<'a>);

#[verifier::external_type_specification]
#[verifier::external_body]
pub struct ExSelection<'a>(graphql_query::ast::Selection<'a>);

#[verifier::external_type_specification]
#[verifier::external_body]
pub struct ExOperationDefinition<'a>(graphql_query::ast::OperationDefinition<'a>);

#[verifier::external_type_specification]
#[verifier::external_body]
pub struct ExDefinition<'a>(graphql_query::ast::Definition<'a>);

#[verifier::external_type_specification]
#[verifier::external_body]
pub struct ExDocument<'a>(graphql_query::ast::Document<'a>);

/// What parsing a source text yields: `Some` with the copied document model
/// when the text parses cleanly, `None` when the parser rejects it. The
/// parser reads nothing but its input, so this is a function of the text.
pub uninterp spec fn sp_parse(q: Seq<char>) -> Option<GqlDocument>;

/// Whether the text holds a block-string opener: three quotation marks in a
/// row.
pub open spec fn sp_has_triple_quote(q: Seq<char>) -> bool {
    exists|i: int|
        0 <= i && i + 2 < q.len() && (#[trigger] q[i]) == '"' && q[i + 1] == '"' && q[i + 2] == '"'
}

/// The texts the outside parser is known to handle without aborting. Its
/// block-string trimmer cuts each line at the minimum indentation measured
/// in bytes without checking a character boundary, so a text that combines
/// a block string with non-ASCII characters can make it split a character
/// and abort. A text that is all ASCII, or that holds no block string at
/// all, never reaches that cut point badly.
pub open spec fn sp_parse_safe(q: Seq<char>) -> bool {
    vstd::utf8::is_ascii_chars(q) || !sp_has_triple_quote(q)
}

/// Whether the outside parser is known to handle this text without
/// aborting; the host checks this before handing a text to the analyzer.
#[verifier::loop_isolation(false)]
pub fn text_is_parse_safe(q: &str) -> (r: bool)
    ensures
        r == sp_parse_safe(q@),
{
    if q.is_ascii() {
        return true;
    }
    let n = q.unicode_len();
    if n < 3 {
        return true;
    }
    let mut i: usize = 0;
    while i < n - 2
        invariant
            n == q@.len(),
            3 <= n,
            i <= n - 2,
            forall|j: int|
                0 <= j < i ==> !((#[trigger] q@[j]) == '"' && q@[j + 1] == '"' && q@[j + 2]
                    == '"'),
        decreases n - i,
    {
        if q.get_char(i) == '"' && q.get_char(i + 1) == '"' && q.get_char(i + 2) == '"' {
            proof {
                assert(sp_has_triple_quote(q@));
            }
            return false;
        }
        i = i + 1;
    }
    proof {
        if sp_has_triple_quote(q@) {
            let j = choose|j: int|
                0 <= j && j + 2 < q@.len() && (#[trigger] q@[j]) == '"' && q@[j + 1] == '"'
                    && q@[j + 2] == '"';
            assert(!(q@[j] == '"' && q@[j + 1] == '"' && q@[j + 2] == '"'));
        }
    }
    true
}

/// Copies an argument value out of the arena, arm by arm.
#[verifier::external_body]
fn conv_value(v: &graphql_query::ast::Value) -> GqlValue {
    match v {
        graphql_query::ast::Value::Object(o) => GqlValue::Object(
            o.children.iter().map(
                |f| GqlObjectField { name: f.name.to_string(), value: conv_value(&f.value) },
            ).collect(),
        ),
        graphql_query::ast::Value::List(l) => GqlValue::List(
            l.children.iter().map(|e| conv_value(e)).collect(),
        ),
        graphql_query::ast::Value::Variable(_) => GqlValue::Variable,
        _ => GqlValue::Scalar,
    }
}

/// Copies one selection out of the arena; fragment spreads and inline
/// fragments become bare markers.
#[verifier::external_body]
fn conv_selection(s: &graphql_query::ast::Selection) -> GqlSelection {
    match s {
        graphql_query::ast::Selection::Field(f) => GqlSelection::Field(
            GqlField {
                name: f.name.to_string(),
                alias: f.alias.map(|a| a.to_string()),
                has_directives: !f.directives.is_empty(),
                arguments: f.arguments.children.iter().map(
                    |a| GqlArgument { name: a.name.to_string(), value: conv_value(&a.value) },
                ).collect(),
                selections: f.selection_set.selections.iter().map(|c| conv_selection(c)).collect(),
            },
        ),
        graphql_query::ast::Selection::FragmentSpread(_) => GqlSelection::FragmentSpread,
        graphql_query::ast::Selection::InlineFragment(_) => GqlSelection::InlineFragment,
    }
}

/// Copies one operation definition out of the arena.
#[verifier::external_body]
fn conv_operation(o: &graphql_query::ast::OperationDefinition) -> GqlOperation {
    GqlOperation {
        kind: match o.operation {
            graphql_query::ast::OperationKind::Query => GqlOperationKind::Query,
            graphql_query::ast::OperationKind::Mutation => GqlOperationKind::Mutation,
            graphql_query::ast::OperationKind::Subscription => GqlOperationKind::Subscription,
        },
        name: o.name.map(|n| n.name.to_string()),
        has_directives: !o.directives.is_empty(),
        selections: o.selection_set.selections.iter().map(|s| conv_selection(s)).collect(),
    }
}

/// Copies one top-level definition out of the arena.
#[verifier::external_body]
fn conv_definition(d: &graphql_query::ast::Definition) -> GqlDefinition {
    match d {
        graphql_query::ast::Definition::Operation(o) => GqlDefinition::Operation(conv_operation(o)),
        graphql_query::ast::Definition::Fragment(_) => GqlDefinition::Fragment,
    }
}

/// Relies on `graphql_query::ast::Document::parse`: parses the text into a
/// fresh arena and copies the AST into the plain model. The result depends on
/// the text alone and is named by [`sp_parse`]; on rejection the parser's
/// line and column are handed back. Texts outside [`sp_parse_safe`] are
/// left out: on those the parser's block-string trimmer can split a
/// character at a byte-indexed cut and abort instead of returning.
#[verifier::external_body]
pub fn parse_document(text: &str) -> (r: Result<GqlDocument, ErrorLocation>)
    requires
        sp_parse_safe(text@),
    ensures
        r matches Ok(d) ==> sp_parse(text@) == Some(d),
        r is Err ==> sp_parse(text@) is None,
{
    let ctx = graphql_query::ast::ASTContext::new();
    match graphql_query::ast::Document::parse(&ctx, text) {
        Ok(doc) => Ok(
            GqlDocument {
                definitions: doc.definitions.iter().map(|d| conv_definition(d)).collect(),
            },
        ),
        Err(e) => Err(
            match e.location() {
                Some(l) => ErrorLocation { line: l.line, column: l.column },
                None => ErrorLocation { line: 0, column: 0 },
            },
        ),
    }
}

} // verus!
