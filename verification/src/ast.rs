//! A plain-value model of a parsed GraphQL document.
//!
//! The outside parser builds its AST in an arena; this model copies out of it
//! exactly what the analysis reads: names, argument values by shape, the
//! selection tree, and markers for the constructs the library rejects
//! (fragments and directives). All further analysis is over these types.

use vstd::prelude::*;

verus! {

/// An argument value, reduced to the four shapes the analysis distinguishes.
/// Scalars, enums and nulls all act alike here and collapse into `Scalar`.
#[derive(Debug)]
pub enum GqlValue {
    /// An object literal: named members in source order.
    Object(Vec<GqlObjectField>),
    /// A list literal: elements in source order.
    List(Vec<GqlValue>),
    /// A reference to a variable.
    Variable,
    /// Any scalar literal: string, int, float, boolean, enum or null.
    Scalar,
}

/// One named member of an object literal.
#[derive(Debug)]
pub struct GqlObjectField {
    pub name: String,
    pub value: GqlValue,
}

/// One named argument of a field.
#[derive(Debug)]
pub struct GqlArgument {
    pub name: String,
    pub value: GqlValue,
}

/// One selection inside a selection set. Fragment spreads and inline
/// fragments are kept only as markers: their presence is a hard error.
#[derive(Debug)]
pub enum GqlSelection {
    Field(GqlField),
    FragmentSpread,
    InlineFragment,
}

/// A field selection: its name, optional alias, arguments, nested selection
/// set, and whether any directive was attached to it.
#[derive(Debug)]
pub struct GqlField {
    pub name: String,
    pub alias: Option<String>,
    pub has_directives: bool,
    pub arguments: Vec<GqlArgument>,
    pub selections: Vec<GqlSelection>,
}

/// The three operation keywords of the query language.
#[derive(Debug, Clone, Copy, PartialEq, Eq, Structural)]
pub enum GqlOperationKind {
    Query,
    Mutation,
    Subscription,
}

/// One operation definition: its keyword, optional name, root selections and
/// whether any directive was attached to the definition itself.
#[derive(Debug)]
pub struct GqlOperation {
    pub kind: GqlOperationKind,
    pub name: Option<String>,
    pub has_directives: bool,
    pub selections: Vec<GqlSelection>,
}

/// A top-level definition: an operation, or a fragment definition marker.
#[derive(Debug)]
pub enum GqlDefinition {
    Operation(GqlOperation),
    Fragment,
}

/// A whole parsed document.
#[derive(Debug)]
pub struct GqlDocument {
    pub definitions: Vec<GqlDefinition>,
}

} // verus!
