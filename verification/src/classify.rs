//! Operation classification: the document's primary operation kind, with
//! mutations refined by the first root field's name against the configured
//! prefixes, and the captured operation name.

use vstd::prelude::*;
use crate::ast::{GqlDefinition, GqlDocument, GqlOperationKind, GqlSelection};
use crate::config::Config;
use crate::error::Error;
use crate::strutil::{sp_starts_with, str_starts_with};
use crate::types::GraphQLOperationKind;

verus! {

/// The refined kind of a mutation whose first root field is named `fname`:
/// the prefixes pick insert, update or delete; no match defaults to insert.
pub open spec fn sp_mutation_kind(
    fname: Seq<char>,
    ins: Seq<char>,
    upd: Seq<char>,
    del: Seq<char>,
) -> GraphQLOperationKind {
    if sp_starts_with(fname, ins) {
        GraphQLOperationKind::InsertMutation
    } else if sp_starts_with(fname, upd) {
        GraphQLOperationKind::UpdateMutation
    } else if sp_starts_with(fname, del) {
        GraphQLOperationKind::DeleteMutation
    } else {
        GraphQLOperationKind::InsertMutation
    }
}

/// The classification fold over the definitions: a mutation with at least
/// one root field always takes precedence and is refined by that field's
/// name; a query or subscription only settles the kind while it is still
/// the default.
pub open spec fn sp_classify_acc(
    defs: Seq<GqlDefinition>,
    i: int,
    acc: GraphQLOperationKind,
    ins: Seq<char>,
    upd: Seq<char>,
    del: Seq<char>,
) -> GraphQLOperationKind
    decreases defs.len() - i,
{
    if i < 0 || i >= defs.len() {
        acc
    } else {
        let acc2 = match defs[i] {
            GqlDefinition::Operation(op) => {
                if op.kind is Mutation {
                    if op.selections@.len() > 0 {
                        match op.selections@[0] {
                            GqlSelection::Field(f) => sp_mutation_kind(f.name@, ins, upd, del),
                            _ => acc,
                        }
                    } else {
                        acc
                    }
                } else if acc == GraphQLOperationKind::Query {
                    if op.kind is Subscription {
                        GraphQLOperationKind::Subscription
                    } else {
                        GraphQLOperationKind::Query
                    }
                } else {
                    acc
                }
            },
            GqlDefinition::Fragment => acc,
        };
        sp_classify_acc(defs, i + 1, acc2, ins, upd, del)
    }
}

/// The primary operation kind of a document, or `None` when it holds no
/// operation definition.
pub open spec fn sp_classify(
    defs: Seq<GqlDefinition>,
    ins: Seq<char>,
    upd: Seq<char>,
    del: Seq<char>,
) -> GraphQLOperationKind {
    sp_classify_acc(defs, 0, GraphQLOperationKind::Query, ins, upd, del)
}

/// The name of the first named operation definition, if any.
pub open spec fn sp_operation_name(defs: Seq<GqlDefinition>, i: int) -> Option<Seq<char>>
    decreases defs.len() - i,
{
    if i < 0 || i >= defs.len() {
        None
    } else {
        match defs[i] {
            GqlDefinition::Operation(op) => match op.name {
                Some(n) => Some(n@),
                None => sp_operation_name(defs, i + 1),
            },
            GqlDefinition::Fragment => sp_operation_name(defs, i + 1),
        }
    }
}

/// Whether the document holds at least one operation definition.
pub open spec fn sp_doc_has_operation(defs: Seq<GqlDefinition>) -> bool {
    exists|i: int| 0 <= i < defs.len() && defs[i] is Operation
}

/// Determines the primary operation kind of the document; fails with
/// `EmptyDocument` exactly when the document has no operation definition.
#[verifier::loop_isolation(false)]
pub fn determine_operation_kind(document: &GqlDocument, config: &Config) -> (r: Result<
    GraphQLOperationKind,
    Error,
>)
    ensures
        match r {
            Ok(k) => sp_doc_has_operation(document.definitions@) && k == sp_classify(
                document.definitions@,
                config.insert_prefix@,
                config.update_prefix@,
                config.delete_prefix@,
            ),
            Err(e) => e == Error::EmptyDocument && !sp_doc_has_operation(document.definitions@),
        },
{
    let ghost ins = config.insert_prefix@;
    let ghost upd = config.update_prefix@;
    let ghost del = config.delete_prefix@;
    let defs = &document.definitions;
    let n = defs.len();
    let mut has_op = false;
    let mut acc = GraphQLOperationKind::Query;
    let mut i: usize = 0;
    while i < n
        invariant
            n == defs@.len(),
            i <= n,
            has_op == exists|j: int| 0 <= j < i && defs@[j] is Operation,
            sp_classify(defs@, ins, upd, del) == sp_classify_acc(defs@, i as int, acc, ins, upd, del),
        decreases n - i,
    {
        match &defs[i] {
            GqlDefinition::Operation(op) => {
                has_op = true;
                match op.kind {
                    GqlOperationKind::Mutation => {
                        if op.selections.len() > 0 {
                            match &op.selections[0] {
                                GqlSelection::Field(f) => {
                                    acc =
                                    if str_starts_with(
                                        f.name.as_str(),
                                        config.insert_prefix.as_str(),
                                    ) {
                                        GraphQLOperationKind::InsertMutation
                                    } else if str_starts_with(
                                        f.name.as_str(),
                                        config.update_prefix.as_str(),
                                    ) {
                                        GraphQLOperationKind::UpdateMutation
                                    } else if str_starts_with(
                                        f.name.as_str(),
                                        config.delete_prefix.as_str(),
                                    ) {
                                        GraphQLOperationKind::DeleteMutation
                                    } else {
                                        GraphQLOperationKind::InsertMutation
                                    };
                                },
                                _ => (),
                            }
                        }
                    },
                    GqlOperationKind::Subscription => {
                        if acc == GraphQLOperationKind::Query {
                            acc = GraphQLOperationKind::Subscription;
                        }
                    },
                    GqlOperationKind::Query => (),
                }
            },
            _ => (),
        }
        i = i + 1;
    }
    if has_op {
        Ok(acc)
    } else {
        Err(Error::EmptyDocument)
    }
}

/// The operation name captured from the first named operation definition.
#[verifier::loop_isolation(false)]
pub fn operation_name(document: &GqlDocument) -> (r: Option<String>)
    ensures
        match r {
            Some(s) => sp_operation_name(document.definitions@, 0) == Some(s@),
            None => sp_operation_name(document.definitions@, 0) is None,
        },
{
    let defs = &document.definitions;
    let n = defs.len();
    let mut i: usize = 0;
    while i < n
        invariant
            n == defs@.len(),
            i <= n,
            sp_operation_name(defs@, 0) == sp_operation_name(defs@, i as int),
        decreases n - i,
    {
        match &defs[i] {
            GqlDefinition::Operation(op) => {
                match &op.name {
                    Some(nm) => {
                        return Some(nm.clone());
                    },
                    None => (),
                }
            },
            _ => (),
        }
        i = i + 1;
    }
    None
}

} // verus!
