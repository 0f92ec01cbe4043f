//! Rejection of unsupported constructs: fragment definitions, fragment
//! spreads, inline fragments, and directives anywhere on an operation or a
//! field are hard errors.

use vstd::prelude::*;
use crate::ast::{GqlDefinition, GqlDocument, GqlField, GqlSelection};
use crate::error::Error;

verus! {

/// Whether a field and everything below it is free of directives, fragment
/// spreads and inline fragments.
pub open spec fn sp_field_supported(f: GqlField) -> bool
    decreases f, 0int,
{
    !f.has_directives && sp_sels_supported(f.selections@, 0)
}

/// The same, folded over a selection list.
pub open spec fn sp_sels_supported(sels: Seq<GqlSelection>, i: int) -> bool
    decreases sels, sels.len() - i,
{
    if i < 0 || i >= sels.len() {
        true
    } else {
        match sels[i] {
            GqlSelection::Field(c) => sp_field_supported(c) && sp_sels_supported(sels, i + 1),
            _ => false,
        }
    }
}

/// Whether the whole document avoids fragments and directives: no fragment
/// definition, no directive on an operation, and every selection tree clean.
pub open spec fn sp_doc_supported(defs: Seq<GqlDefinition>, i: int) -> bool
    decreases defs.len() - i,
{
    if i < 0 || i >= defs.len() {
        true
    } else {
        match defs[i] {
            GqlDefinition::Operation(op) => !op.has_directives && sp_sels_supported(
                op.selections@,
                0,
            ) && sp_doc_supported(defs, i + 1),
            GqlDefinition::Fragment => false,
        }
    }
}

/// Checks one field's subtree for unsupported constructs.
#[verifier::loop_isolation(false)]
fn check_field(f: &GqlField) -> (r: Result<(), Error>)
    ensures
        r is Ok <==> sp_field_supported(*f),
        r matches Err(e) ==> e == Error::UnsupportedFeature,
    decreases *f,
{
    if f.has_directives {
        return Err(Error::UnsupportedFeature);
    }
    let n = f.selections.len();
    let mut i: usize = 0;
    while i < n
        invariant
            n == f.selections@.len(),
            i <= n,
            sp_sels_supported(f.selections@, 0) == sp_sels_supported(f.selections@, i as int),
        decreases n - i,
    {
        match &f.selections[i] {
            GqlSelection::Field(c) => {
                match check_field(c) {
                    Ok(_) => (),
                    Err(e) => {
                        return Err(e);
                    },
                }
            },
            _ => {
                return Err(Error::UnsupportedFeature);
            },
        }
        i = i + 1;
    }
    Ok(())
}

/// Checks the whole document for unsupported constructs; succeeds exactly
/// when none is present.
#[verifier::loop_isolation(false)]
pub fn check_unsupported(document: &GqlDocument) -> (r: Result<(), Error>)
    ensures
        r is Ok <==> sp_doc_supported(document.definitions@, 0),
        r matches Err(e) ==> e == Error::UnsupportedFeature,
{
    let defs = &document.definitions;
    let n = defs.len();
    let mut i: usize = 0;
    while i < n
        invariant
            n == defs@.len(),
            i <= n,
            sp_doc_supported(defs@, 0) == sp_doc_supported(defs@, i as int),
        decreases n - i,
    {
        match &defs[i] {
            GqlDefinition::Operation(op) => {
                if op.has_directives {
                    return Err(Error::UnsupportedFeature);
                }
                let sn = op.selections.len();
                let mut j: usize = 0;
                while j < sn
                    invariant
                        sn == op.selections@.len(),
                        j <= sn,
                        sp_sels_supported(op.selections@, 0) == sp_sels_supported(
                            op.selections@,
                            j as int,
                        ),
                    decreases sn - j,
                {
                    match &op.selections[j] {
                        GqlSelection::Field(c) => {
                            match check_field(c) {
                                Ok(_) => (),
                                Err(e) => {
                                    return Err(e);
                                },
                            }
                        },
                        _ => {
                            return Err(Error::UnsupportedFeature);
                        },
                    }
                    j = j + 1;
                }
            },
            GqlDefinition::Fragment => {
                return Err(Error::UnsupportedFeature);
            },
        }
        i = i + 1;
    }
    Ok(())
}

} // verus!
