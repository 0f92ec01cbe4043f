//! The schema-needs extractor: which entities (tables) and parent-child
//! relationships a query touches, with aliases preserved for the resolver.
//!
//! Root fields become entity references; every nested field that carries a
//! selection set of its own becomes an entity and a relationship under its
//! parent, recursively. Fragment markers contribute nothing: documents with
//! fragments are rejected before this runs.

use vstd::prelude::*;
use crate::ast::{GqlDefinition, GqlDocument, GqlField, GqlSelection};
use crate::error::Error;

verus! {

/// The view of an optional alias.
pub open spec fn sp_opt_view(o: Option<String>) -> Option<Seq<char>> {
    match o {
        Some(s) => Some(s@),
        None => None,
    }
}

/// One entity reference: a field name and its alias, if any.
#[derive(Debug)]
pub struct EntityReference {
    pub graphql_name: String,
    pub alias: Option<String>,
}

/// One relationship reference: a parent and child field name with their
/// aliases, if any.
#[derive(Debug)]
pub struct RelationshipReference {
    pub parent_name: String,
    pub child_name: String,
    pub parent_alias: Option<String>,
    pub child_alias: Option<String>,
}

/// The extracted schema requirements of a query.
#[derive(Debug)]
pub struct SchemaNeeds {
    pub entity_references: Vec<EntityReference>,
    pub relationship_references: Vec<RelationshipReference>,
}

impl SchemaNeeds {
    /// The entities as pairs of name and alias.
    pub open spec fn ents_view(&self) -> Seq<(Seq<char>, Option<Seq<char>>)> {
        self.entity_references@.map_values(
            |e: EntityReference| (e.graphql_name@, sp_opt_view(e.alias)),
        )
    }

    /// The relationships as tuples of parent, child and their aliases.
    pub open spec fn rels_view(&self) -> Seq<
        (Seq<char>, Seq<char>, Option<Seq<char>>, Option<Seq<char>>),
    > {
        self.relationship_references@.map_values(
            |r: RelationshipReference| (
                r.parent_name@,
                r.child_name@,
                sp_opt_view(r.parent_alias),
                sp_opt_view(r.child_alias),
            ),
        )
    }
}

/// The spec-level accumulator: entities and relationships so far.
pub ghost struct NeedsSt {
    pub ents: Seq<(Seq<char>, Option<Seq<char>>)>,
    pub rels: Seq<(Seq<char>, Seq<char>, Option<Seq<char>>, Option<Seq<char>>)>,
}

/// The fold over the sub-fields of a field named `pn` (with alias `pa`):
/// each object field becomes an entity and a relationship, and is recursed
/// into.
pub open spec fn sp_needs_children(
    st: NeedsSt,
    sels: Seq<GqlSelection>,
    i: int,
    pn: Seq<char>,
    pa: Option<Seq<char>>,
) -> NeedsSt
    decreases sels, sels.len() - i,
{
    if i < 0 || i >= sels.len() {
        st
    } else {
        match sels[i] {
            GqlSelection::Field(c) => {
                if c.selections@.len() > 0 {
                    let st1 = NeedsSt {
                        ents: st.ents.push((c.name@, sp_opt_view(c.alias))),
                        rels: st.rels.push((pn, c.name@, pa, sp_opt_view(c.alias))),
                    };
                    let st2 = sp_needs_children(st1, c.selections@, 0, c.name@, sp_opt_view(c.alias));
                    sp_needs_children(st2, sels, i + 1, pn, pa)
                } else {
                    sp_needs_children(st, sels, i + 1, pn, pa)
                }
            },
            _ => sp_needs_children(st, sels, i + 1, pn, pa),
        }
    }
}

/// The fold over the root selections of one operation: every root field is
/// an entity and the start of a recursion.
pub open spec fn sp_needs_roots(st: NeedsSt, sels: Seq<GqlSelection>, i: int) -> NeedsSt
    decreases sels, sels.len() - i,
{
    if i < 0 || i >= sels.len() {
        st
    } else {
        match sels[i] {
            GqlSelection::Field(c) => {
                let st1 = NeedsSt {
                    ents: st.ents.push((c.name@, sp_opt_view(c.alias))),
                    rels: st.rels,
                };
                let st2 = sp_needs_children(st1, c.selections@, 0, c.name@, sp_opt_view(c.alias));
                sp_needs_roots(st2, sels, i + 1)
            },
            _ => sp_needs_roots(st, sels, i + 1),
        }
    }
}

/// The fold over all definitions of a document.
pub open spec fn sp_needs_defs(st: NeedsSt, defs: Seq<GqlDefinition>, i: int) -> NeedsSt
    decreases defs.len() - i,
{
    if i < 0 || i >= defs.len() {
        st
    } else {
        match defs[i] {
            GqlDefinition::Operation(op) => sp_needs_defs(
                sp_needs_roots(st, op.selections@, 0),
                defs,
                i + 1,
            ),
            GqlDefinition::Fragment => sp_needs_defs(st, defs, i + 1),
        }
    }
}

/// The whole extraction over a document, starting from nothing.
pub open spec fn sp_schema_needs(defs: Seq<GqlDefinition>) -> NeedsSt {
    sp_needs_defs(NeedsSt { ents: Seq::empty(), rels: Seq::empty() }, defs, 0)
}

/// Extracts the schema requirements of a query: its entities and their
/// relationships.
#[derive(Debug)]
pub struct SchemaExtractor {
}

/// The combined view of an accumulator under construction.
pub open spec fn sp_needs_of(n: &SchemaNeeds) -> NeedsSt {
    NeedsSt { ents: n.ents_view(), rels: n.rels_view() }
}

impl SchemaExtractor {
    /// Creates a new schema extractor.
    pub fn new() -> (r: SchemaExtractor) {
        SchemaExtractor {  }
    }

    /// Whether a field selects an object: it carries selections of its own.
    pub fn is_object_field(&self, field: &GqlField) -> (r: bool)
        ensures
            r == (field.selections@.len() > 0),
    {
        field.selections.len() > 0
    }

    /// Walks one field's sub-tree, accumulating entities and relationships.
    #[verifier::loop_isolation(false)]
    fn walk_field(
        &self,
        needs: &mut SchemaNeeds,
        f: &GqlField,
        pn: &String,
        pa: &Option<String>,
    )
        ensures
            sp_needs_of(final(needs)) == sp_needs_children(
                sp_needs_of(old(needs)),
                f.selections@,
                0,
                pn@,
                sp_opt_view(*pa),
            ),
        decreases *f,
    {
        let ghost base = sp_needs_of(old(needs));
        let n = f.selections.len();
        let mut i: usize = 0;
        while i < n
            invariant
                n == f.selections@.len(),
                i <= n,
                sp_needs_children(base, f.selections@, 0, pn@, sp_opt_view(*pa))
                    == sp_needs_children(
                    sp_needs_of(needs),
                    f.selections@,
                    i as int,
                    pn@,
                    sp_opt_view(*pa),
                ),
            decreases n - i,
        {
            let ghost st_i = sp_needs_of(needs);
            match &f.selections[i] {
                GqlSelection::Field(c) => {
                    if c.selections.len() > 0 {
                        let alias = match &c.alias {
                            Some(a) => Some(a.clone()),
                            None => None,
                        };
                        needs.entity_references.push(
                            EntityReference { graphql_name: c.name.clone(), alias },
                        );
                        let calias = match &c.alias {
                            Some(a) => Some(a.clone()),
                            None => None,
                        };
                        let palias = match pa {
                            Some(a) => Some(a.clone()),
                            None => None,
                        };
                        needs.relationship_references.push(
                            RelationshipReference {
                                parent_name: pn.clone(),
                                child_name: c.name.clone(),
                                parent_alias: palias,
                                child_alias: calias,
                            },
                        );
                        proof {
                            assert(needs.ents_view() =~= st_i.ents.push(
                                (c.name@, sp_opt_view(c.alias)),
                            ));
                            assert(needs.rels_view() =~= st_i.rels.push(
                                (pn@, c.name@, sp_opt_view(*pa), sp_opt_view(c.alias)),
                            ));
                        }
                        self.walk_field(needs, c, &c.name, &c.alias);
                    }
                },
                _ => (),
            }
            i = i + 1;
        }
    }

    /// Extracts the entities and relationships of a document: root fields
    /// become entities, nested object fields become entities and
    /// relationships under their parents.
    #[verifier::loop_isolation(false)]
    pub fn extract_schema_needs(&self, document: &GqlDocument) -> (r: Result<SchemaNeeds, Error>)
        ensures
            r matches Ok(needs) ==> sp_needs_of(&needs) == sp_schema_needs(document.definitions@),
            r is Ok,
    {
        let mut needs = SchemaNeeds {
            entity_references: Vec::new(),
            relationship_references: Vec::new(),
        };
        proof {
            assert(needs.ents_view() =~= Seq::<(Seq<char>, Option<Seq<char>>)>::empty());
            assert(needs.rels_view() =~= Seq::<
                (Seq<char>, Seq<char>, Option<Seq<char>>, Option<Seq<char>>),
            >::empty());
        }
        let defs = &document.definitions;
        let dn = defs.len();
        let ghost base = sp_needs_of(&needs);
        let mut d: usize = 0;
        while d < dn
            invariant
                dn == defs@.len(),
                d <= dn,
                sp_needs_defs(base, defs@, 0) == sp_needs_defs(sp_needs_of(&needs), defs@, d as int),
            decreases dn - d,
        {
            match &defs[d] {
                GqlDefinition::Operation(op) => {
                    let sels = &op.selections;
                    let sn = sels.len();
                    let ghost rbase = sp_needs_of(&needs);
                    let mut j: usize = 0;
                    while j < sn
                        invariant
                            sn == sels@.len(),
                            j <= sn,
                            sp_needs_roots(rbase, sels@, 0) == sp_needs_roots(
                                sp_needs_of(&needs),
                                sels@,
                                j as int,
                            ),
                        decreases sn - j,
                    {
                        let ghost st_j = sp_needs_of(&needs);
                        match &sels[j] {
                            GqlSelection::Field(c) => {
                                let alias = match &c.alias {
                                    Some(a) => Some(a.clone()),
                                    None => None,
                                };
                                needs.entity_references.push(
                                    EntityReference { graphql_name: c.name.clone(), alias },
                                );
                                proof {
                                    assert(needs.ents_view() =~= st_j.ents.push(
                                        (c.name@, sp_opt_view(c.alias)),
                                    ));
                                    assert(needs.rels_view() =~= st_j.rels);
                                }
                                self.walk_field(&mut needs, c, &c.name, &c.alias);
                            },
                            _ => (),
                        }
                        j = j + 1;
                    }
                },
                _ => (),
            }
            d = d + 1;
        }
        Ok(needs)
    }
}

} // verus!
