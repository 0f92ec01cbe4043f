//! The field-path extractor: the heart of the analysis.
//!
//! Two complementary passes run over every operation definition. Pass A walks
//! the selection tree: every field with a non-empty selection set is recorded
//! as a table or relationship path, its leaf children as columns; the
//! container fields `aggregate`, `returning` and `nodes` also contribute
//! their leaf grandchildren as columns of the enclosing table. Pass B walks
//! the argument trees: `where` filters reveal relationship paths and
//! operator-bearing columns, insert-mutation `objects`/`object` and
//! update-mutation `_set` arguments contribute their member names as columns.
//!
//! The whole traversal is modelled by the `sp_` spec functions below as a
//! state transformer over [`ExtSt`]; the executable extractor is proved to
//! compute exactly that model, including the order in which names enter the
//! interner.

use vstd::prelude::*;
use crate::ast::{
    GqlArgument, GqlDefinition, GqlDocument, GqlField, GqlObjectField, GqlSelection, GqlValue,
};
use crate::config::Config;
use crate::error::Error;
use crate::interning::{sp_has_room, sp_intern_id, sp_intern_tab, Interner};
use crate::pathmap::{sp_add_col, sp_insert_path, ColumnMap, PathSet};
use crate::strutil::{sp_starts_with, str_eq, str_first_is, str_starts_with};
use crate::types::FieldPath;

verus! {

/// The extraction state: the interner table, the current path, the recorded
/// paths and the column usage, all at the spec level.
pub ghost struct ExtSt {
    pub itab: Seq<Seq<char>>,
    pub cur: Seq<u32>,
    pub paths: Seq<Seq<u32>>,
    pub cols: Seq<(Seq<u32>, Seq<u32>)>,
}

/// The outcome of a traversal step: a new state, or the error that aborts the
/// whole extraction.
pub ghost enum ExtOut {
    Good(ExtSt),
    Bad(Error),
}

/// Whether a name begins with an underscore: such argument names are
/// operators, never field names.
pub open spec fn sp_is_underscore(s: Seq<char>) -> bool {
    s.len() > 0 && s[0] == '_'
}

/// The reserved container fields that pass their grandchildren through as
/// columns of the enclosing table.
pub open spec fn sp_is_container(s: Seq<char>) -> bool {
    s == "aggregate"@ || s == "returning"@ || s == "nodes"@
}

/// Whether any member of an object literal is an operator token.
pub open spec fn sp_obj_has_ops(fs: Seq<GqlObjectField>) -> bool {
    exists|j: int| 0 <= j < fs.len() && sp_is_underscore(fs[j].name@)
}

/// Interning one name into the state: the grown table and the name's id.
pub open spec fn sp_intern_into(st: ExtSt, s: Seq<char>) -> (ExtSt, u32) {
    (ExtSt { itab: sp_intern_tab(st.itab, s), ..st }, sp_intern_id(st.itab, s))
}

/// Pass A on one field: push its name, record the path when the selection
/// set is non-empty, fold over the children, pop.
pub open spec fn sp_pass_a_field(st: ExtSt, f: GqlField) -> ExtOut
    decreases f, 0int,
{
    if !sp_has_room(st.itab, f.name@) {
        ExtOut::Bad(Error::CorruptedState)
    } else {
        let (st1, id) = sp_intern_into(st, f.name@);
        let st2 = ExtSt { cur: st1.cur.push(id), ..st1 };
        if f.selections@.len() == 0 {
            ExtOut::Good(ExtSt { cur: st.cur, ..st2 })
        } else {
            let st3 = ExtSt { paths: sp_insert_path(st2.paths, st2.cur), ..st2 };
            match sp_pass_a_children(st3, f.selections@, 0) {
                ExtOut::Good(st4) => ExtOut::Good(ExtSt { cur: st.cur, ..st4 }),
                ExtOut::Bad(e) => ExtOut::Bad(e),
            }
        }
    }
}

/// Pass A fold over the children of a field whose path is `st.cur`: leaves
/// become columns of `st.cur`, containers contribute grandchildren and are
/// recursed into, everything else is recursed into as a relationship.
pub open spec fn sp_pass_a_children(st: ExtSt, sels: Seq<GqlSelection>, i: int) -> ExtOut
    decreases sels, sels.len() - i,
{
    if i < 0 || i >= sels.len() {
        ExtOut::Good(st)
    } else {
        match sels[i] {
            GqlSelection::Field(c) => {
                if c.selections@.len() == 0 {
                    if !sp_has_room(st.itab, c.name@) {
                        ExtOut::Bad(Error::CorruptedState)
                    } else {
                        let (st1, cid) = sp_intern_into(st, c.name@);
                        let st2 = ExtSt { cols: sp_add_col(st1.cols, st1.cur, cid), ..st1 };
                        sp_pass_a_children(st2, sels, i + 1)
                    }
                } else if sp_is_container(c.name@) {
                    match sp_pass_a_grand(st, c.selections@, 0) {
                        ExtOut::Good(stg) => match sp_pass_a_field(stg, c) {
                            ExtOut::Good(stf) => sp_pass_a_children(stf, sels, i + 1),
                            ExtOut::Bad(e) => ExtOut::Bad(e),
                        },
                        ExtOut::Bad(e) => ExtOut::Bad(e),
                    }
                } else {
                    match sp_pass_a_field(st, c) {
                        ExtOut::Good(stf) => sp_pass_a_children(stf, sels, i + 1),
                        ExtOut::Bad(e) => ExtOut::Bad(e),
                    }
                }
            },
            _ => sp_pass_a_children(st, sels, i + 1),
        }
    }
}

/// Pass A fold over a container's children: each leaf grandchild becomes a
/// column of the enclosing table `st.cur`.
pub open spec fn sp_pass_a_grand(st: ExtSt, sels: Seq<GqlSelection>, i: int) -> ExtOut
    decreases sels, sels.len() - i,
{
    if i < 0 || i >= sels.len() {
        ExtOut::Good(st)
    } else {
        match sels[i] {
            GqlSelection::Field(g) => {
                if g.selections@.len() == 0 {
                    if !sp_has_room(st.itab, g.name@) {
                        ExtOut::Bad(Error::CorruptedState)
                    } else {
                        let (st1, gid) = sp_intern_into(st, g.name@);
                        let st2 = ExtSt { cols: sp_add_col(st1.cols, st1.cur, gid), ..st1 };
                        sp_pass_a_grand(st2, sels, i + 1)
                    }
                } else {
                    sp_pass_a_grand(st, sels, i + 1)
                }
            },
            _ => sp_pass_a_grand(st, sels, i + 1),
        }
    }
}

/// Pass A fold over the root selections of one operation, with the current
/// path reset for each root field.
pub open spec fn sp_pass_a_roots(st: ExtSt, sels: Seq<GqlSelection>, i: int) -> ExtOut
    decreases sels, sels.len() - i,
{
    if i < 0 || i >= sels.len() {
        ExtOut::Good(st)
    } else {
        match sels[i] {
            GqlSelection::Field(c) => {
                match sp_pass_a_field(ExtSt { cur: Seq::empty(), ..st }, c) {
                    ExtOut::Good(stf) => sp_pass_a_roots(stf, sels, i + 1),
                    ExtOut::Bad(e) => ExtOut::Bad(e),
                }
            },
            _ => sp_pass_a_roots(st, sels, i + 1),
        }
    }
}

/// Pass B: the filter tree of a `where` argument value.
pub open spec fn sp_filter_value(st: ExtSt, v: GqlValue) -> ExtOut
    decreases v, 0int,
{
    match v {
        GqlValue::Object(fs) => sp_filter_members(st, fs@, 0),
        GqlValue::List(es) => sp_filter_elems(st, es@, 0),
        _ => ExtOut::Good(st),
    }
}

/// Pass B fold over the members of a filter object. Operator members are
/// skipped, except `_and`/`_or`, whose list elements are recursed into.
/// An ordinary member is pushed onto the path; an object value records a
/// relationship path and, when it carries operators under a nested path,
/// also a column of the parent; a scalar value records a column of the
/// parent.
pub open spec fn sp_filter_members(st: ExtSt, fs: Seq<GqlObjectField>, i: int) -> ExtOut
    decreases fs, fs.len() - i, 1int,
{
    if i < 0 || i >= fs.len() {
        ExtOut::Good(st)
    } else {
        let m = fs[i];
        if sp_is_underscore(m.name@) {
            if m.name@ == "_and"@ || m.name@ == "_or"@ {
                match m.value {
                    GqlValue::List(es) => match sp_filter_elems(st, es@, 0) {
                        ExtOut::Good(st2) => sp_filter_members(st2, fs, i + 1),
                        ExtOut::Bad(e) => ExtOut::Bad(e),
                    },
                    _ => sp_filter_members(st, fs, i + 1),
                }
            } else {
                sp_filter_members(st, fs, i + 1)
            }
        } else {
            if !sp_has_room(st.itab, m.name@) {
                ExtOut::Bad(Error::CorruptedState)
            } else {
                let (st1, id) = sp_intern_into(st, m.name@);
                let st2 = ExtSt { cur: st1.cur.push(id), ..st1 };
                match m.value {
                    GqlValue::Object(inner) => {
                        let st3 = ExtSt { paths: sp_insert_path(st2.paths, st2.cur), ..st2 };
                        let st4 = if sp_obj_has_ops(inner@) && st2.cur.len() > 1 {
                            ExtSt { cols: sp_add_col(st3.cols, st2.cur.drop_last(), id), ..st3 }
                        } else {
                            st3
                        };
                        match sp_filter_value(st4, m.value) {
                            ExtOut::Good(st5) => sp_filter_members(
                                ExtSt { cur: st.cur, ..st5 },
                                fs,
                                i + 1,
                            ),
                            ExtOut::Bad(e) => ExtOut::Bad(e),
                        }
                    },
                    _ => {
                        let st3 = if st2.cur.len() > 1 {
                            ExtSt { cols: sp_add_col(st2.cols, st2.cur.drop_last(), id), ..st2 }
                        } else {
                            st2
                        };
                        sp_filter_members(ExtSt { cur: st.cur, ..st3 }, fs, i + 1)
                    },
                }
            }
        }
    }
}

/// Pass B fold over the elements of a filter list.
pub open spec fn sp_filter_elems(st: ExtSt, es: Seq<GqlValue>, i: int) -> ExtOut
    decreases es, es.len() - i, 1int,
{
    if i < 0 || i >= es.len() {
        ExtOut::Good(st)
    } else {
        match sp_filter_value(st, es[i]) {
            ExtOut::Good(st2) => sp_filter_elems(st2, es, i + 1),
            ExtOut::Bad(e) => ExtOut::Bad(e),
        }
    }
}

/// The member names of a mutation object, each recorded as a column of the
/// table `st.cur`.
pub open spec fn sp_object_columns(st: ExtSt, fs: Seq<GqlObjectField>, i: int) -> ExtOut
    decreases fs, fs.len() - i,
{
    if i < 0 || i >= fs.len() {
        ExtOut::Good(st)
    } else {
        let m = fs[i];
        if !sp_has_room(st.itab, m.name@) {
            ExtOut::Bad(Error::CorruptedState)
        } else {
            let (st1, id) = sp_intern_into(st, m.name@);
            let st2 = ExtSt { cols: sp_add_col(st1.cols, st1.cur, id), ..st1 };
            sp_object_columns(st2, fs, i + 1)
        }
    }
}

/// Pass B: the `objects`/`object` argument of an insert mutation. An object
/// contributes its member names as columns; a list is rejected for the
/// singular `object` and otherwise folded over; a variable records only the
/// table path; anything else is accepted silently.
pub open spec fn sp_mutation_objects(st: ExtSt, v: GqlValue, single: bool) -> ExtOut
    decreases v, 1int,
{
    match v {
        GqlValue::Object(fs) => match sp_object_columns(st, fs@, 0) {
            ExtOut::Good(st1) => ExtOut::Good(
                ExtSt { paths: sp_insert_path(st1.paths, st1.cur), ..st1 },
            ),
            ExtOut::Bad(e) => ExtOut::Bad(e),
        },
        GqlValue::List(es) => {
            if single {
                ExtOut::Bad(Error::InvalidInput)
            } else {
                match sp_mutation_list(st, es@, 0) {
                    ExtOut::Good(st1) => ExtOut::Good(
                        ExtSt { paths: sp_insert_path(st1.paths, st1.cur), ..st1 },
                    ),
                    ExtOut::Bad(e) => ExtOut::Bad(e),
                }
            }
        },
        GqlValue::Variable => ExtOut::Good(
            ExtSt { paths: sp_insert_path(st.paths, st.cur), ..st },
        ),
        GqlValue::Scalar => ExtOut::Good(st),
    }
}

/// Pass B fold over the elements of a batch `objects` list.
pub open spec fn sp_mutation_list(st: ExtSt, es: Seq<GqlValue>, i: int) -> ExtOut
    decreases es, es.len() - i, 2int,
{
    if i < 0 || i >= es.len() {
        ExtOut::Good(st)
    } else {
        match sp_mutation_objects(st, es[i], true) {
            ExtOut::Good(st2) => sp_mutation_list(st2, es, i + 1),
            ExtOut::Bad(e) => ExtOut::Bad(e),
        }
    }
}

/// Pass B: the `_set` argument of an update mutation. An object contributes
/// its member names as columns and records the table path; a variable
/// records only the path; anything else is malformed.
pub open spec fn sp_set_value(st: ExtSt, v: GqlValue) -> ExtOut
    decreases v, 1int,
{
    match v {
        GqlValue::Object(fs) => match sp_object_columns(st, fs@, 0) {
            ExtOut::Good(st1) => ExtOut::Good(
                ExtSt { paths: sp_insert_path(st1.paths, st1.cur), ..st1 },
            ),
            ExtOut::Bad(e) => ExtOut::Bad(e),
        },
        GqlValue::Variable => ExtOut::Good(
            ExtSt { paths: sp_insert_path(st.paths, st.cur), ..st },
        ),
        _ => ExtOut::Bad(Error::InvalidInput),
    }
}

/// Pass B fold over the arguments of the field named `fname`: `where`
/// filters always; `objects`/`object` under the insert prefix; `_set` under
/// the update prefix; all other arguments are ignored.
pub open spec fn sp_pass_b_args(
    st: ExtSt,
    args: Seq<GqlArgument>,
    i: int,
    fname: Seq<char>,
    ins: Seq<char>,
    upd: Seq<char>,
) -> ExtOut
    decreases args, args.len() - i,
{
    if i < 0 || i >= args.len() {
        ExtOut::Good(st)
    } else {
        let a = args[i];
        let step = if a.name@ == "where"@ {
            sp_filter_value(st, a.value)
        } else if sp_starts_with(fname, ins) && (a.name@ == "objects"@ || a.name@ == "object"@) {
            sp_mutation_objects(st, a.value, a.name@ == "object"@)
        } else if sp_starts_with(fname, upd) && a.name@ == "_set"@ {
            sp_set_value(st, a.value)
        } else {
            ExtOut::Good(st)
        };
        match step {
            ExtOut::Good(st2) => sp_pass_b_args(st2, args, i + 1, fname, ins, upd),
            ExtOut::Bad(e) => ExtOut::Bad(e),
        }
    }
}

/// Pass B on one field: push its name, record the path when the selection
/// set is non-empty, fold over the arguments, then over the sub-fields'
/// arguments, pop.
pub open spec fn sp_pass_b_field(st: ExtSt, f: GqlField, ins: Seq<char>, upd: Seq<char>) -> ExtOut
    decreases f, 0int,
{
    if !sp_has_room(st.itab, f.name@) {
        ExtOut::Bad(Error::CorruptedState)
    } else {
        let (st1, id) = sp_intern_into(st, f.name@);
        let st2 = ExtSt { cur: st1.cur.push(id), ..st1 };
        let st3 = if f.selections@.len() > 0 {
            ExtSt { paths: sp_insert_path(st2.paths, st2.cur), ..st2 }
        } else {
            st2
        };
        match sp_pass_b_args(st3, f.arguments@, 0, f.name@, ins, upd) {
            ExtOut::Good(st4) => match sp_pass_b_children(st4, f.selections@, 0, ins, upd) {
                ExtOut::Good(st5) => ExtOut::Good(ExtSt { cur: st.cur, ..st5 }),
                ExtOut::Bad(e) => ExtOut::Bad(e),
            },
            ExtOut::Bad(e) => ExtOut::Bad(e),
        }
    }
}

/// Pass B fold over the sub-fields of a field.
pub open spec fn sp_pass_b_children(
    st: ExtSt,
    sels: Seq<GqlSelection>,
    i: int,
    ins: Seq<char>,
    upd: Seq<char>,
) -> ExtOut
    decreases sels, sels.len() - i,
{
    if i < 0 || i >= sels.len() {
        ExtOut::Good(st)
    } else {
        match sels[i] {
            GqlSelection::Field(c) => match sp_pass_b_field(st, c, ins, upd) {
                ExtOut::Good(stf) => sp_pass_b_children(stf, sels, i + 1, ins, upd),
                ExtOut::Bad(e) => ExtOut::Bad(e),
            },
            _ => sp_pass_b_children(st, sels, i + 1, ins, upd),
        }
    }
}

/// Pass B fold over the root selections of one operation, with the current
/// path reset for each root field.
pub open spec fn sp_pass_b_roots(
    st: ExtSt,
    sels: Seq<GqlSelection>,
    i: int,
    ins: Seq<char>,
    upd: Seq<char>,
) -> ExtOut
    decreases sels, sels.len() - i,
{
    if i < 0 || i >= sels.len() {
        ExtOut::Good(st)
    } else {
        match sels[i] {
            GqlSelection::Field(c) => {
                match sp_pass_b_field(ExtSt { cur: Seq::empty(), ..st }, c, ins, upd) {
                    ExtOut::Good(stf) => sp_pass_b_roots(stf, sels, i + 1, ins, upd),
                    ExtOut::Bad(e) => ExtOut::Bad(e),
                }
            },
            _ => sp_pass_b_roots(st, sels, i + 1, ins, upd),
        }
    }
}

/// Both passes over one operation definition: pass A over its root
/// selections, then pass B.
pub open spec fn sp_operation(st: ExtSt, sels: Seq<GqlSelection>, ins: Seq<char>, upd: Seq<char>) -> ExtOut {
    match sp_pass_a_roots(st, sels, 0) {
        ExtOut::Good(st1) => sp_pass_b_roots(st1, sels, 0, ins, upd),
        ExtOut::Bad(e) => ExtOut::Bad(e),
    }
}

/// The fold over all definitions of a document; fragment definitions
/// contribute nothing here (they are rejected before extraction runs).
pub open spec fn sp_defs(
    st: ExtSt,
    defs: Seq<GqlDefinition>,
    i: int,
    ins: Seq<char>,
    upd: Seq<char>,
) -> ExtOut
    decreases defs.len() - i,
{
    if i < 0 || i >= defs.len() {
        ExtOut::Good(st)
    } else {
        match defs[i] {
            GqlDefinition::Operation(op) => match sp_operation(st, op.selections@, ins, upd) {
                ExtOut::Good(st2) => sp_defs(st2, defs, i + 1, ins, upd),
                ExtOut::Bad(e) => ExtOut::Bad(e),
            },
            GqlDefinition::Fragment => sp_defs(st, defs, i + 1, ins, upd),
        }
    }
}

/// Whether the document holds at least one operation definition.
pub open spec fn sp_has_operation(defs: Seq<GqlDefinition>) -> bool {
    exists|i: int| 0 <= i < defs.len() && defs[i] is Operation
}

/// The initial extraction state over an interner table.
pub open spec fn sp_init_st(itab: Seq<Seq<char>>) -> ExtSt {
    ExtSt { itab, cur: Seq::empty(), paths: Seq::empty(), cols: Seq::empty() }
}

/// The whole extraction of a document, starting from an interner table.
pub open spec fn sp_extract(
    itab: Seq<Seq<char>>,
    doc: GqlDocument,
    ins: Seq<char>,
    upd: Seq<char>,
) -> ExtOut {
    sp_defs(sp_init_st(itab), doc.definitions@, 0, ins, upd)
}

/// A successful column fold leaves the current path untouched.
proof fn lemma_object_columns_cur(st: ExtSt, fs: Seq<GqlObjectField>, i: int)
    ensures
        sp_object_columns(st, fs, i) matches ExtOut::Good(st2) ==> st2.cur == st.cur,
    decreases fs.len() - i,
{
    if 0 <= i < fs.len() {
        let m = fs[i];
        if sp_has_room(st.itab, m.name@) {
            let (st1, id) = sp_intern_into(st, m.name@);
            let st2 = ExtSt { cols: sp_add_col(st1.cols, st1.cur, id), ..st1 };
            lemma_object_columns_cur(st2, fs, i + 1);
        }
    }
}

/// A successful mutation-objects step leaves the current path untouched.
proof fn lemma_mutation_objects_cur(st: ExtSt, v: GqlValue, single: bool)
    ensures
        sp_mutation_objects(st, v, single) matches ExtOut::Good(st2) ==> st2.cur == st.cur,
    decreases v, 1int,
{
    match v {
        GqlValue::Object(fs) => {
            lemma_object_columns_cur(st, fs@, 0);
        },
        GqlValue::List(es) => {
            if !single {
                lemma_mutation_list_cur(st, es@, 0);
            }
        },
        _ => {},
    }
}

/// A successful batch fold leaves the current path untouched.
proof fn lemma_mutation_list_cur(st: ExtSt, es: Seq<GqlValue>, i: int)
    ensures
        sp_mutation_list(st, es, i) matches ExtOut::Good(st2) ==> st2.cur == st.cur,
    decreases es, es.len() - i, 2int,
{
    if 0 <= i < es.len() {
        lemma_mutation_objects_cur(st, es[i], true);
        match sp_mutation_objects(st, es[i], true) {
            ExtOut::Good(st2) => {
                lemma_mutation_list_cur(st2, es, i + 1);
            },
            ExtOut::Bad(_) => {},
        }
    }
}

/// A successful `_set` step leaves the current path untouched.
proof fn lemma_set_value_cur(st: ExtSt, v: GqlValue)
    ensures
        sp_set_value(st, v) matches ExtOut::Good(st2) ==> st2.cur == st.cur,
{
    match v {
        GqlValue::Object(fs) => {
            lemma_object_columns_cur(st, fs@, 0);
        },
        _ => {},
    }
}

/// A successful filter descent leaves the current path untouched.
proof fn lemma_filter_value_cur(st: ExtSt, v: GqlValue)
    ensures
        sp_filter_value(st, v) matches ExtOut::Good(st2) ==> st2.cur == st.cur,
    decreases v, 0int,
{
    match v {
        GqlValue::Object(fs) => {
            lemma_filter_members_cur(st, fs@, 0);
        },
        GqlValue::List(es) => {
            lemma_filter_elems_cur(st, es@, 0);
        },
        _ => {},
    }
}

/// A successful filter-member fold leaves the current path untouched.
proof fn lemma_filter_members_cur(st: ExtSt, fs: Seq<GqlObjectField>, i: int)
    ensures
        sp_filter_members(st, fs, i) matches ExtOut::Good(st2) ==> st2.cur == st.cur,
    decreases fs, fs.len() - i, 1int,
{
    if 0 <= i < fs.len() {
        let m = fs[i];
        if sp_is_underscore(m.name@) {
            if m.name@ == "_and"@ || m.name@ == "_or"@ {
                match m.value {
                    GqlValue::List(es) => {
                        lemma_filter_elems_cur(st, es@, 0);
                        match sp_filter_elems(st, es@, 0) {
                            ExtOut::Good(st2) => {
                                lemma_filter_members_cur(st2, fs, i + 1);
                            },
                            ExtOut::Bad(_) => {},
                        }
                    },
                    _ => {
                        lemma_filter_members_cur(st, fs, i + 1);
                    },
                }
            } else {
                lemma_filter_members_cur(st, fs, i + 1);
            }
        } else {
            if sp_has_room(st.itab, m.name@) {
                let (st1, id) = sp_intern_into(st, m.name@);
                let st2 = ExtSt { cur: st1.cur.push(id), ..st1 };
                match m.value {
                    GqlValue::Object(inner) => {
                        let st3 = ExtSt { paths: sp_insert_path(st2.paths, st2.cur), ..st2 };
                        let st4 = if sp_obj_has_ops(inner@) && st2.cur.len() > 1 {
                            ExtSt { cols: sp_add_col(st3.cols, st2.cur.drop_last(), id), ..st3 }
                        } else {
                            st3
                        };
                        match sp_filter_value(st4, m.value) {
                            ExtOut::Good(st5) => {
                                lemma_filter_members_cur(ExtSt { cur: st.cur, ..st5 }, fs, i + 1);
                            },
                            ExtOut::Bad(_) => {},
                        }
                    },
                    _ => {
                        let st3 = if st2.cur.len() > 1 {
                            ExtSt { cols: sp_add_col(st2.cols, st2.cur.drop_last(), id), ..st2 }
                        } else {
                            st2
                        };
                        lemma_filter_members_cur(ExtSt { cur: st.cur, ..st3 }, fs, i + 1);
                    },
                }
            }
        }
    }
}

/// A successful filter-list fold leaves the current path untouched.
proof fn lemma_filter_elems_cur(st: ExtSt, es: Seq<GqlValue>, i: int)
    ensures
        sp_filter_elems(st, es, i) matches ExtOut::Good(st2) ==> st2.cur == st.cur,
    decreases es, es.len() - i, 1int,
{
    if 0 <= i < es.len() {
        lemma_filter_value_cur(st, es[i]);
        match sp_filter_value(st, es[i]) {
            ExtOut::Good(st2) => {
                lemma_filter_elems_cur(st2, es, i + 1);
            },
            ExtOut::Bad(_) => {},
        }
    }
}

/// A successful argument fold leaves the current path untouched.
proof fn lemma_pass_b_args_cur(
    st: ExtSt,
    args: Seq<GqlArgument>,
    i: int,
    fname: Seq<char>,
    ins: Seq<char>,
    upd: Seq<char>,
)
    ensures
        sp_pass_b_args(st, args, i, fname, ins, upd) matches ExtOut::Good(st2) ==> st2.cur
            == st.cur,
    decreases args.len() - i,
{
    if 0 <= i < args.len() {
        let a = args[i];
        lemma_filter_value_cur(st, a.value);
        lemma_mutation_objects_cur(st, a.value, a.name@ == "object"@);
        lemma_set_value_cur(st, a.value);
        let step = if a.name@ == "where"@ {
            sp_filter_value(st, a.value)
        } else if sp_starts_with(fname, ins) && (a.name@ == "objects"@ || a.name@ == "object"@) {
            sp_mutation_objects(st, a.value, a.name@ == "object"@)
        } else if sp_starts_with(fname, upd) && a.name@ == "_set"@ {
            sp_set_value(st, a.value)
        } else {
            ExtOut::Good(st)
        };
        match step {
            ExtOut::Good(st2) => {
                lemma_pass_b_args_cur(st2, args, i + 1, fname, ins, upd);
            },
            ExtOut::Bad(_) => {},
        }
    }
}

/// A successful pass-A child fold leaves the current path untouched.
proof fn lemma_pass_a_children_cur(st: ExtSt, sels: Seq<GqlSelection>, i: int)
    ensures
        sp_pass_a_children(st, sels, i) matches ExtOut::Good(st2) ==> st2.cur == st.cur,
    decreases sels, sels.len() - i, 1int,
{
    if 0 <= i < sels.len() {
        match sels[i] {
            GqlSelection::Field(c) => {
                if c.selections@.len() == 0 {
                    if sp_has_room(st.itab, c.name@) {
                        let (st1, cid) = sp_intern_into(st, c.name@);
                        let st2 = ExtSt { cols: sp_add_col(st1.cols, st1.cur, cid), ..st1 };
                        lemma_pass_a_children_cur(st2, sels, i + 1);
                    }
                } else if sp_is_container(c.name@) {
                    lemma_pass_a_grand_cur(st, c.selections@, 0);
                    match sp_pass_a_grand(st, c.selections@, 0) {
                        ExtOut::Good(stg) => {
                            match sp_pass_a_field(stg, c) {
                                ExtOut::Good(stf) => {
                                    lemma_pass_a_children_cur(stf, sels, i + 1);
                                },
                                ExtOut::Bad(_) => {},
                            }
                        },
                        ExtOut::Bad(_) => {},
                    }
                } else {
                    match sp_pass_a_field(st, c) {
                        ExtOut::Good(stf) => {
                            lemma_pass_a_children_cur(stf, sels, i + 1);
                        },
                        ExtOut::Bad(_) => {},
                    }
                }
            },
            _ => {
                lemma_pass_a_children_cur(st, sels, i + 1);
            },
        }
    }
}

/// A successful grandchild fold leaves the current path untouched.
proof fn lemma_pass_a_grand_cur(st: ExtSt, sels: Seq<GqlSelection>, i: int)
    ensures
        sp_pass_a_grand(st, sels, i) matches ExtOut::Good(st2) ==> st2.cur == st.cur,
    decreases sels, sels.len() - i, 1int,
{
    if 0 <= i < sels.len() {
        match sels[i] {
            GqlSelection::Field(g) => {
                if g.selections@.len() == 0 {
                    if sp_has_room(st.itab, g.name@) {
                        let (st1, gid) = sp_intern_into(st, g.name@);
                        let st2 = ExtSt { cols: sp_add_col(st1.cols, st1.cur, gid), ..st1 };
                        lemma_pass_a_grand_cur(st2, sels, i + 1);
                    }
                } else {
                    lemma_pass_a_grand_cur(st, sels, i + 1);
                }
            },
            _ => {
                lemma_pass_a_grand_cur(st, sels, i + 1);
            },
        }
    }
}

/// A successful pass-B child fold leaves the current path untouched.
proof fn lemma_pass_b_children_cur(
    st: ExtSt,
    sels: Seq<GqlSelection>,
    i: int,
    ins: Seq<char>,
    upd: Seq<char>,
)
    ensures
        sp_pass_b_children(st, sels, i, ins, upd) matches ExtOut::Good(st2) ==> st2.cur == st.cur,
    decreases sels, sels.len() - i, 1int,
{
    if 0 <= i < sels.len() {
        match sels[i] {
            GqlSelection::Field(c) => {
                match sp_pass_b_field(st, c, ins, upd) {
                    ExtOut::Good(stf) => {
                        lemma_pass_b_children_cur(stf, sels, i + 1, ins, upd);
                    },
                    ExtOut::Bad(_) => {},
                }
            },
            _ => {
                lemma_pass_b_children_cur(st, sels, i + 1, ins, upd);
            },
        }
    }
}

/// The first table is a prefix of the second: interning only appends.
pub open spec fn sp_tab_le(t1: Seq<Seq<char>>, t2: Seq<Seq<char>>) -> bool {
    t1.len() <= t2.len() && (forall|i: int| 0 <= i < t1.len() ==> t1[i] == t2[i])
}

/// Every id recorded in the state is a valid position in its table.
pub open spec fn sp_st_ok(st: ExtSt) -> bool {
    &&& forall|i: int, k: int|
        0 <= i < st.paths.len() && 0 <= k < st.paths[i].len() ==> (#[trigger] st.paths[i][k])
            < st.itab.len()
    &&& forall|i: int, k: int|
        0 <= i < st.cols.len() && 0 <= k < st.cols[i].0.len() ==> (#[trigger] st.cols[i].0[k])
            < st.itab.len()
    &&& forall|i: int, k: int|
        0 <= i < st.cols.len() && 0 <= k < st.cols[i].1.len() ==> (#[trigger] st.cols[i].1[k])
            < st.itab.len()
    &&& forall|k: int| 0 <= k < st.cur.len() ==> (#[trigger] st.cur[k]) < st.itab.len()
}

/// Interning preserves the table prefix and yields a valid id.
proof fn lemma_intern_ok(st: ExtSt, s: Seq<char>)
    ensures
        sp_tab_le(st.itab, sp_intern_into(st, s).0.itab),
        sp_intern_into(st, s).1 < sp_intern_into(st, s).0.itab.len(),
{
    if st.itab.contains(s) {
        let i = crate::interning::sp_index_of(st.itab, s);
        assert(0 <= i < st.itab.len());
    }
}

/// Recording a path keeps every id valid.
proof fn lemma_insert_path_ok(st: ExtSt, p: Seq<u32>)
    requires
        sp_st_ok(st),
        forall|k: int| 0 <= k < p.len() ==> (#[trigger] p[k]) < st.itab.len(),
    ensures
        sp_st_ok(ExtSt { paths: sp_insert_path(st.paths, p), ..st }),
{
    let w = sp_insert_path(st.paths, p);
    assert forall|i: int, k: int|
        0 <= i < w.len() && 0 <= k < w[i].len() implies (#[trigger] w[i][k]) < st.itab.len() by {
        if i < st.paths.len() {
            assert(w[i] == st.paths[i]);
        } else {
            assert(w[i] == p);
        }
    }
}

/// Recording a column keeps every id valid.
proof fn lemma_add_col_ok(st: ExtSt, t: Seq<u32>, c: u32)
    requires
        sp_st_ok(st),
        forall|k: int| 0 <= k < t.len() ==> (#[trigger] t[k]) < st.itab.len(),
        c < st.itab.len(),
    ensures
        sp_st_ok(ExtSt { cols: sp_add_col(st.cols, t, c), ..st }),
{
    let w = sp_add_col(st.cols, t, c);
    if crate::pathmap::sp_has_col_entry(st.cols, t) {
        let i = crate::pathmap::sp_col_idx(st.cols, t);
        assert(0 <= i < st.cols.len() && st.cols[i].0 == t);
        if !st.cols[i].1.contains(c) {
            assert(w == st.cols.update(i, (t, st.cols[i].1.push(c))));
            assert forall|a: int, k: int|
                0 <= a < w.len() && 0 <= k < w[a].1.len() implies (#[trigger] w[a].1[k])
                < st.itab.len() by {
                if a == i {
                    if k < st.cols[i].1.len() {
                        assert(w[a].1[k] == st.cols[i].1[k]);
                    } else {
                        assert(w[a].1[k] == c);
                    }
                } else {
                    assert(w[a] == st.cols[a]);
                }
            }
            assert forall|a: int, k: int|
                0 <= a < w.len() && 0 <= k < w[a].0.len() implies (#[trigger] w[a].0[k])
                < st.itab.len() by {
                if a != i {
                    assert(w[a] == st.cols[a]);
                }
            }
        }
    } else {
        assert(w == st.cols.push((t, seq![c])));
        assert forall|a: int, k: int|
            0 <= a < w.len() && 0 <= k < w[a].1.len() implies (#[trigger] w[a].1[k])
            < st.itab.len() by {
            if a < st.cols.len() {
                assert(w[a] == st.cols[a]);
            } else {
                assert(w[a].1 == seq![c]);
                assert(w[a].1[k] == c);
            }
        }
        assert forall|a: int, k: int|
            0 <= a < w.len() && 0 <= k < w[a].0.len() implies (#[trigger] w[a].0[k])
            < st.itab.len() by {
            if a < st.cols.len() {
                assert(w[a] == st.cols[a]);
            } else {
                assert(w[a].0 == t);
            }
        }
    }
}

/// Validity of all recorded ids survives growing the table.
proof fn lemma_st_ok_mono(st: ExtSt, itab2: Seq<Seq<char>>)
    requires
        sp_st_ok(st),
        sp_tab_le(st.itab, itab2),
    ensures
        sp_st_ok(ExtSt { itab: itab2, ..st }),
{
}

/// Pushing a valid id onto the current path keeps the state valid.
proof fn lemma_push_cur_ok(st: ExtSt, id: u32)
    requires
        sp_st_ok(st),
        id < st.itab.len(),
    ensures
        sp_st_ok(ExtSt { cur: st.cur.push(id), ..st }),
{
    let w = st.cur.push(id);
    assert forall|k: int| 0 <= k < w.len() implies (#[trigger] w[k]) < st.itab.len() by {
        if k < st.cur.len() {
            assert(w[k] == st.cur[k]);
        } else {
            assert(w[k] == id);
        }
    }
}

/// Restoring an earlier current path under a grown table keeps the state
/// valid.
proof fn lemma_restore_cur_ok(st_before: ExtSt, st_after: ExtSt)
    requires
        sp_st_ok(st_before),
        sp_st_ok(st_after),
        sp_tab_le(st_before.itab, st_after.itab),
    ensures
        sp_st_ok(ExtSt { cur: st_before.cur, ..st_after }),
{
}

/// The column fold only grows the table and keeps every id valid.
proof fn lemma_ok_object_columns(st: ExtSt, fs: Seq<GqlObjectField>, i: int)
    ensures
        sp_object_columns(st, fs, i) matches ExtOut::Good(st2) ==> sp_tab_le(st.itab, st2.itab) && (
        sp_st_ok(st) ==> sp_st_ok(st2)) && (st.itab.len() <= crate::interning::sp_cap()
            ==> st2.itab.len() <= crate::interning::sp_cap()),
    decreases fs.len() - i,
{
    if 0 <= i < fs.len() {
        let m = fs[i];
        if sp_has_room(st.itab, m.name@) {
            let (st1, id) = sp_intern_into(st, m.name@);
            lemma_intern_ok(st, m.name@);
            let st2 = ExtSt { cols: sp_add_col(st1.cols, st1.cur, id), ..st1 };
            
                if sp_st_ok(st) {
                    lemma_st_ok_mono(st, st1.itab);
                    lemma_add_col_ok(st1, st1.cur, id);
                }
            
            lemma_ok_object_columns(st2, fs, i + 1);
        }
    }
}

/// The mutation-objects step only grows the table and keeps ids valid.
proof fn lemma_ok_mutation_objects(st: ExtSt, v: GqlValue, single: bool)
    ensures
        sp_mutation_objects(st, v, single) matches ExtOut::Good(st2) ==> sp_tab_le(
            st.itab,
            st2.itab,
        ) && (sp_st_ok(st) ==> sp_st_ok(st2)) && (st.itab.len() <= crate::interning::sp_cap()
            ==> st2.itab.len() <= crate::interning::sp_cap()),
    decreases v, 1int,
{
    match v {
        GqlValue::Object(fs) => {
            lemma_ok_object_columns(st, fs@, 0);
            lemma_object_columns_cur(st, fs@, 0);
            match sp_object_columns(st, fs@, 0) {
                ExtOut::Good(st1) => {
                    if sp_st_ok(st) {
                        lemma_insert_path_ok(st1, st1.cur);
                    }
                },
                ExtOut::Bad(_) => {},
            }
        },
        GqlValue::List(es) => {
            if !single {
                lemma_ok_mutation_list(st, es@, 0);
                lemma_mutation_list_cur(st, es@, 0);
                match sp_mutation_list(st, es@, 0) {
                    ExtOut::Good(st1) => {
                        if sp_st_ok(st) {
                            lemma_insert_path_ok(st1, st1.cur);
                        }
                    },
                    ExtOut::Bad(_) => {},
                }
            }
        },
        GqlValue::Variable => {
            if sp_st_ok(st) {
                lemma_insert_path_ok(st, st.cur);
            }
        },
        _ => {},
    }
}

/// The batch fold only grows the table and keeps ids valid.
proof fn lemma_ok_mutation_list(st: ExtSt, es: Seq<GqlValue>, i: int)
    ensures
        sp_mutation_list(st, es, i) matches ExtOut::Good(st2) ==> sp_tab_le(st.itab, st2.itab) && (
        sp_st_ok(st) ==> sp_st_ok(st2)) && (st.itab.len() <= crate::interning::sp_cap()
            ==> st2.itab.len() <= crate::interning::sp_cap()),
    decreases es, es.len() - i, 2int,
{
    if 0 <= i < es.len() {
        lemma_ok_mutation_objects(st, es[i], true);
        match sp_mutation_objects(st, es[i], true) {
            ExtOut::Good(st2) => {
                lemma_ok_mutation_list(st2, es, i + 1);
            },
            ExtOut::Bad(_) => {},
        }
    }
}

/// The `_set` step only grows the table and keeps ids valid.
proof fn lemma_ok_set_value(st: ExtSt, v: GqlValue)
    ensures
        sp_set_value(st, v) matches ExtOut::Good(st2) ==> sp_tab_le(st.itab, st2.itab) && (sp_st_ok(
            st,
        ) ==> sp_st_ok(st2)),
{
    match v {
        GqlValue::Object(fs) => {
            lemma_ok_object_columns(st, fs@, 0);
            lemma_object_columns_cur(st, fs@, 0);
            match sp_object_columns(st, fs@, 0) {
                ExtOut::Good(st1) => {
                    if sp_st_ok(st) {
                        lemma_insert_path_ok(st1, st1.cur);
                    }
                },
                ExtOut::Bad(_) => {},
            }
        },
        GqlValue::Variable => {
            if sp_st_ok(st) {
                lemma_insert_path_ok(st, st.cur);
            }
        },
        _ => {},
    }
}

/// The filter descent only grows the table and keeps ids valid.
proof fn lemma_ok_filter_value(st: ExtSt, v: GqlValue)
    ensures
        sp_filter_value(st, v) matches ExtOut::Good(st2) ==> sp_tab_le(st.itab, st2.itab) && (
        sp_st_ok(st) ==> sp_st_ok(st2)) && (st.itab.len() <= crate::interning::sp_cap()
            ==> st2.itab.len() <= crate::interning::sp_cap()),
    decreases v, 0int,
{
    match v {
        GqlValue::Object(fs) => {
            lemma_ok_filter_members(st, fs@, 0);
        },
        GqlValue::List(es) => {
            lemma_ok_filter_elems(st, es@, 0);
        },
        _ => {},
    }
}

/// The filter-member fold only grows the table and keeps ids valid.
proof fn lemma_ok_filter_members(st: ExtSt, fs: Seq<GqlObjectField>, i: int)
    ensures
        sp_filter_members(st, fs, i) matches ExtOut::Good(st2) ==> sp_tab_le(st.itab, st2.itab) && (
        sp_st_ok(st) ==> sp_st_ok(st2)) && (st.itab.len() <= crate::interning::sp_cap()
            ==> st2.itab.len() <= crate::interning::sp_cap()),
    decreases fs, fs.len() - i, 1int,
{
    if 0 <= i < fs.len() {
        let m = fs[i];
        if sp_is_underscore(m.name@) {
            if m.name@ == "_and"@ || m.name@ == "_or"@ {
                match m.value {
                    GqlValue::List(es) => {
                        lemma_ok_filter_elems(st, es@, 0);
                        match sp_filter_elems(st, es@, 0) {
                            ExtOut::Good(st2) => {
                                lemma_ok_filter_members(st2, fs, i + 1);
                            },
                            ExtOut::Bad(_) => {},
                        }
                    },
                    _ => {
                        lemma_ok_filter_members(st, fs, i + 1);
                    },
                }
            } else {
                lemma_ok_filter_members(st, fs, i + 1);
            }
        } else {
            if sp_has_room(st.itab, m.name@) {
                let (st1, id) = sp_intern_into(st, m.name@);
                lemma_intern_ok(st, m.name@);
                let st2 = ExtSt { cur: st1.cur.push(id), ..st1 };
                
                    if sp_st_ok(st) {
                        lemma_st_ok_mono(st, st1.itab);
                        lemma_push_cur_ok(st1, id);
                    }
                
                match m.value {
                    GqlValue::Object(inner) => {
                        let st3 = ExtSt { paths: sp_insert_path(st2.paths, st2.cur), ..st2 };
                        
                            if sp_st_ok(st) {
                                lemma_insert_path_ok(st2, st2.cur);
                            }
                        
                        let st4 = if sp_obj_has_ops(inner@) && st2.cur.len() > 1 {
                            ExtSt { cols: sp_add_col(st3.cols, st2.cur.drop_last(), id), ..st3 }
                        } else {
                            st3
                        };
                        
                            if sp_st_ok(st) && sp_obj_has_ops(inner@) && st2.cur.len() > 1 {
                                assert forall|k: int|
                                    0 <= k < st2.cur.drop_last().len() implies (
                                #[trigger] st2.cur.drop_last()[k]) < st3.itab.len() by {
                                    assert(st2.cur.drop_last()[k] == st2.cur[k]);
                                }
                                lemma_add_col_ok(st3, st2.cur.drop_last(), id);
                            }
                        
                        lemma_ok_filter_value(st4, m.value);
                        match sp_filter_value(st4, m.value) {
                            ExtOut::Good(st5) => {
                                
                                    if sp_st_ok(st) {
                                        lemma_restore_cur_ok(st, st5);
                                    }
                                
                                lemma_ok_filter_members(ExtSt { cur: st.cur, ..st5 }, fs, i + 1);
                            },
                            ExtOut::Bad(_) => {},
                        }
                    },
                    _ => {
                        let st3 = if st2.cur.len() > 1 {
                            ExtSt { cols: sp_add_col(st2.cols, st2.cur.drop_last(), id), ..st2 }
                        } else {
                            st2
                        };
                        
                            if sp_st_ok(st) && st2.cur.len() > 1 {
                                assert forall|k: int|
                                    0 <= k < st2.cur.drop_last().len() implies (
                                #[trigger] st2.cur.drop_last()[k]) < st2.itab.len() by {
                                    assert(st2.cur.drop_last()[k] == st2.cur[k]);
                                }
                                lemma_add_col_ok(st2, st2.cur.drop_last(), id);
                            }
                            if sp_st_ok(st) {
                                lemma_restore_cur_ok(st, st3);
                            }
                        
                        lemma_ok_filter_members(ExtSt { cur: st.cur, ..st3 }, fs, i + 1);
                    },
                }
            }
        }
    }
}

/// The filter-list fold only grows the table and keeps ids valid.
proof fn lemma_ok_filter_elems(st: ExtSt, es: Seq<GqlValue>, i: int)
    ensures
        sp_filter_elems(st, es, i) matches ExtOut::Good(st2) ==> sp_tab_le(st.itab, st2.itab) && (
        sp_st_ok(st) ==> sp_st_ok(st2)) && (st.itab.len() <= crate::interning::sp_cap()
            ==> st2.itab.len() <= crate::interning::sp_cap()),
    decreases es, es.len() - i, 1int,
{
    if 0 <= i < es.len() {
        lemma_ok_filter_value(st, es[i]);
        match sp_filter_value(st, es[i]) {
            ExtOut::Good(st2) => {
                lemma_ok_filter_elems(st2, es, i + 1);
            },
            ExtOut::Bad(_) => {},
        }
    }
}

/// The argument fold only grows the table and keeps ids valid.
proof fn lemma_ok_pass_b_args(
    st: ExtSt,
    args: Seq<GqlArgument>,
    i: int,
    fname: Seq<char>,
    ins: Seq<char>,
    upd: Seq<char>,
)
    ensures
        sp_pass_b_args(st, args, i, fname, ins, upd) matches ExtOut::Good(st2) ==> sp_tab_le(
            st.itab,
            st2.itab,
        ) && (sp_st_ok(st) ==> sp_st_ok(st2)) && (st.itab.len() <= crate::interning::sp_cap()
            ==> st2.itab.len() <= crate::interning::sp_cap()),
    decreases args.len() - i,
{
    if 0 <= i < args.len() {
        let a = args[i];
        lemma_ok_filter_value(st, a.value);
        lemma_ok_mutation_objects(st, a.value, a.name@ == "object"@);
        lemma_ok_set_value(st, a.value);
        let step = if a.name@ == "where"@ {
            sp_filter_value(st, a.value)
        } else if sp_starts_with(fname, ins) && (a.name@ == "objects"@ || a.name@ == "object"@) {
            sp_mutation_objects(st, a.value, a.name@ == "object"@)
        } else if sp_starts_with(fname, upd) && a.name@ == "_set"@ {
            sp_set_value(st, a.value)
        } else {
            ExtOut::Good(st)
        };
        match step {
            ExtOut::Good(st2) => {
                lemma_ok_pass_b_args(st2, args, i + 1, fname, ins, upd);
            },
            ExtOut::Bad(_) => {},
        }
    }
}

/// Pass A on a field only grows the table and keeps ids valid.
proof fn lemma_ok_pass_a_field(st: ExtSt, f: GqlField)
    ensures
        sp_pass_a_field(st, f) matches ExtOut::Good(st2) ==> sp_tab_le(st.itab, st2.itab) && (
        sp_st_ok(st) ==> sp_st_ok(st2)) && (st.itab.len() <= crate::interning::sp_cap()
            ==> st2.itab.len() <= crate::interning::sp_cap()),
    decreases f, 0int,
{
    if sp_has_room(st.itab, f.name@) {
        let (st1, id) = sp_intern_into(st, f.name@);
        lemma_intern_ok(st, f.name@);
        let st2 = ExtSt { cur: st1.cur.push(id), ..st1 };
        
            if sp_st_ok(st) {
                lemma_st_ok_mono(st, st1.itab);
                lemma_push_cur_ok(st1, id);
            }
        
        if f.selections@.len() == 0 {
            
                if sp_st_ok(st) {
                    lemma_restore_cur_ok(st, st2);
                }
            
        } else {
            let st3 = ExtSt { paths: sp_insert_path(st2.paths, st2.cur), ..st2 };
            
                if sp_st_ok(st) {
                    lemma_insert_path_ok(st2, st2.cur);
                }
            
            lemma_ok_pass_a_children(st3, f.selections@, 0);
            match sp_pass_a_children(st3, f.selections@, 0) {
                ExtOut::Good(st4) => {
                    
                        if sp_st_ok(st) {
                            lemma_restore_cur_ok(st, st4);
                        }
                    
                },
                ExtOut::Bad(_) => {},
            }
        }
    }
}

/// The pass-A child fold only grows the table and keeps ids valid.
proof fn lemma_ok_pass_a_children(st: ExtSt, sels: Seq<GqlSelection>, i: int)
    ensures
        sp_pass_a_children(st, sels, i) matches ExtOut::Good(st2) ==> sp_tab_le(st.itab, st2.itab)
            && (sp_st_ok(st) ==> sp_st_ok(st2)) && (st.itab.len() <= crate::interning::sp_cap()
            ==> st2.itab.len() <= crate::interning::sp_cap()),
    decreases sels, sels.len() - i, 1int,
{
    if 0 <= i < sels.len() {
        match sels[i] {
            GqlSelection::Field(c) => {
                if c.selections@.len() == 0 {
                    if sp_has_room(st.itab, c.name@) {
                        let (st1, cid) = sp_intern_into(st, c.name@);
                        lemma_intern_ok(st, c.name@);
                        let st2 = ExtSt { cols: sp_add_col(st1.cols, st1.cur, cid), ..st1 };
                        
                            if sp_st_ok(st) {
                                lemma_st_ok_mono(st, st1.itab);
                                lemma_add_col_ok(st1, st1.cur, cid);
                            }
                        
                        lemma_ok_pass_a_children(st2, sels, i + 1);
                    }
                } else if sp_is_container(c.name@) {
                    lemma_ok_pass_a_grand(st, c.selections@, 0);
                    match sp_pass_a_grand(st, c.selections@, 0) {
                        ExtOut::Good(stg) => {
                            lemma_ok_pass_a_field(stg, c);
                            match sp_pass_a_field(stg, c) {
                                ExtOut::Good(stf) => {
                                    lemma_ok_pass_a_children(stf, sels, i + 1);
                                },
                                ExtOut::Bad(_) => {},
                            }
                        },
                        ExtOut::Bad(_) => {},
                    }
                } else {
                    lemma_ok_pass_a_field(st, c);
                    match sp_pass_a_field(st, c) {
                        ExtOut::Good(stf) => {
                            lemma_ok_pass_a_children(stf, sels, i + 1);
                        },
                        ExtOut::Bad(_) => {},
                    }
                }
            },
            _ => {
                lemma_ok_pass_a_children(st, sels, i + 1);
            },
        }
    }
}

/// The grandchild fold only grows the table and keeps ids valid.
proof fn lemma_ok_pass_a_grand(st: ExtSt, sels: Seq<GqlSelection>, i: int)
    ensures
        sp_pass_a_grand(st, sels, i) matches ExtOut::Good(st2) ==> sp_tab_le(st.itab, st2.itab) && (
        sp_st_ok(st) ==> sp_st_ok(st2)) && (st.itab.len() <= crate::interning::sp_cap()
            ==> st2.itab.len() <= crate::interning::sp_cap()),
    decreases sels, sels.len() - i, 1int,
{
    if 0 <= i < sels.len() {
        match sels[i] {
            GqlSelection::Field(g) => {
                if g.selections@.len() == 0 {
                    if sp_has_room(st.itab, g.name@) {
                        let (st1, gid) = sp_intern_into(st, g.name@);
                        lemma_intern_ok(st, g.name@);
                        let st2 = ExtSt { cols: sp_add_col(st1.cols, st1.cur, gid), ..st1 };
                        
                            if sp_st_ok(st) {
                                lemma_st_ok_mono(st, st1.itab);
                                lemma_add_col_ok(st1, st1.cur, gid);
                            }
                        
                        lemma_ok_pass_a_grand(st2, sels, i + 1);
                    }
                } else {
                    lemma_ok_pass_a_grand(st, sels, i + 1);
                }
            },
            _ => {
                lemma_ok_pass_a_grand(st, sels, i + 1);
            },
        }
    }
}

/// Pass B on a field only grows the table and keeps ids valid.
proof fn lemma_ok_pass_b_field(st: ExtSt, f: GqlField, ins: Seq<char>, upd: Seq<char>)
    ensures
        sp_pass_b_field(st, f, ins, upd) matches ExtOut::Good(st2) ==> sp_tab_le(st.itab, st2.itab)
            && (sp_st_ok(st) ==> sp_st_ok(st2)) && (st.itab.len() <= crate::interning::sp_cap()
            ==> st2.itab.len() <= crate::interning::sp_cap()),
    decreases f, 0int,
{
    if sp_has_room(st.itab, f.name@) {
        let (st1, id) = sp_intern_into(st, f.name@);
        lemma_intern_ok(st, f.name@);
        let st2 = ExtSt { cur: st1.cur.push(id), ..st1 };
        
            if sp_st_ok(st) {
                lemma_st_ok_mono(st, st1.itab);
                lemma_push_cur_ok(st1, id);
            }
        
        let st3 = if f.selections@.len() > 0 {
            ExtSt { paths: sp_insert_path(st2.paths, st2.cur), ..st2 }
        } else {
            st2
        };
        
            if sp_st_ok(st) && f.selections@.len() > 0 {
                lemma_insert_path_ok(st2, st2.cur);
            }
        
        lemma_ok_pass_b_args(st3, f.arguments@, 0, f.name@, ins, upd);
        match sp_pass_b_args(st3, f.arguments@, 0, f.name@, ins, upd) {
            ExtOut::Good(st4) => {
                lemma_ok_pass_b_children(st4, f.selections@, 0, ins, upd);
                match sp_pass_b_children(st4, f.selections@, 0, ins, upd) {
                    ExtOut::Good(st5) => {
                        
                            if sp_st_ok(st) {
                                lemma_restore_cur_ok(st, st5);
                            }
                        
                    },
                    ExtOut::Bad(_) => {},
                }
            },
            ExtOut::Bad(_) => {},
        }
    }
}

/// The pass-B child fold only grows the table and keeps ids valid.
proof fn lemma_ok_pass_b_children(
    st: ExtSt,
    sels: Seq<GqlSelection>,
    i: int,
    ins: Seq<char>,
    upd: Seq<char>,
)
    ensures
        sp_pass_b_children(st, sels, i, ins, upd) matches ExtOut::Good(st2) ==> sp_tab_le(
            st.itab,
            st2.itab,
        ) && (sp_st_ok(st) ==> sp_st_ok(st2)) && (st.itab.len() <= crate::interning::sp_cap()
            ==> st2.itab.len() <= crate::interning::sp_cap()),
    decreases sels, sels.len() - i, 1int,
{
    if 0 <= i < sels.len() {
        match sels[i] {
            GqlSelection::Field(c) => {
                lemma_ok_pass_b_field(st, c, ins, upd);
                match sp_pass_b_field(st, c, ins, upd) {
                    ExtOut::Good(stf) => {
                        lemma_ok_pass_b_children(stf, sels, i + 1, ins, upd);
                    },
                    ExtOut::Bad(_) => {},
                }
            },
            _ => {
                lemma_ok_pass_b_children(st, sels, i + 1, ins, upd);
            },
        }
    }
}

/// Table extension is transitive.
pub broadcast proof fn lemma_tab_le_trans(t1: Seq<Seq<char>>, t2: Seq<Seq<char>>, t3: Seq<Seq<char>>)
    ensures
        #![trigger sp_tab_le(t1, t2), sp_tab_le(t2, t3)]
        sp_tab_le(t1, t2) && sp_tab_le(t2, t3) ==> sp_tab_le(t1, t3),
{
    if sp_tab_le(t1, t2) && sp_tab_le(t2, t3) {
        assert forall|i: int| 0 <= i < t1.len() implies t1[i] == t3[i] by {
            assert(t1[i] == t2[i]);
            assert(t2[i] == t3[i]);
        }
    }
}

/// Interning extends the table: the old table is a prefix of the new one.
pub broadcast proof fn lemma_tab_le_intern(t: Seq<Seq<char>>, s: Seq<char>)
    ensures
        #![trigger sp_intern_tab(t, s)]
        sp_tab_le(t, sp_intern_tab(t, s)),
{
    if !t.contains(s) {
        assert forall|i: int| 0 <= i < t.len() implies t[i] == t.push(s)[i] by {}
    }
}

/// Growing the table preserves membership.
proof fn lemma_tab_le_contains(t1: Seq<Seq<char>>, t2: Seq<Seq<char>>, s: Seq<char>)
    requires
        sp_tab_le(t1, t2),
        t1.contains(s),
    ensures
        t2.contains(s),
{
    let i = choose|i: int| 0 <= i < t1.len() && t1[i] == s;
    assert(t2[i] == s);
}

/// After pass A on a field, its name stands in the table.
proof fn lemma_field_name_interned(st: ExtSt, f: GqlField)
    ensures
        sp_pass_a_field(st, f) matches ExtOut::Good(st2) ==> st2.itab.contains(f.name@),
{
    if sp_has_room(st.itab, f.name@) {
        let (st1, id) = sp_intern_into(st, f.name@);
        assert(st1.itab.contains(f.name@)) by {
            if st.itab.contains(f.name@) {
                let i = choose|i: int| 0 <= i < st.itab.len() && st.itab[i] == f.name@;
                assert(st1.itab[i] == f.name@);
            } else {
                assert(st1.itab[st1.itab.len() - 1] == f.name@);
            }
        }
        let st2 = ExtSt { cur: st1.cur.push(id), ..st1 };
        if f.selections@.len() > 0 {
            let st3 = ExtSt { paths: sp_insert_path(st2.paths, st2.cur), ..st2 };
            lemma_ok_pass_a_children(st3, f.selections@, 0);
            match sp_pass_a_children(st3, f.selections@, 0) {
                ExtOut::Good(st4) => {
                    lemma_tab_le_contains(st1.itab, st4.itab, f.name@);
                },
                ExtOut::Bad(_) => {},
            }
        }
    }
}

/// The root folds only grow the table and keep ids valid.
proof fn lemma_ok_pass_a_roots(st: ExtSt, sels: Seq<GqlSelection>, i: int)
    ensures
        sp_pass_a_roots(st, sels, i) matches ExtOut::Good(st2) ==> sp_tab_le(st.itab, st2.itab) && (
        sp_st_ok(st) ==> sp_st_ok(st2)) && (st.itab.len() <= crate::interning::sp_cap()
            ==> st2.itab.len() <= crate::interning::sp_cap()),
    decreases sels, sels.len() - i,
{
    if 0 <= i < sels.len() {
        match sels[i] {
            GqlSelection::Field(c) => {
                let st0 = ExtSt { cur: Seq::empty(), ..st };
                lemma_ok_pass_a_field(st0, c);
                match sp_pass_a_field(st0, c) {
                    ExtOut::Good(stf) => {
                        lemma_ok_pass_a_roots(stf, sels, i + 1);
                    },
                    ExtOut::Bad(_) => {},
                }
            },
            _ => {
                lemma_ok_pass_a_roots(st, sels, i + 1);
            },
        }
    }
}

/// Root field names all stand in the table after pass A over the roots.
proof fn lemma_roots_interned(st: ExtSt, sels: Seq<GqlSelection>, i: int)
    requires
        0 <= i,
    ensures
        sp_pass_a_roots(st, sels, i) matches ExtOut::Good(st2) ==> (forall|j: int|
            i <= j < sels.len() && sels[j] is Field ==> st2.itab.contains(
                (#[trigger] sels[j])->Field_0.name@,
            )),
    decreases sels, sels.len() - i,
{
    if 0 <= i < sels.len() {
        match sels[i] {
            GqlSelection::Field(c) => {
                let st0 = ExtSt { cur: Seq::empty(), ..st };
                lemma_field_name_interned(st0, c);
                match sp_pass_a_field(st0, c) {
                    ExtOut::Good(stf) => {
                        lemma_roots_interned(stf, sels, i + 1);
                        lemma_ok_pass_a_roots(stf, sels, i + 1);
                        match sp_pass_a_roots(stf, sels, i + 1) {
                            ExtOut::Good(st2) => {
                                lemma_tab_le_contains(stf.itab, st2.itab, c.name@);
                                assert forall|j: int|
                                    i <= j < sels.len() && sels[j] is Field implies st2.itab.contains(
                                    (#[trigger] sels[j])->Field_0.name@,
                                ) by {
                                    if j == i {
                                        assert(sels[j]->Field_0 == c);
                                    }
                                }
                            },
                            ExtOut::Bad(_) => {},
                        }
                    },
                    ExtOut::Bad(_) => {},
                }
            },
            _ => {
                lemma_roots_interned(st, sels, i + 1);
            },
        }
    }
}

/// Pass B over the roots only grows the table and keeps ids valid.
proof fn lemma_ok_pass_b_roots(
    st: ExtSt,
    sels: Seq<GqlSelection>,
    i: int,
    ins: Seq<char>,
    upd: Seq<char>,
)
    ensures
        sp_pass_b_roots(st, sels, i, ins, upd) matches ExtOut::Good(st2) ==> sp_tab_le(
            st.itab,
            st2.itab,
        ) && (sp_st_ok(st) ==> sp_st_ok(st2)) && (st.itab.len() <= crate::interning::sp_cap()
            ==> st2.itab.len() <= crate::interning::sp_cap()),
    decreases sels, sels.len() - i,
{
    if 0 <= i < sels.len() {
        match sels[i] {
            GqlSelection::Field(c) => {
                let st0 = ExtSt { cur: Seq::empty(), ..st };
                lemma_ok_pass_b_field(st0, c, ins, upd);
                match sp_pass_b_field(st0, c, ins, upd) {
                    ExtOut::Good(stf) => {
                        lemma_ok_pass_b_roots(stf, sels, i + 1, ins, upd);
                    },
                    ExtOut::Bad(_) => {},
                }
            },
            _ => {
                lemma_ok_pass_b_roots(st, sels, i + 1, ins, upd);
            },
        }
    }
}

/// One operation only grows the table, keeps ids valid, and leaves all its
/// root field names in the table.
proof fn lemma_ok_operation(st: ExtSt, sels: Seq<GqlSelection>, ins: Seq<char>, upd: Seq<char>)
    ensures
        sp_operation(st, sels, ins, upd) matches ExtOut::Good(st2) ==> {
            &&& sp_tab_le(st.itab, st2.itab)
            &&& (sp_st_ok(st) ==> sp_st_ok(st2))
            &&& (st.itab.len() <= crate::interning::sp_cap() ==> st2.itab.len()
                <= crate::interning::sp_cap())
            &&& forall|j: int|
                0 <= j < sels.len() && sels[j] is Field ==> st2.itab.contains(
                    (#[trigger] sels[j])->Field_0.name@,
                )
        },
{
    lemma_ok_pass_a_roots(st, sels, 0);
    lemma_roots_interned(st, sels, 0);
    match sp_pass_a_roots(st, sels, 0) {
        ExtOut::Good(st1) => {
            lemma_ok_pass_b_roots(st1, sels, 0, ins, upd);
            match sp_pass_b_roots(st1, sels, 0, ins, upd) {
                ExtOut::Good(st2) => {
                    assert forall|j: int|
                        0 <= j < sels.len() && sels[j] is Field implies st2.itab.contains(
                        (#[trigger] sels[j])->Field_0.name@,
                    ) by {
                        lemma_tab_le_contains(st1.itab, st2.itab, sels[j]->Field_0.name@);
                    }
                },
                ExtOut::Bad(_) => {},
            }
        },
        ExtOut::Bad(_) => {},
    }
}

/// The fold over all definitions: the table only grows, ids stay valid, and
/// every root field name of every operation stands in the final table.
pub proof fn lemma_ok_defs(
    st: ExtSt,
    defs: Seq<GqlDefinition>,
    i: int,
    ins: Seq<char>,
    upd: Seq<char>,
)
    requires
        0 <= i,
    ensures
        sp_defs(st, defs, i, ins, upd) matches ExtOut::Good(st2) ==> {
            &&& sp_tab_le(st.itab, st2.itab)
            &&& (sp_st_ok(st) ==> sp_st_ok(st2))
            &&& (st.itab.len() <= crate::interning::sp_cap() ==> st2.itab.len()
                <= crate::interning::sp_cap())
            &&& forall|d: int, j: int|
                i <= d < defs.len() && defs[d] is Operation && 0 <= j
                    < defs[d]->Operation_0.selections@.len()
                    && defs[d]->Operation_0.selections@[j] is Field ==> st2.itab.contains(
                    (#[trigger] defs[d]->Operation_0.selections@[j])->Field_0.name@,
                )
        },
    decreases defs.len() - i,
{
    if 0 <= i < defs.len() {
        match defs[i] {
            GqlDefinition::Operation(op) => {
                lemma_ok_operation(st, op.selections@, ins, upd);
                match sp_operation(st, op.selections@, ins, upd) {
                    ExtOut::Good(st1) => {
                        lemma_ok_defs(st1, defs, i + 1, ins, upd);
                        match sp_defs(st1, defs, i + 1, ins, upd) {
                            ExtOut::Good(st2) => {
                                assert forall|d: int, j: int|
                                    i <= d < defs.len() && defs[d] is Operation && 0 <= j
                                        < defs[d]->Operation_0.selections@.len()
                                        && defs[d]->Operation_0.selections@[j] is Field
                                    implies st2.itab.contains(
                                    (
                                    #[trigger] defs[d]->Operation_0.selections@[j])->Field_0.name@,
                                ) by {
                                    if d == i {
                                        assert(defs[d]->Operation_0 == op);
                                        lemma_tab_le_contains(
                                            st1.itab,
                                            st2.itab,
                                            op.selections@[j]->Field_0.name@,
                                        );
                                    }
                                }
                            },
                            ExtOut::Bad(_) => {},
                        }
                    },
                    ExtOut::Bad(_) => {},
                }
            },
            GqlDefinition::Fragment => {
                lemma_ok_defs(st, defs, i + 1, ins, upd);
            },
        }
    }
}

/// A successful extraction from a fresh state yields a state whose recorded
/// ids are all valid positions in its table, whose table extends the given
/// one, and whose table holds every root field name of the document.
pub proof fn lemma_ok_extract(itab: Seq<Seq<char>>, doc: GqlDocument, ins: Seq<char>, upd: Seq<char>)
    ensures
        sp_extract(itab, doc, ins, upd) matches ExtOut::Good(st) ==> {
            &&& sp_tab_le(itab, st.itab)
            &&& sp_st_ok(st)
            &&& (itab.len() <= crate::interning::sp_cap() ==> st.itab.len()
                <= crate::interning::sp_cap())
            &&& forall|d: int, j: int|
                0 <= d < doc.definitions@.len() && doc.definitions@[d] is Operation && 0 <= j
                    < doc.definitions@[d]->Operation_0.selections@.len()
                    && doc.definitions@[d]->Operation_0.selections@[j] is Field
                    ==> st.itab.contains(
                    (#[trigger] doc.definitions@[d]->Operation_0.selections@[j])->Field_0.name@,
                )
        },
{
    assert(sp_st_ok(sp_init_st(itab)));
    lemma_ok_defs(sp_init_st(itab), doc.definitions@, 0, ins, upd);
}

/// Whether `s` is one of the reserved container field names.
fn is_container_name(s: &String) -> (r: bool)
    ensures
        r == sp_is_container(s@),
{
    str_eq(s.as_str(), "aggregate") || str_eq(s.as_str(), "returning") || str_eq(s.as_str(), "nodes")
}

/// Whether any member of the object carries an operator name.
fn obj_has_ops(fs: &Vec<GqlObjectField>) -> (r: bool)
    ensures
        r == sp_obj_has_ops(fs@),
{
    let n = fs.len();
    let mut i: usize = 0;
    while i < n
        invariant
            n == fs@.len(),
            i <= n,
            forall|j: int| 0 <= j < i ==> !sp_is_underscore(fs@[j].name@),
        decreases n - i,
    {
        if str_first_is(fs[i].name.as_str(), '_') {
            assert(sp_is_underscore(fs@[i as int].name@));
            return true;
        }
        i = i + 1;
    }
    false
}

/// The visitor that walks a document and accumulates paths and columns. Its
/// three parts are exactly the components of the extraction state; the
/// interner is threaded through every call.
#[derive(Debug)]
pub struct FieldPathExtractor {
    /// Set of discovered table and relationship paths.
    pub field_paths: PathSet,
    /// The path being built during traversal.
    pub current_path: FieldPath,
    /// Column usage per table path.
    pub column_usage: ColumnMap,
}

impl FieldPathExtractor {
    /// The extraction state formed by this visitor and an interner table.
    pub open spec fn st(&self, itab: Seq<Seq<char>>) -> ExtSt {
        ExtSt {
            itab,
            cur: self.current_path@,
            paths: self.field_paths@,
            cols: self.column_usage@,
        }
    }

    /// The container invariants.
    pub open spec fn inv(&self) -> bool {
        self.field_paths.wf() && self.column_usage.wf()
    }

    /// Creates a fresh extractor with empty accumulators.
    pub fn new() -> (r: FieldPathExtractor)
        ensures
            r.inv(),
            r.current_path@ == Seq::<u32>::empty(),
            r.field_paths@ == Seq::<Seq<u32>>::empty(),
            r.column_usage@ == Seq::<(Seq<u32>, Seq<u32>)>::empty(),
    {
        FieldPathExtractor {
            field_paths: PathSet::new(),
            current_path: FieldPath::new(),
            column_usage: ColumnMap::new(),
        }
    }

    /// Records each member name of a mutation object as a column of the
    /// current path.
    #[verifier::loop_isolation(false)]
    fn obj_columns(&mut self, inter: &mut Interner, fs: &Vec<GqlObjectField>) -> (r: Result<
        (),
        Error,
    >)
        requires
            old(self).inv(),
            old(inter).wf(),
        ensures
            final(self).inv(),
            final(inter).wf(),
            sp_tab_le(old(inter)@, final(inter)@),
            match r {
                Ok(_) => sp_object_columns(old(self).st(old(inter)@), fs@, 0) == ExtOut::Good(
                    final(self).st(final(inter)@),
                ),
                Err(e) => sp_object_columns(old(self).st(old(inter)@), fs@, 0) == ExtOut::Bad(e),
            },
    {
        broadcast use lemma_tab_le_trans, lemma_tab_le_intern;

        let ghost base = old(self).st(old(inter)@);
        let n = fs.len();
        let mut i: usize = 0;
        while i < n
            invariant
                self.inv(),
                inter.wf(),
                sp_tab_le(old(inter)@, inter@),
                n == fs@.len(),
                i <= n,
                sp_object_columns(base, fs@, 0) == sp_object_columns(self.st(inter@), fs@, i as int),
            decreases n - i,
        {
            let ghost st_i = self.st(inter@);
            let m = &fs[i];
            let id = match inter.try_intern(m.name.as_str()) {
                Ok(id) => id,
                Err(e) => {
                    proof {
                        assert(sp_object_columns(st_i, fs@, i as int) == ExtOut::Bad(
                            Error::CorruptedState,
                        ));
                    }
                    return Err(e);
                },
            };
            self.column_usage.add_column(&self.current_path, id);
            proof {
                let (st1, sid) = sp_intern_into(st_i, fs@[i as int].name@);
                assert(sid == id);
                assert(st1.itab == inter@);
                let st2 = ExtSt { cols: sp_add_col(st1.cols, st1.cur, sid), ..st1 };
                assert(self.st(inter@) == st2);
            }
            i = i + 1;
        }
        Ok(())
    }

    /// The `objects`/`object` argument of an insert mutation.
    #[verifier::loop_isolation(false)]
    fn mutation_objects(&mut self, inter: &mut Interner, v: &GqlValue, single: bool) -> (r: Result<
        (),
        Error,
    >)
        requires
            old(self).inv(),
            old(inter).wf(),
        ensures
            final(self).inv(),
            final(inter).wf(),
            sp_tab_le(old(inter)@, final(inter)@),
            match r {
                Ok(_) => sp_mutation_objects(old(self).st(old(inter)@), *v, single) == ExtOut::Good(
                    final(self).st(final(inter)@),
                ),
                Err(e) => sp_mutation_objects(old(self).st(old(inter)@), *v, single) == ExtOut::Bad(
                    e,
                ),
            },
        decreases *v, 1int,
    {
        broadcast use lemma_tab_le_trans, lemma_tab_le_intern;

        let ghost base = old(self).st(old(inter)@);
        match v {
            GqlValue::Object(fs) => {
                match self.obj_columns(inter, fs) {
                    Ok(_) => {
                        proof {
                            lemma_object_columns_cur(base, fs@, 0);
                        }
                        let cur = self.current_path.duplicate();
                        self.field_paths.insert(&cur);
                        Ok(())
                    },
                    Err(e) => Err(e),
                }
            },
            GqlValue::List(es) => {
                if single {
                    return Err(Error::InvalidInput);
                }
                let n = es.len();
                let mut i: usize = 0;
                while i < n
                    invariant
                        self.inv(),
                        inter.wf(),
                        sp_tab_le(old(inter)@, inter@),
                        n == es@.len(),
                        i <= n,
                        sp_mutation_list(base, es@, 0) == sp_mutation_list(
                            self.st(inter@),
                            es@,
                            i as int,
                        ),
                    decreases n - i,
                {
                    let ghost st_i = self.st(inter@);
                    match self.mutation_objects(inter, &es[i], true) {
                        Ok(_) => (),
                        Err(e) => {
                            return Err(e);
                        },
                    }
                    i = i + 1;
                }
                proof {
                    lemma_mutation_list_cur(base, es@, 0);
                }
                let cur = self.current_path.duplicate();
                self.field_paths.insert(&cur);
                Ok(())
            },
            GqlValue::Variable => {
                let cur = self.current_path.duplicate();
                self.field_paths.insert(&cur);
                Ok(())
            },
            GqlValue::Scalar => Ok(()),
        }
    }

    /// The `_set` argument of an update mutation.
    fn set_value(&mut self, inter: &mut Interner, v: &GqlValue) -> (r: Result<(), Error>)
        requires
            old(self).inv(),
            old(inter).wf(),
        ensures
            final(self).inv(),
            final(inter).wf(),
            sp_tab_le(old(inter)@, final(inter)@),
            match r {
                Ok(_) => sp_set_value(old(self).st(old(inter)@), *v) == ExtOut::Good(
                    final(self).st(final(inter)@),
                ),
                Err(e) => sp_set_value(old(self).st(old(inter)@), *v) == ExtOut::Bad(e),
            },
    {
        broadcast use lemma_tab_le_trans, lemma_tab_le_intern;

        let ghost base = old(self).st(old(inter)@);
        match v {
            GqlValue::Object(fs) => {
                match self.obj_columns(inter, fs) {
                    Ok(_) => {
                        proof {
                            lemma_object_columns_cur(base, fs@, 0);
                        }
                        let cur = self.current_path.duplicate();
                        self.field_paths.insert(&cur);
                        Ok(())
                    },
                    Err(e) => Err(e),
                }
            },
            GqlValue::Variable => {
                let cur = self.current_path.duplicate();
                self.field_paths.insert(&cur);
                Ok(())
            },
            _ => Err(Error::InvalidInput),
        }
    }

    /// The elements of a filter list, one after the other.
    #[verifier::loop_isolation(false)]
    fn filter_list(&mut self, inter: &mut Interner, es: &Vec<GqlValue>) -> (r: Result<(), Error>)
        requires
            old(self).inv(),
            old(inter).wf(),
        ensures
            final(self).inv(),
            final(inter).wf(),
            sp_tab_le(old(inter)@, final(inter)@),
            match r {
                Ok(_) => sp_filter_elems(old(self).st(old(inter)@), es@, 0) == ExtOut::Good(
                    final(self).st(final(inter)@),
                ),
                Err(e) => sp_filter_elems(old(self).st(old(inter)@), es@, 0) == ExtOut::Bad(e),
            },
        decreases *es, 0int,
    {
        broadcast use lemma_tab_le_trans, lemma_tab_le_intern;

        let ghost base = old(self).st(old(inter)@);
        let n = es.len();
        let mut i: usize = 0;
        while i < n
            invariant
                self.inv(),
                inter.wf(),
                sp_tab_le(old(inter)@, inter@),
                n == es@.len(),
                i <= n,
                sp_filter_elems(base, es@, 0) == sp_filter_elems(self.st(inter@), es@, i as int),
            decreases n - i,
        {
            match self.filter_value(inter, &es[i]) {
                Ok(_) => (),
                Err(e) => {
                    return Err(e);
                },
            }
            i = i + 1;
        }
        Ok(())
    }

    /// The filter tree of a `where` argument value.
    #[verifier::loop_isolation(false)]
    fn filter_value(&mut self, inter: &mut Interner, v: &GqlValue) -> (r: Result<(), Error>)
        requires
            old(self).inv(),
            old(inter).wf(),
        ensures
            final(self).inv(),
            final(inter).wf(),
            sp_tab_le(old(inter)@, final(inter)@),
            match r {
                Ok(_) => sp_filter_value(old(self).st(old(inter)@), *v) == ExtOut::Good(
                    final(self).st(final(inter)@),
                ),
                Err(e) => sp_filter_value(old(self).st(old(inter)@), *v) == ExtOut::Bad(e),
            },
        decreases *v, 1int,
    {
        broadcast use lemma_tab_le_trans, lemma_tab_le_intern;

        let ghost base = old(self).st(old(inter)@);
        match v {
            GqlValue::Object(fs) => {
                let n = fs.len();
                let mut i: usize = 0;
                while i < n
                    invariant
                        self.inv(),
                        inter.wf(),
                        sp_tab_le(old(inter)@, inter@),
                        n == fs@.len(),
                        i <= n,
                        sp_filter_members(base, fs@, 0) == sp_filter_members(
                            self.st(inter@),
                            fs@,
                            i as int,
                        ),
                    decreases n - i,
                {
                    let ghost st_i = self.st(inter@);
                    let m = &fs[i];
                    if str_first_is(m.name.as_str(), '_') {
                        if str_eq(m.name.as_str(), "_and") || str_eq(m.name.as_str(), "_or") {
                            match &m.value {
                                GqlValue::List(es) => {
                                    match self.filter_list(inter, es) {
                                        Ok(_) => (),
                                        Err(e) => {
                                            return Err(e);
                                        },
                                    }
                                },
                                _ => (),
                            }
                        }
                    } else {
                        let id = match inter.try_intern(m.name.as_str()) {
                            Ok(id) => id,
                            Err(e) => {
                                return Err(e);
                            },
                        };
                        self.current_path.push(id);
                        let ghost st2 = ExtSt {
                            itab: inter@,
                            cur: self.current_path@,
                            paths: st_i.paths,
                            cols: st_i.cols,
                        };
                        match &m.value {
                            GqlValue::Object(inner) => {
                                let cur = self.current_path.duplicate();
                                self.field_paths.insert(&cur);
                                if obj_has_ops(inner) && self.current_path.len() > 1 {
                                    let tp = self.current_path.parent();
                                    self.column_usage.add_column(&tp, id);
                                }
                                match self.filter_value(inter, &m.value) {
                                    Ok(_) => (),
                                    Err(e) => {
                                        return Err(e);
                                    },
                                }
                                proof {
                                    let inner2 = match fs@[i as int].value {
                                        GqlValue::Object(x) => x,
                                        _ => arbitrary(),
                                    };
                                    let st3 = ExtSt {
                                        paths: sp_insert_path(st2.paths, st2.cur),
                                        ..st2
                                    };
                                    let st4 = if sp_obj_has_ops(inner2@) && st2.cur.len() > 1 {
                                        ExtSt {
                                            cols: sp_add_col(
                                                st3.cols,
                                                st2.cur.drop_last(),
                                                id,
                                            ),
                                            ..st3
                                        }
                                    } else {
                                        st3
                                    };
                                    lemma_filter_value_cur(st4, fs@[i as int].value);
                                }
                                self.current_path.pop();
                                proof {
                                    assert(st_i.cur.push(id).drop_last() =~= st_i.cur);
                                }
                            },
                            _ => {
                                if self.current_path.len() > 1 {
                                    let tp = self.current_path.parent();
                                    self.column_usage.add_column(&tp, id);
                                }
                                self.current_path.pop();
                                proof {
                                    assert(st_i.cur.push(id).drop_last() =~= st_i.cur);
                                }
                            },
                        }
                    }
                    i = i + 1;
                }
                Ok(())
            },
            GqlValue::List(es) => self.filter_list(inter, es),
            _ => Ok(()),
        }
    }

    /// Pass A on one field: record its path when it has a selection set,
    /// its leaf children as columns, container grandchildren as columns of
    /// this table, and recurse into nested relationships.
    #[verifier::loop_isolation(false)]
    fn pass_a_field(&mut self, inter: &mut Interner, f: &GqlField) -> (r: Result<(), Error>)
        requires
            old(self).inv(),
            old(inter).wf(),
        ensures
            final(self).inv(),
            final(inter).wf(),
            sp_tab_le(old(inter)@, final(inter)@),
            match r {
                Ok(_) => sp_pass_a_field(old(self).st(old(inter)@), *f) == ExtOut::Good(
                    final(self).st(final(inter)@),
                ),
                Err(e) => sp_pass_a_field(old(self).st(old(inter)@), *f) == ExtOut::Bad(e),
            },
        decreases *f,
    {
        broadcast use lemma_tab_le_trans, lemma_tab_le_intern;

        let ghost base = old(self).st(old(inter)@);
        let id = match inter.try_intern(f.name.as_str()) {
            Ok(id) => id,
            Err(e) => {
                return Err(e);
            },
        };
        self.current_path.push(id);
        if f.selections.len() == 0 {
            self.current_path.pop();
            proof {
                assert(base.cur.push(id).drop_last() =~= base.cur);
            }
            return Ok(());
        }
        let cur = self.current_path.duplicate();
        self.field_paths.insert(&cur);
        let ghost st3 = self.st(inter@);
        let n = f.selections.len();
        let mut i: usize = 0;
        while i < n
            invariant
                self.inv(),
                inter.wf(),
                sp_tab_le(old(inter)@, inter@),
                n == f.selections@.len(),
                i <= n,
                sp_pass_a_children(st3, f.selections@, 0) == sp_pass_a_children(
                    self.st(inter@),
                    f.selections@,
                    i as int,
                ),
            decreases n - i,
        {
            let ghost st_i = self.st(inter@);
            match &f.selections[i] {
                GqlSelection::Field(c) => {
                    if c.selections.len() == 0 {
                        let cid = match inter.try_intern(c.name.as_str()) {
                            Ok(cid) => cid,
                            Err(e) => {
                                return Err(e);
                            },
                        };
                        self.column_usage.add_column(&self.current_path, cid);
                    } else if is_container_name(&c.name) {
                        let gn = c.selections.len();
                        let mut g: usize = 0;
                        while g < gn
                            invariant
                                self.inv(),
                                inter.wf(),
                                sp_tab_le(old(inter)@, inter@),
                        sp_tab_le(old(inter)@, inter@),
                                gn == c.selections@.len(),
                                g <= gn,
                                sp_pass_a_grand(st_i, c.selections@, 0) == sp_pass_a_grand(
                                    self.st(inter@),
                                    c.selections@,
                                    g as int,
                                ),
                            decreases gn - g,
                        {
                            match &c.selections[g] {
                                GqlSelection::Field(gc) => {
                                    if gc.selections.len() == 0 {
                                        let gid = match inter.try_intern(gc.name.as_str()) {
                                            Ok(gid) => gid,
                                            Err(e) => {
                                                return Err(e);
                                            },
                                        };
                                        self.column_usage.add_column(&self.current_path, gid);
                                    }
                                },
                                _ => (),
                            }
                            g = g + 1;
                        }
                        match self.pass_a_field(inter, c) {
                            Ok(_) => (),
                            Err(e) => {
                                return Err(e);
                            },
                        }
                    } else {
                        match self.pass_a_field(inter, c) {
                            Ok(_) => (),
                            Err(e) => {
                                return Err(e);
                            },
                        }
                    }
                },
                _ => (),
            }
            i = i + 1;
        }
        proof {
            lemma_pass_a_children_cur(st3, f.selections@, 0);
        }
        self.current_path.pop();
        proof {
            assert(base.cur.push(id).drop_last() =~= base.cur);
        }
        Ok(())
    }

    /// Pass B on one field: record its path when it has a selection set,
    /// examine its arguments, then descend into every sub-field's arguments.
    #[verifier::loop_isolation(false)]
    fn pass_b_field(&mut self, inter: &mut Interner, f: &GqlField, ins: &str, upd: &str) -> (r:
        Result<(), Error>)
        requires
            old(self).inv(),
            old(inter).wf(),
        ensures
            final(self).inv(),
            final(inter).wf(),
            sp_tab_le(old(inter)@, final(inter)@),
            match r {
                Ok(_) => sp_pass_b_field(old(self).st(old(inter)@), *f, ins@, upd@) == ExtOut::Good(
                    final(self).st(final(inter)@),
                ),
                Err(e) => sp_pass_b_field(old(self).st(old(inter)@), *f, ins@, upd@) == ExtOut::Bad(
                    e,
                ),
            },
        decreases *f,
    {
        broadcast use lemma_tab_le_trans, lemma_tab_le_intern;

        let ghost base = old(self).st(old(inter)@);
        let id = match inter.try_intern(f.name.as_str()) {
            Ok(id) => id,
            Err(e) => {
                return Err(e);
            },
        };
        self.current_path.push(id);
        if f.selections.len() > 0 {
            let cur = self.current_path.duplicate();
            self.field_paths.insert(&cur);
        }
        let ghost st3 = self.st(inter@);
        let is_insert = str_starts_with(f.name.as_str(), ins);
        let is_update = str_starts_with(f.name.as_str(), upd);
        let an = f.arguments.len();
        let mut i: usize = 0;
        while i < an
            invariant
                self.inv(),
                inter.wf(),
                sp_tab_le(old(inter)@, inter@),
                an == f.arguments@.len(),
                i <= an,
                is_insert == sp_starts_with(f.name@, ins@),
                is_update == sp_starts_with(f.name@, upd@),
                sp_pass_b_args(st3, f.arguments@, 0, f.name@, ins@, upd@) == sp_pass_b_args(
                    self.st(inter@),
                    f.arguments@,
                    i as int,
                    f.name@,
                    ins@,
                    upd@,
                ),
            decreases an - i,
        {
            let a = &f.arguments[i];
            if str_eq(a.name.as_str(), "where") {
                match self.filter_value(inter, &a.value) {
                    Ok(_) => (),
                    Err(e) => {
                        return Err(e);
                    },
                }
            } else if is_insert && (str_eq(a.name.as_str(), "objects") || str_eq(
                a.name.as_str(),
                "object",
            )) {
                let single = str_eq(a.name.as_str(), "object");
                match self.mutation_objects(inter, &a.value, single) {
                    Ok(_) => (),
                    Err(e) => {
                        return Err(e);
                    },
                }
            } else if is_update && str_eq(a.name.as_str(), "_set") {
                match self.set_value(inter, &a.value) {
                    Ok(_) => (),
                    Err(e) => {
                        return Err(e);
                    },
                }
            }
            i = i + 1;
        }
        proof {
            lemma_pass_b_args_cur(st3, f.arguments@, 0, f.name@, ins@, upd@);
        }
        let ghost st4 = self.st(inter@);
        let sn = f.selections.len();
        let mut j: usize = 0;
        while j < sn
            invariant
                self.inv(),
                inter.wf(),
                sp_tab_le(old(inter)@, inter@),
                sn == f.selections@.len(),
                j <= sn,
                sp_pass_b_children(st4, f.selections@, 0, ins@, upd@) == sp_pass_b_children(
                    self.st(inter@),
                    f.selections@,
                    j as int,
                    ins@,
                    upd@,
                ),
            decreases sn - j,
        {
            match &f.selections[j] {
                GqlSelection::Field(c) => {
                    match self.pass_b_field(inter, c, ins, upd) {
                        Ok(_) => (),
                        Err(e) => {
                            return Err(e);
                        },
                    }
                },
                _ => (),
            }
            j = j + 1;
        }
        proof {
            lemma_pass_b_children_cur(st4, f.selections@, 0, ins@, upd@);
        }
        self.current_path.pop();
        proof {
            assert(base.cur.push(id).drop_last() =~= base.cur);
        }
        Ok(())
    }

    /// Both passes over the root selections of one operation.
    #[verifier::loop_isolation(false)]
    fn process_operation(
        &mut self,
        inter: &mut Interner,
        sels: &Vec<GqlSelection>,
        ins: &str,
        upd: &str,
    ) -> (r: Result<(), Error>)
        requires
            old(self).inv(),
            old(inter).wf(),
        ensures
            final(self).inv(),
            final(inter).wf(),
            sp_tab_le(old(inter)@, final(inter)@),
            match r {
                Ok(_) => sp_operation(old(self).st(old(inter)@), sels@, ins@, upd@) == ExtOut::Good(
                    final(self).st(final(inter)@),
                ),
                Err(e) => sp_operation(old(self).st(old(inter)@), sels@, ins@, upd@) == ExtOut::Bad(
                    e,
                ),
            },
    {
        broadcast use lemma_tab_le_trans, lemma_tab_le_intern;

        let ghost base = old(self).st(old(inter)@);
        let n = sels.len();
        let mut i: usize = 0;
        while i < n
            invariant
                self.inv(),
                inter.wf(),
                sp_tab_le(old(inter)@, inter@),
                n == sels@.len(),
                i <= n,
                sp_pass_a_roots(base, sels@, 0) == sp_pass_a_roots(
                    self.st(inter@),
                    sels@,
                    i as int,
                ),
            decreases n - i,
        {
            match &sels[i] {
                GqlSelection::Field(c) => {
                    self.current_path.clear();
                    match self.pass_a_field(inter, c) {
                        Ok(_) => (),
                        Err(e) => {
                            return Err(e);
                        },
                    }
                },
                _ => (),
            }
            i = i + 1;
        }
        let ghost st1 = self.st(inter@);
        let mut j: usize = 0;
        while j < n
            invariant
                self.inv(),
                inter.wf(),
                sp_tab_le(old(inter)@, inter@),
                n == sels@.len(),
                j <= n,
                sp_pass_b_roots(st1, sels@, 0, ins@, upd@) == sp_pass_b_roots(
                    self.st(inter@),
                    sels@,
                    j as int,
                    ins@,
                    upd@,
                ),
            decreases n - j,
        {
            match &sels[j] {
                GqlSelection::Field(c) => {
                    self.current_path.clear();
                    match self.pass_b_field(inter, c, ins, upd) {
                        Ok(_) => (),
                        Err(e) => {
                            return Err(e);
                        },
                    }
                },
                _ => (),
            }
            j = j + 1;
        }
        Ok(())
    }

    /// Runs both passes over every operation definition of the document.
    /// Fails with `EmptyDocument` when the document holds no operation, with
    /// `InvalidInput` on a malformed mutation argument, and with
    /// `CorruptedState` only if the interner's id space is exhausted. On
    /// success the accumulated paths and columns, and the grown interner,
    /// are exactly the extraction model of the document.
    #[verifier::loop_isolation(false)]
    pub fn extract(
        &mut self,
        document: &GqlDocument,
        inter: &mut Interner,
        config: &Config,
    ) -> (r: Result<(), Error>)
        requires
            old(self).inv(),
            old(inter).wf(),
            old(self).st(old(inter)@) == sp_init_st(old(inter)@),
        ensures
            final(self).inv(),
            final(inter).wf(),
            sp_tab_le(old(inter)@, final(inter)@),
            match r {
                Ok(_) => sp_has_operation(document.definitions@) && sp_extract(
                    old(inter)@,
                    *document,
                    config.insert_prefix@,
                    config.update_prefix@,
                ) == ExtOut::Good(final(self).st(final(inter)@)),
                Err(e) => (e == Error::EmptyDocument && !sp_has_operation(document.definitions@))
                    || (sp_has_operation(document.definitions@) && sp_extract(
                    old(inter)@,
                    *document,
                    config.insert_prefix@,
                    config.update_prefix@,
                ) == ExtOut::Bad(e)),
            },
    {
        broadcast use lemma_tab_le_trans, lemma_tab_le_intern;

        let ghost ins = config.insert_prefix@;
        let ghost upd = config.update_prefix@;
        let defs = &document.definitions;
        let n = defs.len();
        let mut has_op = false;
        let mut k: usize = 0;
        while k < n
            invariant
                n == defs@.len(),
                k <= n,
                has_op == exists|j: int| 0 <= j < k && defs@[j] is Operation,
            decreases n - k,
        {
            match &defs[k] {
                GqlDefinition::Operation(_) => {
                    has_op = true;
                },
                _ => (),
            }
            k = k + 1;
        }
        if !has_op {
            return Err(Error::EmptyDocument);
        }
        assert(sp_has_operation(document.definitions@));
        broadcast use lemma_tab_le_trans, lemma_tab_le_intern;

        let ghost base = old(self).st(old(inter)@);
        let mut i: usize = 0;
        while i < n
            invariant
                self.inv(),
                inter.wf(),
                sp_tab_le(old(inter)@, inter@),
                n == defs@.len(),
                i <= n,
                sp_defs(base, defs@, 0, ins, upd) == sp_defs(
                    self.st(inter@),
                    defs@,
                    i as int,
                    ins,
                    upd,
                ),
            decreases n - i,
        {
            match &defs[i] {
                GqlDefinition::Operation(op) => {
                    match self.process_operation(inter, &op.selections, config.insert_prefix.as_str(), config.update_prefix.as_str()) {
                        Ok(_) => (),
                        Err(e) => {
                            return Err(e);
                        },
                    }
                },
                _ => (),
            }
            i = i + 1;
        }
        Ok(())
    }
}

} // verus!
