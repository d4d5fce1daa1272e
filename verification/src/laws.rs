//! Properties that span several operations of the library.
use vstd::prelude::*;

use crate::analysis_records::{all_exceptions, all_literals, boxed_node_ids, crate_exceptions, crate_literals, records_of};
use crate::callgraph::{call_edges, callers_index, first_occurrence, graph_edges, sites_calling, sites_of, CallGraph, MonoFn};
use crate::def_id::DefId;
use crate::hir_analysis::{
    add_id, crate_at, has_record, ids_at, record_at, spec_add_struct, spec_add_struct_def, spec_expr_records,
    spec_item_records, spec_mark_boxable, spec_set_exception, AdtRef, ExprFact, ItemFact, StructRecordView,
};
use crate::field_records::{
    access_fold, fresh_field, lemma_literal_fold_crates, literal_fold, spec_field_def, spec_field_use, StructField, spec_visit_expr, struct_or_new, with_struct, CrateRecordView, FieldRecordView, LiteralField,
};
use crate::mir::{Operand, Place};
use crate::validators::{spec_decide, CallFacts, ValidatorDecision};

verus! {

/// `b` keeps everything `a` records: every crate and struct, every mark that
/// a struct needs a box, and every recorded literal and exception.
pub open spec fn records_grow(
    a: Map<Seq<char>, Map<usize, StructRecordView>>,
    b: Map<Seq<char>, Map<usize, StructRecordView>>,
) -> bool {
    &&& forall|c: Seq<char>| #[trigger] a.contains_key(c) ==> b.contains_key(c)
    &&& forall|c: Seq<char>, i: usize| #[trigger] has_record(a, c, i) ==> {
        &&& has_record(b, c, i)
        &&& a[c][i].needs_box ==> b[c][i].needs_box
        &&& forall|k: Seq<char>| #[trigger] ids_at(a[c][i].struct_defs, k).subset_of(ids_at(b[c][i].struct_defs, k))
        &&& forall|k: Seq<char>| #[trigger] ids_at(a[c][i].except_defs, k).subset_of(ids_at(b[c][i].except_defs, k))
    }
}

/// Recording never forgets: marking a struct, recording a literal or an
/// exception, and recording a struct definition all keep what was recorded.
pub proof fn law_recording_only_grows(
    t: Map<Seq<char>, Map<usize, StructRecordView>>,
    c: Seq<char>,
    i: usize,
    here: Seq<char>,
    id: u32,
)
    ensures
        records_grow(t, spec_mark_boxable(t, c, i)),
        records_grow(t, spec_add_struct_def(t, c, i, here, id)),
        records_grow(t, spec_set_exception(t, c, i, here, id)),
        records_grow(t, spec_add_struct(t, here, id, i)),
{
}

/// Marking a struct as needing a box twice is the same as marking it once.
pub proof fn law_mark_boxable_idempotent(t: Map<Seq<char>, Map<usize, StructRecordView>>, c: Seq<char>, i: usize)
    ensures
        spec_mark_boxable(spec_mark_boxable(t, c, i), c, i) == spec_mark_boxable(t, c, i),
{
    let once = spec_mark_boxable(t, c, i);
    if has_record(t, c, i) {
        assert(once[c] =~= once[c].insert(i, once[c][i]));
        assert(spec_mark_boxable(once, c, i) =~= once);
    }
}

/// A struct that the analysis of crate `c` defines and then marks as needing
/// a box is boxed when crate `c` is compiled.
pub proof fn law_marked_struct_is_boxed(
    t: Map<Seq<char>, Map<usize, StructRecordView>>,
    c: Seq<char>,
    node_id: u32,
    i: usize,
)
    ensures
        boxed_node_ids(records_of(spec_mark_boxable(spec_add_struct(t, c, node_id, i), c, i), c)).contains(node_id),
{
    let t2 = spec_mark_boxable(spec_add_struct(t, c, node_id, i), c, i);
    assert(t2[c].contains_key(i) && t2[c][i].needs_box && t2[c][i].node_id == node_id);
}

/// A literal that crate `here` records of a struct that needs a box is
/// rewritten when crate `here` is compiled.
pub proof fn law_recorded_literal_is_rewritten(
    t: Map<Seq<char>, Map<usize, StructRecordView>>,
    c: Seq<char>,
    i: usize,
    here: Seq<char>,
    id: u32,
)
    requires
        has_record(t, c, i),
        t[c][i].needs_box,
    ensures
        all_literals(spec_add_struct_def(t, c, i, here, id), here).contains(id),
{
    let t2 = spec_add_struct_def(t, c, i, here, id);
    assert(t2[c].contains_key(i) && t2[c][i].needs_box && ids_at(t2[c][i].struct_defs, here).contains(id));
    assert(crate_literals(t2[c], here).contains(id));
    assert(t2.contains_key(c));
}

/// A literal that is assigned to stays an exception when its crate is
/// compiled, whatever was recorded of its struct before.
pub proof fn law_exception_is_kept(
    t: Map<Seq<char>, Map<usize, StructRecordView>>,
    c: Seq<char>,
    i: usize,
    here: Seq<char>,
    id: u32,
)
    ensures
        all_exceptions(spec_set_exception(t, c, i, here, id), here).contains(id),
{
    let t2 = spec_set_exception(t, c, i, here, id);
    assert(t2[c].contains_key(i) && t2[c][i].needs_box && ids_at(t2[c][i].except_defs, here).contains(id));
    assert(crate_exceptions(t2[c], here).contains(id));
    assert(t2.contains_key(c));
}

/// In a call graph, the sites are numbered from 0 without gaps, each site is
/// listed under its callee and under no other function, and every function
/// that is listed has at least one site.
pub proof fn law_call_graph_consistent(g: CallGraph, e: Seq<(DefId, DefId)>)
    requires
        g.holds(e),
    ensures
        forall|id: usize| #[trigger] g.sites().contains_key(id) <==> id < g.spec_next_id(),
        forall|id: usize| #[trigger] g.sites().contains_key(id) ==> {
            &&& g.callers().contains_key(g.sites()[id].1)
            &&& g.callers()[g.sites()[id].1].contains(id)
        },
        forall|f: DefId, id: usize| #[trigger] g.callers().contains_key(f) && #[trigger] g.callers()[f].contains(id) ==> {
            &&& g.sites().contains_key(id)
            &&& g.sites()[id].1 == f
        },
        forall|f1: DefId, f2: DefId, id: usize|
            g.callers().contains_key(f1) && g.callers().contains_key(f2) && #[trigger] g.callers()[f1].contains(id)
                && #[trigger] g.callers()[f2].contains(id) ==> f1 == f2,
        forall|f: DefId| #[trigger] g.callers().contains_key(f) ==> exists|id: usize| g.callers()[f].contains(id),
{
    assert forall|f: DefId| #[trigger] g.callers().contains_key(f) implies exists|id: usize| g.callers()[f].contains(id) by {
        assert(callers_index(e).contains_key(f));
        let i = choose|i: usize| i < e.len() && #[trigger] e[i as int].1 == f;
        assert(g.callers()[f] == sites_calling(e, f));
        assert(sites_calling(e, f).contains(i));
    }
    assert forall|id: usize| #[trigger] g.sites().contains_key(id) implies {
        &&& g.callers().contains_key(g.sites()[id].1)
        &&& g.callers()[g.sites()[id].1].contains(id)
    } by {
        let f = e[id as int].1;
        assert(sites_of(e)[id] == e[id as int]);
        assert(callers_index(e).contains_key(f));
        assert(sites_calling(e, f).contains(id));
    }
}


/// A call of a method of a struct that has a validator, whose first argument
/// is a mutable reference to that struct, is followed by the validator on that
/// argument, instantiated with the argument's generic arguments, whatever the
/// call returns.
pub proof fn law_mutated_receiver_is_validated(facts: CallFacts, args: Seq<Operand>, dest: Place)
    requires
        facts.impl_of is Some,
        facts.impl_of->0.adt is Some,
        facts.impl_of->0.validator is Some,
        args.len() > 0,
        facts.first_arg is Some,
        facts.first_arg->0.peeled_adt == facts.impl_of->0.adt,
        facts.first_arg->0.is_mut_ref,
    ensures
        spec_decide(facts, args, dest) == (ValidatorDecision::Validate {
            operand: args[0],
            validator: facts.impl_of->0.validator->0,
            generic_args: facts.first_arg->0.generic_args,
        }),
{
}

/// A method of a struct with a validator whose first argument is that struct
/// taken by shared reference or by value gets no validator, whatever it returns.
pub proof fn law_unmutated_receiver_is_not_validated(facts: CallFacts, args: Seq<Operand>, dest: Place)
    requires
        facts.impl_of is Some,
        facts.impl_of->0.adt is Some,
        facts.impl_of->0.validator is Some,
        args.len() > 0,
        facts.first_arg is Some,
        facts.first_arg->0.peeled_adt == facts.impl_of->0.adt,
        !facts.first_arg->0.is_mut_ref,
    ensures
        spec_decide(facts, args, dest) == ValidatorDecision::Skip,
{
}

/// A method of a struct with a validator whose first argument is not that
/// struct, and which returns that struct, is followed by the validator on the
/// returned value, instantiated with the returned type's generic arguments.
pub proof fn law_returned_value_is_validated(facts: CallFacts, args: Seq<Operand>, dest: Place)
    requires
        facts.impl_of is Some,
        facts.impl_of->0.adt is Some,
        facts.impl_of->0.validator is Some,
        !(args.len() > 0 && facts.first_arg is Some && facts.first_arg->0.peeled_adt == facts.impl_of->0.adt),
        facts.destination_adt == facts.impl_of->0.adt,
    ensures
        spec_decide(facts, args, dest) == (ValidatorDecision::Validate {
            operand: Operand::Copy(dest),
            validator: facts.impl_of->0.validator->0,
            generic_args: facts.destination_generic_args,
        }),
{
}

/// Accessing a field of a value whose recorded struct holds a smart pointer
/// marks exactly that struct as needing a box and leaves every other record,
/// and the rest of that one, as it was.
pub proof fn law_field_access_marks_struct(t: Map<Seq<char>, Map<usize, StructRecordView>>, here: Seq<char>, a: AdtRef)
    requires
        has_record(t, a.krate@, a.index),
    ensures
        ({
            let out = spec_expr_records(t, here, ExprFact::FieldAccess { parent_adt: Some(a), contains_smart_pointer: true });
            &&& out.dom() == t.dom()
            &&& has_record(out, a.krate@, a.index)
            &&& out[a.krate@][a.index] == (StructRecordView { needs_box: true, ..t[a.krate@][a.index] })
            &&& forall|c: Seq<char>, i: usize| #[trigger] has_record(out, c, i) <==> has_record(t, c, i)
            &&& forall|c: Seq<char>, i: usize| #[trigger] has_record(t, c, i) && !(c == a.krate@ && i == a.index)
                ==> out[c][i] == t[c][i]
        }),
{
    let out = spec_expr_records(t, here, ExprFact::FieldAccess { parent_adt: Some(a), contains_smart_pointer: true });
    assert(out.dom() =~= t.dom());
}

/// A struct that crate `here` defines, and whose field is then accessed
/// while it holds a smart pointer, gets its shadow box when `here` is compiled.
pub proof fn law_accessed_struct_is_boxed(
    t: Map<Seq<char>, Map<usize, StructRecordView>>,
    here: Seq<char>,
    node_id: u32,
    a: AdtRef,
)
    requires
        a.krate@ == here,
    ensures
        boxed_node_ids(records_of(spec_expr_records(
            spec_item_records(t, here, ItemFact::Struct { node_id, def_index: a.index }),
            here,
            ExprFact::FieldAccess { parent_adt: Some(a), contains_smart_pointer: true },
        ), here)).contains(node_id),
{
    let t1 = spec_item_records(t, here, ItemFact::Struct { node_id, def_index: a.index });
    let t2 = spec_expr_records(t1, here, ExprFact::FieldAccess { parent_adt: Some(a), contains_smart_pointer: true });
    assert(has_record(t1, here, a.index));
    assert(t2.contains_key(here) && t2[here].contains_key(a.index));
    assert(t2[here][a.index].needs_box && t2[here][a.index].node_id == node_id);
    assert(records_of(t2, here) == t2[here]);
}


/// The record of field `i` of struct `a`, when there is one.
pub open spec fn field_at(r: Map<Seq<char>, CrateRecordView>, a: AdtRef, i: usize) -> Option<FieldRecordView> {
    if r.contains_key(a.krate@) && r[a.krate@].structs.contains_key(a.index) && r[a.krate@].structs[a.index].fields.contains_key(i) {
        Some(r[a.krate@].structs[a.index].fields[i])
    } else {
        None
    }
}

/// Field record `before` (a new one for field `i` when there is none) once
/// initializer `f` is added to it.
spec fn initialized(before: Option<FieldRecordView>, f: LiteralField, i: usize) -> FieldRecordView {
    let base = match before {
        Some(b) => b,
        None => fresh_field(i, f.def_index, f.ident@),
    };
    FieldRecordView { struct_field_defs: base.struct_field_defs.insert(f.expr_node_id), ..base }
}

proof fn lemma_literal_fold_positions(r: Map<Seq<char>, CrateRecordView>, a: AdtRef, fields: Seq<LiteralField>, k: int)
    requires
        0 <= k <= fields.len(),
        fields.len() <= usize::MAX,
        (exists|i: int| 0 <= i < fields.len() && !(#[trigger] fields[i]).is_smart_pointer) ==> r.contains_key(a.krate@),
    ensures
        forall|i: usize| #[trigger] field_at(literal_fold(r, a, fields, k), a, i) == if i < k && !fields[i as int].is_smart_pointer {
            Some(initialized(field_at(r, a, i), fields[i as int], i))
        } else {
            field_at(r, a, i)
        },
    decreases k,
{
    if k > 0 {
        lemma_literal_fold_positions(r, a, fields, k - 1);
        let before = literal_fold(r, a, fields, k - 1);
        let f = fields[k - 1];
        if !f.is_smart_pointer {
            lemma_literal_fold_crates(r, a, fields, k - 1);
            assert(before.contains_key(a.krate@));
            let out = literal_fold(r, a, fields, k);
            let s0 = struct_or_new(before[a.krate@].structs, a.index);
            let s1 = spec_field_def(s0, (k - 1) as usize, f.def_index, f.ident@, f.expr_node_id);
            assert(out == with_struct(before, a.krate@, a.index, s1));
            assert(out[a.krate@].structs[a.index] == s1);
            assert forall|i: usize| #[trigger] s0.fields.contains_key(i) == (field_at(before, a, i) is Some)
                && (s0.fields.contains_key(i) ==> field_at(before, a, i)->0 == s0.fields[i]) by {}
            assert forall|i: usize| #[trigger] field_at(out, a, i) == if i < k && !fields[i as int].is_smart_pointer {
                Some(initialized(field_at(r, a, i), fields[i as int], i))
            } else {
                field_at(r, a, i)
            } by {
                assert(field_at(before, a, i) == if i < k - 1 && !fields[i as int].is_smart_pointer {
                    Some(initialized(field_at(r, a, i), fields[i as int], i))
                } else {
                    field_at(r, a, i)
                });
                assert(out.contains_key(a.krate@) && out[a.krate@].structs.contains_key(a.index));
                if i == k - 1 {
                    assert(s1.fields.contains_key(i));
                    assert(field_at(out, a, i) == Some(s1.fields[i]));
                    assert(s1.fields[i] == initialized(field_at(before, a, i), f, i));
                } else {
                    assert(i != (k - 1) as usize);
                    assert(s1.fields.contains_key(i) == s0.fields.contains_key(i));
                    if s0.fields.contains_key(i) {
                        assert(field_at(out, a, i) == Some(s0.fields[i]));
                    }
                }
            }
        }
    }
}

/// A literal of a struct that holds a smart pointer records, for each of its
/// plain fields, the initializer at the field's position, and leaves the
/// records of its smart-pointer fields, and of every other position, as they
/// were.
pub proof fn law_literal_records_plain_initializers(r: Map<Seq<char>, CrateRecordView>, a: AdtRef, fields: Vec<LiteralField>)
    requires
        (exists|i: int| 0 <= i < fields@.len() && !(#[trigger] fields@[i]).is_smart_pointer) ==> r.contains_key(a.krate@),
    ensures
        ({
            let out = spec_visit_expr(r, crate::field_records::ExprFact::StructLiteral {
                adt: Some(a),
                contains_smart_pointer: true,
                fields,
            });
            &&& forall|i: usize| #![trigger field_at(out, a, i)]
                i < fields@.len() && !fields@[i as int].is_smart_pointer ==> {
                    let f = fields@[i as int];
                    let before = field_at(r, a, i);
                    let now = field_at(out, a, i)->0;
                    &&& field_at(out, a, i) is Some
                    &&& now.struct_field_defs.contains(f.expr_node_id)
                    &&& now.struct_field_defs == (if before is Some {
                        before->0.struct_field_defs
                    } else {
                        Set::empty()
                    }).insert(f.expr_node_id)
                    &&& now.field_expr_uses == (if before is Some { before->0.field_expr_uses } else { Set::empty() })
                    &&& before is None ==> now.struct_index == i && now.def_index == f.def_index && now.ident == f.ident@
                    &&& before is Some ==> now.struct_index == before->0.struct_index && now.def_index == before->0.def_index
                        && now.ident == before->0.ident
                }
            &&& forall|i: usize| #![trigger field_at(out, a, i)]
                !(i < fields@.len() && !fields@[i as int].is_smart_pointer) ==> field_at(out, a, i) == field_at(r, a, i)
        }),
{
    assert(fields@.len() == fields.len());
    lemma_literal_fold_positions(r, a, fields@, fields@.len() as int);
}


/// The callee of a call, when it is known.
pub open spec fn called() -> spec_fn(Option<DefId>) -> Option<DefId> {
    |c: Option<DefId>| c
}

/// The edge from `caller` to a callee.
pub open spec fn edge_from(caller: DefId) -> spec_fn(DefId) -> (DefId, DefId) {
    |d: DefId| (caller, d)
}

proof fn lemma_call_edges_prefix(caller: DefId, calls: Seq<Option<DefId>>, k: int)
    requires
        0 <= k <= calls.len(),
    ensures
        call_edges(caller, calls, k) == calls.take(k).filter_map(called()).map_values(edge_from(caller)),
    decreases k,
{
    if k > 0 {
        lemma_call_edges_prefix(caller, calls, k - 1);
        let t = calls.take(k);
        assert(t.drop_last() =~= calls.take(k - 1));
        assert(t.last() == calls[k - 1]);
        let rest = calls.take(k - 1).filter_map(called());
        match calls[k - 1] {
            Some(d) => {
                assert(t.filter_map(called()) == rest + seq![d]);
                assert((rest + seq![d]).map_values(edge_from(caller)) =~= rest.map_values(edge_from(caller)).push((caller, d)));
            },
            None => {
                assert(t.filter_map(called()) == rest);
            },
        }
    } else {
        assert(calls.take(0) =~= Seq::<Option<DefId>>::empty());
    }
}

/// The sites that a function's calls contribute are its known callees, every
/// one of them and in order, each paired with the function itself: a call
/// gets its site whoever the callee is, and repeated calls each get one.
pub proof fn law_call_edges_are_the_known_calls(caller: DefId, calls: Seq<Option<DefId>>)
    ensures
        call_edges(caller, calls, calls.len() as int) == calls.filter_map(called()).map_values(edge_from(caller)),
        call_edges(caller, calls, calls.len() as int).len() == calls.filter_map(called()).len(),
        forall|i: int| 0 <= i < call_edges(caller, calls, calls.len() as int).len() ==>
            (#[trigger] call_edges(caller, calls, calls.len() as int)[i]).0 == caller,
{
    lemma_call_edges_prefix(caller, calls, calls.len() as int);
    assert(calls.take(calls.len() as int) =~= calls);
}

/// The number of known calls of the functions `fns[..k]`, each function
/// counted at its first occurrence only.
pub open spec fn known_calls(fns: Seq<MonoFn>, k: int) -> nat
    decreases k,
{
    if k <= 0 {
        0
    } else if forall|j: int| 0 <= j < k - 1 ==> #[trigger] fns[j].def_id != fns[k - 1].def_id {
        known_calls(fns, k - 1) + fns[k - 1].calls@.filter_map(called()).len()
    } else {
        known_calls(fns, k - 1)
    }
}

proof fn lemma_graph_edges_len(fns: Seq<MonoFn>, k: int)
    requires
        0 <= k,
    ensures
        graph_edges(fns, k).len() == known_calls(fns, k),
    decreases k,
{
    if k > 0 {
        lemma_graph_edges_len(fns, k - 1);
        law_call_edges_are_the_known_calls(fns[k - 1].def_id, fns[k - 1].calls@);
        assert(first_occurrence(fns, k - 1) == forall|j: int| 0 <= j < k - 1 ==> #[trigger] fns[j].def_id != fns[k - 1].def_id);
    }
}

/// A call graph built from the program's functions has one site for every
/// known call of each function (at its first occurrence), recursive and
/// repeated calls included.
pub proof fn law_graph_has_a_site_per_call(g: CallGraph, fns: Seq<MonoFn>)
    requires
        g.holds(graph_edges(fns, fns.len() as int)),
    ensures
        g.spec_next_id() == known_calls(fns, fns.len() as int),
        forall|id: usize| #[trigger] g.sites().contains_key(id) <==> id < known_calls(fns, fns.len() as int),
{
    lemma_graph_edges_len(fns, fns.len() as int);
    law_call_graph_consistent(g, graph_edges(fns, fns.len() as int));
}


/// A call gets no validator unless its callee is a method of a struct that
/// has a validator.
pub proof fn law_no_validator_no_validation(facts: CallFacts, args: Seq<Operand>, dest: Place)
    requires
        facts.impl_of is None || facts.impl_of->0.adt is None || facts.impl_of->0.validator is None,
    ensures
        !(spec_decide(facts, args, dest) is Validate),
{
}

/// A literal, written in crate `here`, of a recorded struct is listed among
/// that struct's literals of `here`; the struct needs a box afterwards exactly
/// when it did before or the literal's type holds a smart pointer; the rest
/// of its record and every other record stay as they were.
pub proof fn law_struct_literal_is_recorded(
    t: Map<Seq<char>, Map<usize, StructRecordView>>,
    here: Seq<char>,
    a: AdtRef,
    contains_smart_pointer: bool,
    node_id: u32,
)
    requires
        has_record(t, a.krate@, a.index),
    ensures
        ({
            let out = spec_expr_records(t, here, ExprFact::StructLiteral { adt: Some(a), contains_smart_pointer, node_id });
            let before = t[a.krate@][a.index];
            let now = out[a.krate@][a.index];
            &&& forall|c: Seq<char>, i: usize| #[trigger] has_record(out, c, i) <==> has_record(t, c, i)
            &&& now.needs_box == (before.needs_box || contains_smart_pointer)
            &&& ids_at(now.struct_defs, here) == ids_at(before.struct_defs, here).insert(node_id)
            &&& forall|k: Seq<char>| k != here ==> #[trigger] ids_at(now.struct_defs, k) == ids_at(before.struct_defs, k)
            &&& now.except_defs == before.except_defs
            &&& now.node_id == before.node_id && now.def_index == before.def_index
            &&& forall|c: Seq<char>, i: usize| #[trigger] has_record(t, c, i) && !(c == a.krate@ && i == a.index)
                ==> out[c][i] == t[c][i]
        }),
{
}

/// Assigning to a literal, written in crate `here`, of a struct that holds a
/// smart pointer makes the struct need a box and lists the literal among its
/// exceptions of `here`, creating the record when there is none; every other
/// record stays as it was.
pub proof fn law_assigned_literal_is_exception(
    t: Map<Seq<char>, Map<usize, StructRecordView>>,
    here: Seq<char>,
    a: AdtRef,
    node_id: u32,
)
    ensures
        ({
            let out = spec_expr_records(t, here, ExprFact::AssignToStructLiteral {
                lhs_adt: Some(a),
                contains_smart_pointer: true,
                lhs_node_id: node_id,
            });
            &&& has_record(out, a.krate@, a.index)
            &&& out[a.krate@][a.index].needs_box
            &&& ids_at(out[a.krate@][a.index].except_defs, here).contains(node_id)
            &&& has_record(t, a.krate@, a.index) ==> {
                &&& ids_at(out[a.krate@][a.index].except_defs, here) == ids_at(t[a.krate@][a.index].except_defs, here).insert(node_id)
                &&& out[a.krate@][a.index].struct_defs == t[a.krate@][a.index].struct_defs
            }
            &&& forall|c: Seq<char>, i: usize| #[trigger] has_record(t, c, i) && !(c == a.krate@ && i == a.index)
                ==> has_record(out, c, i) && out[c][i] == t[c][i]
        }),
{
}


/// Field record `before` (a new one for field `i`, defined as `def_index` and
/// named `ident`, when there is none) once the read `id` is added to it.
spec fn read_by(before: Option<FieldRecordView>, i: usize, def_index: usize, ident: Seq<char>, id: u32) -> FieldRecordView {
    let base = match before {
        Some(b) => b,
        None => fresh_field(i, def_index, ident),
    };
    FieldRecordView { field_expr_uses: base.field_expr_uses.insert(id), ..base }
}

proof fn lemma_access_fold_positions(
    r: Map<Seq<char>, CrateRecordView>,
    a: AdtRef,
    fields: Seq<StructField>,
    ident: Seq<char>,
    id: u32,
    k: int,
)
    requires
        0 <= k <= fields.len(),
        fields.len() <= usize::MAX,
        (exists|i: int| 0 <= i < fields.len() && (#[trigger] fields[i]).ident@ == ident) ==> r.contains_key(a.krate@),
    ensures
        r.contains_key(a.krate@) ==> access_fold(r, a, fields, ident, id, k).contains_key(a.krate@),
        forall|i: usize| #[trigger] field_at(access_fold(r, a, fields, ident, id, k), a, i) == if i < k && fields[i as int].ident@ == ident {
            Some(read_by(field_at(r, a, i), i, fields[i as int].def_index, ident, id))
        } else {
            field_at(r, a, i)
        },
    decreases k,
{
    if k > 0 {
        lemma_access_fold_positions(r, a, fields, ident, id, k - 1);
        let before = access_fold(r, a, fields, ident, id, k - 1);
        let f = fields[k - 1];
        if f.ident@ == ident {
            assert(before.contains_key(a.krate@));
            let out = access_fold(r, a, fields, ident, id, k);
            let s0 = struct_or_new(before[a.krate@].structs, a.index);
            let s1 = spec_field_use(s0, (k - 1) as usize, f.def_index, ident, id);
            assert(out == with_struct(before, a.krate@, a.index, s1));
            assert(out[a.krate@].structs[a.index] == s1);
            assert forall|i: usize| #[trigger] s0.fields.contains_key(i) == (field_at(before, a, i) is Some)
                && (s0.fields.contains_key(i) ==> field_at(before, a, i)->0 == s0.fields[i]) by {}
            assert forall|i: usize| #[trigger] field_at(out, a, i) == if i < k && fields[i as int].ident@ == ident {
                Some(read_by(field_at(r, a, i), i, fields[i as int].def_index, ident, id))
            } else {
                field_at(r, a, i)
            } by {
                assert(out.contains_key(a.krate@) && out[a.krate@].structs.contains_key(a.index));
                if i == k - 1 {
                    assert(s1.fields.contains_key(i));
                    assert(field_at(out, a, i) == Some(s1.fields[i]));
                } else {
                    assert(i != (k - 1) as usize);
                    assert(s1.fields.contains_key(i) == s0.fields.contains_key(i));
                    if s0.fields.contains_key(i) {
                        assert(field_at(out, a, i) == Some(s0.fields[i]));
                    }
                }
            }
        }
    }
}

/// Reading a plain field `ident` of a value whose struct holds a smart
/// pointer records the read under every field of that name, at the field's
/// position, and leaves the literal initializers and every other position as
/// they were.
pub proof fn law_field_read_is_recorded(
    r: Map<Seq<char>, CrateRecordView>,
    a: AdtRef,
    all_fields: Vec<StructField>,
    ident: String,
    node_id: u32,
)
    requires
        (exists|i: int| 0 <= i < all_fields@.len() && (#[trigger] all_fields@[i]).ident@ == ident@) ==> r.contains_key(a.krate@),
    ensures
        ({
            let out = spec_visit_expr(r, crate::field_records::ExprFact::FieldAccess {
                parent_adt: Some(a),
                parent_contains_smart_pointer: true,
                field_is_smart_pointer: false,
                all_fields,
                ident,
                node_id,
            });
            &&& forall|i: usize| #![trigger field_at(out, a, i)]
                i < all_fields@.len() && all_fields@[i as int].ident@ == ident@ ==> {
                    let before = field_at(r, a, i);
                    let now = field_at(out, a, i)->0;
                    &&& field_at(out, a, i) is Some
                    &&& now.field_expr_uses == (if before is Some {
                        before->0.field_expr_uses
                    } else {
                        Set::empty()
                    }).insert(node_id)
                    &&& now.struct_field_defs == (if before is Some { before->0.struct_field_defs } else { Set::empty() })
                    &&& before is None ==> now.struct_index == i && now.def_index == all_fields@[i as int].def_index
                        && now.ident == ident@
                }
            &&& forall|i: usize| #![trigger field_at(out, a, i)]
                !(i < all_fields@.len() && all_fields@[i as int].ident@ == ident@) ==> field_at(out, a, i) == field_at(r, a, i)
        }),
{
    assert(all_fields@.len() == all_fields.len());
    lemma_access_fold_positions(r, a, all_fields@, ident@, node_id, all_fields@.len() as int);
}

} // verus!
