use metasafe::hir_analysis::{run_metasafe_analysis_stage, AnalysisEvent};
use metasafe::analysis_records::load_analysis;
use metasafe::collections::{AssocMap, KeySet};
use metasafe::hir_analysis::{AdtRef, CrateRecords, ExprFact, HirAnalysisCtxt, ItemFact, RecordTable, StructRecord};

fn ctx(name: &str) -> HirAnalysisCtxt {
    HirAnalysisCtxt::new(name.to_string(), AssocMap::new(), AssocMap::new(), &vec![])
}

fn record<'a>(c: &'a HirAnalysisCtxt, krate: &str, index: usize) -> Option<&'a StructRecord> {
    c.struct_records.get(&krate.to_string()).and_then(|m| m.get(&index))
}

fn ids(s: Option<&KeySet<u32>>) -> Vec<u32> {
    let mut v = Vec::new();
    if let Some(s) = s {
        for i in 0..s.len() {
            v.push(*s.item_at(i));
        }
    }
    v.sort();
    v
}

#[test]
fn new_gives_missing_crates_empty_tables() {
    let mut loaded: RecordTable = AssocMap::new();
    let mut own: CrateRecords = AssocMap::new();
    own.insert(3, StructRecord::new());
    loaded.insert("core".to_string(), own);
    let c = HirAnalysisCtxt::new(
        "app".to_string(),
        loaded,
        AssocMap::new(),
        &vec!["core".to_string(), "alloc".to_string()],
    );
    assert_eq!(c.struct_records.len(), 2);
    assert_eq!(c.struct_records.get(&"core".to_string()).unwrap().len(), 1);
    assert_eq!(c.struct_records.get(&"alloc".to_string()).unwrap().len(), 0);
    assert!(c.struct_records.get(&"app".to_string()).is_none());
}

#[test]
fn add_struct_then_mark_boxable() {
    let mut c = ctx("app");
    c.add_struct(17, 5);
    let r = record(&c, "app", 5).unwrap();
    assert_eq!((r.def_index, r.node_id, r.needs_box), (5, 17, false));
    c.mark_struct_boxable(&"app".to_string(), 5);
    assert!(record(&c, "app", 5).unwrap().needs_box);
}

#[test]
fn mark_boxable_twice_is_mark_once() {
    let mut c = ctx("app");
    c.add_struct(1, 2);
    c.mark_struct_boxable(&"app".to_string(), 2);
    c.mark_struct_boxable(&"app".to_string(), 2);
    let r = record(&c, "app", 2).unwrap();
    assert!(r.needs_box);
    assert_eq!(c.struct_records.get(&"app".to_string()).unwrap().len(), 1);
}

#[test]
fn mark_boxable_of_unknown_struct_changes_nothing() {
    let mut c = ctx("app");
    c.mark_struct_boxable(&"other".to_string(), 1);
    assert_eq!(c.struct_records.len(), 0);
    c.add_struct(1, 2);
    c.mark_struct_boxable(&"app".to_string(), 3);
    assert!(record(&c, "app", 3).is_none());
    assert!(!record(&c, "app", 2).unwrap().needs_box);
}

#[test]
fn add_struct_def_only_for_recorded_structs() {
    let mut c = ctx("app");
    c.add_struct_def(&"app".to_string(), 4, 100);
    assert!(record(&c, "app", 4).is_none());
    c.add_struct(9, 4);
    c.add_struct_def(&"app".to_string(), 4, 100);
    c.add_struct_def(&"app".to_string(), 4, 101);
    let r = record(&c, "app", 4).unwrap();
    assert_eq!(ids(r.struct_defs.get(&"app".to_string())), vec![100, 101]);
}

#[test]
fn exception_creates_record_that_needs_box() {
    let mut c = ctx("app");
    c.set_struct_def_exception(&"lib".to_string(), 8, 55);
    let r = record(&c, "lib", 8).unwrap();
    assert!(r.needs_box);
    assert_eq!(ids(r.except_defs.get(&"app".to_string())), vec![55]);
    assert_eq!((r.def_index, r.node_id), (0, 0));
}

#[test]
fn extern_calls_are_collected_per_crate() {
    let mut c = ctx("app");
    c.add_extern_call(3);
    c.add_extern_call(3);
    c.add_extern_call(4);
    assert_eq!(ids(c.extern_calls.get(&"app".to_string())), vec![3, 4]);
}

#[test]
fn visit_expr_struct_literal_with_smart_pointer() {
    let mut c = ctx("app");
    c.visit_item(&ItemFact::Struct { node_id: 12, def_index: 1 });
    c.visit_item(&ItemFact::Other);
    let adt = AdtRef { krate: "app".to_string(), index: 1 };
    c.visit_expr(&ExprFact::StructLiteral { adt: Some(adt), contains_smart_pointer: true, node_id: 40 });
    let r = record(&c, "app", 1).unwrap();
    assert!(r.needs_box);
    assert_eq!(r.node_id, 12);
    assert_eq!(ids(r.struct_defs.get(&"app".to_string())), vec![40]);
}

#[test]
fn visit_expr_struct_literal_without_smart_pointer() {
    let mut c = ctx("app");
    c.visit_item(&ItemFact::Struct { node_id: 12, def_index: 1 });
    let adt = AdtRef { krate: "app".to_string(), index: 1 };
    c.visit_expr(&ExprFact::StructLiteral { adt: Some(adt), contains_smart_pointer: false, node_id: 41 });
    let r = record(&c, "app", 1).unwrap();
    assert!(!r.needs_box);
    assert_eq!(ids(r.struct_defs.get(&"app".to_string())), vec![41]);
}

#[test]
fn visit_expr_assign_field_and_call() {
    let mut c = ctx("app");
    let adt = AdtRef { krate: "dep".to_string(), index: 6 };
    c.visit_expr(&ExprFact::AssignToStructLiteral { lhs_adt: Some(adt), contains_smart_pointer: true, lhs_node_id: 70 });
    assert!(record(&c, "dep", 6).unwrap().needs_box);
    let adt2 = AdtRef { krate: "dep".to_string(), index: 6 };
    c.visit_expr(&ExprFact::FieldAccess { parent_adt: Some(adt2), contains_smart_pointer: true });
    c.visit_expr(&ExprFact::Call { c_abi: false, node_id: 80 });
    assert!(c.extern_calls.get(&"app".to_string()).is_none());
    c.visit_expr(&ExprFact::Call { c_abi: true, node_id: 81 });
    assert_eq!(ids(c.extern_calls.get(&"app".to_string())), vec![81]);
    c.visit_expr(&ExprFact::Other);
    let adt3 = AdtRef { krate: "dep".to_string(), index: 7 };
    c.visit_expr(&ExprFact::AssignToStructLiteral { lhs_adt: Some(adt3), contains_smart_pointer: false, lhs_node_id: 71 });
    assert!(record(&c, "dep", 7).is_none());
}

#[test]
fn load_analysis_collects_across_crates() {
    // crate "lib" defines struct 1 (boxed) and struct 2 (not boxed);
    // crate "app" defines struct 3 (boxed).
    let mut a = ctx("app");
    a.add_struct(30, 3);
    a.mark_struct_boxable(&"app".to_string(), 3);
    a.add_struct_def(&"app".to_string(), 3, 300);
    let mut l = HirAnalysisCtxt::new("lib".to_string(), a.struct_records, AssocMap::new(), &vec![]);
    l.add_struct(10, 1);
    l.add_struct(20, 2);
    l.mark_struct_boxable(&"lib".to_string(), 1);
    let mut b = HirAnalysisCtxt::new("app".to_string(), l.struct_records, AssocMap::new(), &vec![]);
    b.add_struct_def(&"lib".to_string(), 1, 101);
    b.add_struct_def(&"lib".to_string(), 2, 102);
    b.set_struct_def_exception(&"lib".to_string(), 1, 111);
    let table = b.struct_records;

    let app = load_analysis(&table, &"app".to_string());
    assert_eq!(ids(Some(&app.structs)), vec![30]);
    assert_eq!(ids(Some(&app.struct_defs)), vec![101, 300]);
    assert_eq!(ids(Some(&app.except_defs)), vec![111]);

    let lib = load_analysis(&table, &"lib".to_string());
    assert_eq!(ids(Some(&lib.structs)), vec![10]);
    assert_eq!(ids(Some(&lib.struct_defs)), Vec::<u32>::new());

    let none = load_analysis(&table, &"absent".to_string());
    assert_eq!(none.structs.len(), 0);
}

#[test]
fn load_analysis_of_no_records_is_empty() {
    let table: RecordTable = AssocMap::new();
    let r = load_analysis(&table, &"app".to_string());
    assert_eq!((r.structs.len(), r.struct_defs.len(), r.except_defs.len()), (0, 0, 0));
}

#[test]
fn analysis_stage_walks_items_and_expressions_in_order() {
    let mut c = ctx("app");
    let adt = || AdtRef { krate: "app".to_string(), index: 2 };
    let events = vec![
        // a literal seen before its struct is recorded is not kept
        AnalysisEvent::Expr(ExprFact::StructLiteral { adt: Some(adt()), contains_smart_pointer: true, node_id: 90 }),
        AnalysisEvent::Item(ItemFact::Struct { node_id: 20, def_index: 2 }),
        AnalysisEvent::Expr(ExprFact::StructLiteral { adt: Some(adt()), contains_smart_pointer: true, node_id: 91 }),
        AnalysisEvent::Expr(ExprFact::Call { c_abi: true, node_id: 92 }),
    ];
    run_metasafe_analysis_stage(&mut c, &events);
    let r = record(&c, "app", 2).unwrap();
    assert!(r.needs_box);
    assert_eq!(ids(r.struct_defs.get(&"app".to_string())), vec![91]);
    assert_eq!(ids(c.extern_calls.get(&"app".to_string())), vec![92]);
}

#[test]
fn marked_struct_is_boxed_in_its_crate() {
    let mut c = ctx("app");
    c.add_struct(77, 7);
    c.mark_struct_boxable(&"app".to_string(), 7);
    let r = load_analysis(&c.struct_records, &"app".to_string());
    assert!(r.structs.contains(&77));
}

#[test]
fn exception_is_kept_whatever_was_recorded() {
    let mut c = ctx("app");
    c.add_struct(5, 5);
    c.set_struct_def_exception(&"app".to_string(), 5, 500);
    let r = load_analysis(&c.struct_records, &"app".to_string());
    assert!(r.except_defs.contains(&500));
    assert!(r.structs.contains(&5));
}

#[test]
fn recording_keeps_earlier_records() {
    let mut c = ctx("app");
    c.add_struct(1, 1);
    c.mark_struct_boxable(&"app".to_string(), 1);
    c.add_struct_def(&"app".to_string(), 1, 10);
    c.set_struct_def_exception(&"app".to_string(), 1, 11);
    // recording the definition again keeps the mark and the literals
    c.add_struct(2, 1);
    let r = record(&c, "app", 1).unwrap();
    assert!(r.needs_box);
    assert_eq!(r.node_id, 2);
    assert_eq!(ids(r.struct_defs.get(&"app".to_string())), vec![10]);
    assert_eq!(ids(r.except_defs.get(&"app".to_string())), vec![11]);
}
