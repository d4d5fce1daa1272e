use metasafe::field_records::{run_metasafe_analysis_stage, FieldEvent};
use metasafe::collections::AssocMap;
use metasafe::field_records::{ExprFact, FieldRecord, HirAnalysisCtxt, LiteralField, StructField};
use metasafe::hir_analysis::AdtRef;

fn ctx() -> HirAnalysisCtxt {
    HirAnalysisCtxt::new(AssocMap::new(), &vec!["app".to_string(), "lib".to_string()])
}

fn field<'a>(c: &'a HirAnalysisCtxt, krate: &str, s: usize, f: usize) -> Option<&'a FieldRecord> {
    c.crate_records.get(&krate.to_string()).and_then(|k| k.structs.get(&s)).and_then(|r| r.fields.get(&f))
}

fn adt(index: usize) -> AdtRef {
    AdtRef { krate: "lib".to_string(), index }
}

#[test]
fn new_records_every_crate() {
    let c = ctx();
    assert_eq!(c.crate_records.len(), 2);
    let lib = c.crate_records.get(&"lib".to_string()).unwrap();
    assert_eq!(lib.crate_name, "lib");
    assert_eq!(lib.structs.len(), 0);
    assert_eq!(c.field_def_records.len(), 0);
}

#[test]
fn field_uses_create_and_extend_records() {
    let mut c = ctx();
    c.add_special_field_expr_use(&adt(4), 40, &"len".to_string(), 1, 500);
    c.add_special_field_expr_use(&adt(4), 40, &"len".to_string(), 1, 501);
    let f = field(&c, "lib", 4, 1).unwrap();
    assert_eq!((f.struct_index, f.def_index, f.ident.as_str()), (1, 40, "len"));
    assert_eq!(f.field_expr_uses.len(), 2);
    assert!(f.field_expr_uses.contains(&500) && f.field_expr_uses.contains(&501));
    assert_eq!(f.struct_field_defs.len(), 0);
    assert_eq!(c.crate_records.get(&"lib".to_string()).unwrap().structs.get(&4).unwrap().index, 4);
}

#[test]
fn field_initializers_of_new_and_known_fields() {
    let mut c = ctx();
    c.add_struct_field_defs(&adt(4), 40, &"len".to_string(), 0, 600);
    let f = field(&c, "lib", 4, 0).unwrap();
    assert!(f.struct_field_defs.contains(&600));
    assert_eq!(f.field_expr_uses.len(), 0);
    // a field that is already recorded gets the initializer among its initializers
    c.add_special_field_expr_use(&adt(4), 40, &"len".to_string(), 0, 650);
    c.add_struct_field_defs(&adt(4), 40, &"len".to_string(), 0, 601);
    let f = field(&c, "lib", 4, 0).unwrap();
    assert_eq!(f.struct_field_defs.len(), 2);
    assert!(f.struct_field_defs.contains(&600) && f.struct_field_defs.contains(&601));
    assert_eq!(f.field_expr_uses.len(), 1);
    assert!(f.field_expr_uses.contains(&650));
}

#[test]
fn field_definitions_are_listed_per_crate() {
    let mut c = ctx();
    c.visit_field_def("lib".to_string(), "len".to_string(), 7, 70);
    c.add_field_record("lib".to_string(), "cap".to_string(), 8, 80);
    let defs = c.field_def_records.get(&"lib".to_string()).unwrap();
    assert_eq!(defs.len(), 2);
    assert_eq!((defs[0].def_index, defs[0].node_id, defs[0].ident.as_str()), (7, 70, "len"));
    assert_eq!((defs[1].def_index, defs[1].node_id, defs[1].ident.as_str()), (8, 80, "cap"));
}

#[test]
fn literal_records_plain_fields_only() {
    let mut c = ctx();
    let fields = vec![
        LiteralField { def_index: 40, ident: "ptr".to_string(), is_smart_pointer: true, expr_node_id: 700 },
        LiteralField { def_index: 41, ident: "len".to_string(), is_smart_pointer: false, expr_node_id: 701 },
    ];
    c.visit_expr(&ExprFact::StructLiteral { adt: Some(adt(4)), contains_smart_pointer: true, fields });
    assert!(field(&c, "lib", 4, 0).is_none());
    assert!(field(&c, "lib", 4, 1).unwrap().struct_field_defs.contains(&701));
}

#[test]
fn literal_without_smart_pointer_is_ignored() {
    let mut c = ctx();
    let fields = vec![LiteralField { def_index: 41, ident: "len".to_string(), is_smart_pointer: false, expr_node_id: 701 }];
    c.visit_expr(&ExprFact::StructLiteral { adt: Some(adt(4)), contains_smart_pointer: false, fields });
    assert_eq!(c.crate_records.get(&"lib".to_string()).unwrap().structs.len(), 0);
}

#[test]
fn field_access_records_the_named_field() {
    let mut c = ctx();
    let all_fields = vec![
        StructField { def_index: 40, ident: "ptr".to_string() },
        StructField { def_index: 41, ident: "len".to_string() },
    ];
    c.visit_expr(&ExprFact::FieldAccess {
        parent_adt: Some(adt(4)),
        parent_contains_smart_pointer: true,
        field_is_smart_pointer: false,
        all_fields,
        ident: "len".to_string(),
        node_id: 900,
    });
    let f = field(&c, "lib", 4, 1).unwrap();
    assert_eq!(f.def_index, 41);
    assert!(f.field_expr_uses.contains(&900));
    assert!(field(&c, "lib", 4, 0).is_none());
    c.visit_expr(&ExprFact::Other);
}

#[test]
fn field_stage_records_definitions_and_uses() {
    let mut c = ctx();
    let events = vec![
        FieldEvent::FieldDef { crate_name: "lib".to_string(), ident: "len".to_string(), field_index: 41, node_id: 4100 },
        FieldEvent::Expr(ExprFact::FieldAccess {
            parent_adt: Some(adt(4)),
            parent_contains_smart_pointer: true,
            field_is_smart_pointer: false,
            all_fields: vec![StructField { def_index: 41, ident: "len".to_string() }],
            ident: "len".to_string(),
            node_id: 901,
        }),
        FieldEvent::Expr(ExprFact::Other),
    ];
    run_metasafe_analysis_stage(&mut c, &events);
    assert_eq!(c.field_def_records.get(&"lib".to_string()).unwrap().len(), 1);
    assert!(field(&c, "lib", 4, 0).unwrap().field_expr_uses.contains(&901));
}
