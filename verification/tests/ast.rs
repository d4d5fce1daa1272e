use metasafe::ast_rewrite::{
    wrap_extern_calls, AstMutVisitor, Expr, ExprField, ExprKind, FieldDef, FieldType, FieldValue, Item, ItemKind,
    VariantData, DUMMY_NODE_ID, SHADOW_BOX_BYTES,
};
use metasafe::collections::{AssocMap, KeySet};
use metasafe::hir_analysis::{HirAnalysisCtxt, RecordTable};

fn records() -> RecordTable {
    // crate "app": struct 1 (node 10) needs a box, with literals 100 (in app) and 200 (in lib);
    // struct 2 (node 20) does not, with literal 300.
    let mut c = HirAnalysisCtxt::new("app".to_string(), AssocMap::new(), AssocMap::new(), &vec![]);
    c.add_struct(10, 1);
    c.add_struct(20, 2);
    c.mark_struct_boxable(&"app".to_string(), 1);
    c.add_struct_def(&"app".to_string(), 1, 100);
    c.add_struct_def(&"app".to_string(), 2, 300);
    let mut l = HirAnalysisCtxt::new("lib".to_string(), c.struct_records, AssocMap::new(), &vec![]);
    l.add_struct_def(&"app".to_string(), 1, 200);
    l.struct_records
}

fn named_struct(id: u32) -> Item {
    Item {
        id,
        kind: ItemKind::Struct(VariantData::Struct(vec![FieldDef { name: Some("data".to_string()), is_pub: false, ty: FieldType::Source(1) }])),
    }
}

fn literal(id: u32) -> Expr {
    Expr { id, kind: ExprKind::Struct(vec![ExprField { name: "data".to_string(), value: FieldValue::Source(5) }]) }
}

#[test]
fn boxable_struct_gets_shadow_field() {
    let t = records();
    let v = AstMutVisitor::new(Some(&t), &"app".to_string());
    let mut item = named_struct(10);
    v.flat_map_item(&mut item);
    match &item.kind {
        ItemKind::Struct(VariantData::Struct(fields)) => {
            assert_eq!(fields.len(), 2);
            assert_eq!(fields[0].name.as_deref(), Some("data"));
            assert_eq!(fields[1].name.as_deref(), Some("metasafe_box"));
            assert!(fields[1].is_pub);
            assert!(matches!(fields[1].ty, FieldType::ShadowBox { bytes } if bytes == SHADOW_BOX_BYTES));
        },
        _ => panic!("not a struct"),
    }
}

#[test]
fn other_structs_keep_their_layout() {
    let t = records();
    let v = AstMutVisitor::new(Some(&t), &"app".to_string());
    let mut plain = named_struct(20);
    v.flat_map_item(&mut plain);
    assert!(matches!(&plain.kind, ItemKind::Struct(VariantData::Struct(f)) if f.len() == 1));
    let mut tuple = Item { id: 10, kind: ItemKind::Struct(VariantData::Tuple(vec![])) };
    v.flat_map_item(&mut tuple);
    assert!(matches!(&tuple.kind, ItemKind::Struct(VariantData::Tuple(f)) if f.is_empty()));
    let mut other = Item { id: 10, kind: ItemKind::Other(3) };
    v.flat_map_item(&mut other);
    assert!(matches!(other.kind, ItemKind::Other(3)));
}

#[test]
fn literals_of_boxed_structs_get_initializer() {
    let t = records();
    let v = AstMutVisitor::new(Some(&t), &"app".to_string());
    for id in [100u32, 200] {
        let mut e = literal(id);
        v.visit_expr(&mut e);
        match &e.kind {
            ExprKind::Struct(fields) => {
                assert_eq!(fields.len(), 2);
                assert_eq!(fields[1].name, "metasafe_box");
                assert!(matches!(fields[1].value, FieldValue::BoxedZeros { len: 0 }));
            },
            _ => panic!("not a literal"),
        }
    }
    let mut e = literal(300);
    v.visit_expr(&mut e);
    assert!(matches!(&e.kind, ExprKind::Struct(f) if f.len() == 1));
}

#[test]
fn visitor_without_records_changes_nothing() {
    let v = AstMutVisitor::new(None, &"app".to_string());
    let mut item = named_struct(10);
    v.flat_map_item(&mut item);
    assert!(matches!(&item.kind, ItemKind::Struct(VariantData::Struct(f)) if f.len() == 1));
    let mut e = literal(100);
    v.visit_expr(&mut e);
    assert!(matches!(&e.kind, ExprKind::Struct(f) if f.len() == 1));
}

#[test]
fn recorded_extern_calls_are_wrapped() {
    let mut calls: KeySet<u32> = KeySet::new();
    calls.insert(2);
    let mut exprs = vec![
        Expr { id: 1, kind: ExprKind::Other(10) },
        Expr { id: 2, kind: ExprKind::Other(20) },
    ];
    wrap_extern_calls(&mut exprs, &calls);
    assert!(matches!(exprs[0].kind, ExprKind::Other(10)));
    assert_eq!(exprs[0].id, 1);
    assert_eq!(exprs[1].id, DUMMY_NODE_ID);
    match &exprs[1].kind {
        ExprKind::ExternStackRun(inner) => {
            assert_eq!(inner.id, 2);
            assert!(matches!(inner.kind, ExprKind::Other(20)));
        },
        _ => panic!("not wrapped"),
    }
}

#[test]
fn no_recorded_calls_no_wrapping() {
    let calls: KeySet<u32> = KeySet::new();
    let mut exprs = vec![Expr { id: 2, kind: ExprKind::Other(20) }];
    wrap_extern_calls(&mut exprs, &calls);
    assert_eq!(exprs[0].id, 2);
}
