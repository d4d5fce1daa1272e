//! Rewriting of the syntax tree: structs that hold smart pointers get a
//! shadow box field, their literals get its initializer, and calls into
//! foreign code are made to run on a separate stack.
use vstd::prelude::*;

use crate::analysis_records::{at_positions, boxed_node_ids, collect_boxed, lemma_union_over_positions, union_over};
use crate::collections::{lemma_prefix_union_all, lemma_prefix_union_step, prefix_union, AssocMap, KeySet};
use crate::hir_analysis::{crate_view, sets_view, table_view, CrateRecords, RecordTable, StructRecordView};

verus! {

/// The node id of syntax built by the rewriter itself.
pub const DUMMY_NODE_ID: u32 = 0xFFFF_FF00u32;

/// The size in bytes of the shadow box that a struct gets.
pub const SHADOW_BOX_BYTES: u64 = 32u64;

/// The name of the field that holds the shadow box.
pub open spec fn shadow_field_name() -> Seq<char> {
    "metasafe_box"@
}

/// The type of a struct field.
pub enum FieldType {
    /// `Box<[u8; bytes]>`.
    ShadowBox { bytes: u64 },
    /// A type written in the source, by an id of the driver's choosing.
    Source(u64),
}

pub struct FieldDef {
    pub name: Option<String>,
    pub is_pub: bool,
    pub ty: FieldType,
}

/// The fields of a struct definition.
pub enum VariantData {
    Struct(Vec<FieldDef>),
    Tuple(Vec<FieldDef>),
    Unit,
}

pub enum ItemKind {
    Struct(VariantData),
    Other(u64),
}

pub struct Item {
    pub id: u32,
    pub kind: ItemKind,
}

/// The value that a field of a struct literal is given.
pub enum FieldValue {
    /// `Box::new([0; len])`.
    BoxedZeros { len: u64 },
    /// An expression written in the source, by an id of the driver's choosing.
    Source(u64),
}

pub struct ExprField {
    pub name: String,
    pub value: FieldValue,
}

pub enum ExprKind {
    /// A struct literal.
    Struct(Vec<ExprField>),
    /// `std::metasafe::metasafe_extern_stack_run(|| body)`.
    ExternStackRun(Box<Expr>),
    /// Any other expression, by an id of the driver's choosing.
    Other(u64),
}

pub struct Expr {
    pub id: u32,
    pub kind: ExprKind,
}

/// The field definition that a boxed struct gets.
pub open spec fn is_shadow_field(f: FieldDef) -> bool {
    &&& f.name matches Some(n) && n@ == shadow_field_name()
    &&& f.is_pub
    &&& f.ty == FieldType::ShadowBox { bytes: SHADOW_BOX_BYTES }
}

/// The field that a rewritten struct literal gets.
pub open spec fn is_shadow_init(f: ExprField) -> bool {
    &&& f.name@ == shadow_field_name()
    &&& f.value == FieldValue::BoxedZeros { len: 0 }
}

/// Whether `k` is a struct with named fields.
pub open spec fn has_named_fields(k: ItemKind) -> bool {
    k matches ItemKind::Struct(VariantData::Struct(_))
}

/// The named fields of `k`, if it is a struct with named fields.
pub open spec fn named_fields(k: ItemKind) -> Seq<FieldDef> {
    match k {
        ItemKind::Struct(VariantData::Struct(fs)) => fs@,
        _ => Seq::empty(),
    }
}

/// Whether `k` is a struct literal.
pub open spec fn is_struct_literal(k: ExprKind) -> bool {
    k matches ExprKind::Struct(_)
}

/// The fields of `k`, if it is a struct literal.
pub open spec fn literal_fields(k: ExprKind) -> Seq<ExprField> {
    match k {
        ExprKind::Struct(fs) => fs@,
        _ => Seq::empty(),
    }
}

/// `x` is a literal, written in any crate, of `r`, which needs a box.
pub open spec fn literal_anywhere() -> spec_fn(StructRecordView, u32) -> bool {
    |r: StructRecordView, x: u32| r.needs_box && exists|c: Seq<char>|
        #[trigger] r.struct_defs.contains_key(c) && r.struct_defs[c].contains(x)
}

/// Literals, written in any crate, of the structs in `m` that need a box.
pub open spec fn any_crate_literals(m: Map<usize, StructRecordView>) -> Set<u32> {
    union_over(m, literal_anywhere())
}

/// Rewrites struct definitions and struct literals of one crate.
pub struct AstMutVisitor {
    boxable_structs: KeySet<u32>,
    special_struct_defs: KeySet<u32>,
}

impl AstMutVisitor {
    pub closed spec fn boxable(&self) -> Set<u32> {
        self.boxable_structs@
    }

    pub closed spec fn special_defs(&self) -> Set<u32> {
        self.special_struct_defs@
    }

    /// Reads the records of crate `crate_name`, when there are saved records.
    pub fn new(records: Option<&RecordTable>, crate_name: &String) -> (r: AstMutVisitor)
        requires
            records matches Some(t) ==> t@.contains_key(crate_name@),
        ensures
            records is None ==> r.boxable() == Set::<u32>::empty() && r.special_defs() == Set::<u32>::empty(),
            records matches Some(t) ==> {
                &&& r.boxable() == boxed_node_ids(table_view(*t)[crate_name@])
                &&& r.special_defs() == any_crate_literals(table_view(*t)[crate_name@])
            },
    {
        let mut boxable: KeySet<u32> = KeySet::new();
        let mut special: KeySet<u32> = KeySet::new();
        match records {
            None => {},
            Some(t) => {
                match t.get(crate_name) {
                    Some(own) => {
                        collect_boxed(own, &mut boxable);
                        collect_boxed_literals(own, &mut special);
                        proof {
                            assert(crate_view(*own) == table_view(*t)[crate_name@]);
                            assert(boxable@ =~= boxed_node_ids(crate_view(*own)));
                            assert(special@ =~= any_crate_literals(crate_view(*own)));
                        }
                    },
                    None => {
                        proof {
                            assert(false);
                        }
                    },
                }
            },
        }
        AstMutVisitor { boxable_structs: boxable, special_struct_defs: special }
    }

    /// Gives a struct that needs a box its shadow box field.
    pub fn flat_map_item(&self, item: &mut Item)
        ensures
            final(item).id == old(item).id,
            has_named_fields(final(item).kind) == has_named_fields(old(item).kind),
            (self.boxable().contains(old(item).id) && has_named_fields(old(item).kind)) ==> {
                let fs = named_fields(final(item).kind);
                &&& fs.len() == named_fields(old(item).kind).len() + 1
                &&& fs.drop_last() == named_fields(old(item).kind)
                &&& is_shadow_field(fs.last())
            },
            !(self.boxable().contains(old(item).id) && has_named_fields(old(item).kind)) ==> *final(item) == *old(item),
    {
        if self.boxable_structs.contains(&item.id) {
            match &mut item.kind {
                ItemKind::Struct(VariantData::Struct(fields)) => {
                    let f = FieldDef { name: Some("metasafe_box".to_owned()), is_pub: true, ty: FieldType::ShadowBox { bytes: SHADOW_BOX_BYTES } };
                    fields.push(f);
                },
                _ => {},
            }
        }
    }

    /// Gives a literal of a struct that needs a box the box's initializer.
    pub fn visit_expr(&self, expr: &mut Expr)
        ensures
            final(expr).id == old(expr).id,
            is_struct_literal(final(expr).kind) == is_struct_literal(old(expr).kind),
            (self.special_defs().contains(old(expr).id) && is_struct_literal(old(expr).kind)) ==> {
                let fs = literal_fields(final(expr).kind);
                &&& fs.len() == literal_fields(old(expr).kind).len() + 1
                &&& fs.drop_last() == literal_fields(old(expr).kind)
                &&& is_shadow_init(fs.last())
            },
            !(self.special_defs().contains(old(expr).id) && is_struct_literal(old(expr).kind)) ==> *final(expr) == *old(expr),
    {
        if self.special_struct_defs.contains(&expr.id) {
            match &mut expr.kind {
                ExprKind::Struct(fields) => {
                    let f = ExprField { name: "metasafe_box".to_owned(), value: FieldValue::BoxedZeros { len: 0 } };
                    fields.push(f);
                },
                _ => {},
            }
        }
    }
}

/// Adds the literals, written in any crate, of the structs of `m` that need a box.
fn collect_boxed_literals(m: &CrateRecords, special: &mut KeySet<u32>)
    ensures
        final(special)@ == old(special)@.union(any_crate_literals(crate_view(*m))),
{
    let n = m.len();
    proof {
        assert(old(special)@.union(prefix_union(at_positions(*m, literal_anywhere()), 0)) =~= old(special)@);
    }
    let mut j: usize = 0;
    while j < n
        invariant
            n == m.spec_len(),
            j <= n,
            forall|i: int| 0 <= i < n ==> m@.contains_key(#[trigger] m.spec_key(i)),
            forall|i: int| 0 <= i < n ==> m@[#[trigger] m.spec_key(i)] == m.spec_value(i),
            forall|k: usize| #[trigger] m@.contains_key(k) ==> exists|i: int| 0 <= i < n && m.spec_key(i) == k,
            special@ == old(special)@.union(prefix_union(at_positions(*m, literal_anywhere()), j as int)),
        decreases n - j,
    {
        let r = m.value_at(j);
        let ghost s0 = special@;
        let ghost all_sets = Set::new(|x: u32| exists|c: Seq<char>|
            #[trigger] r@.struct_defs.contains_key(c) && r@.struct_defs[c].contains(x));
        if r.needs_box {
            collect_all_sets(&r.struct_defs, special);
        }
        proof {
            assert(crate_view(*m)[m.spec_key(j as int)] == r@);
            let added = if r.needs_box { all_sets } else { Set::<u32>::empty() };
            assert(special@ =~= s0.union(added));
            lemma_prefix_union_step(old(special)@, at_positions(*m, literal_anywhere()), j as int, added);
        }
        j = j + 1;
    }
    proof {
        lemma_union_over_positions(*m, literal_anywhere());
    }
}

/// Adds every id of every set of `sets`.
fn collect_all_sets(sets: &AssocMap<String, KeySet<u32>>, into: &mut KeySet<u32>)
    ensures
        final(into)@ == old(into)@.union(Set::new(|x: u32| exists|c: Seq<char>|
            #[trigger] sets_view(*sets).contains_key(c) && sets_view(*sets)[c].contains(x))),
{
    let n = sets.len();
    let ghost holds = |s: KeySet<u32>, x: u32| s@.contains(x);
    let ghost at = |i: int, x: u32| holds(sets@[sets.spec_key(i)], x);
    proof {
        assert(old(into)@.union(prefix_union(at, 0)) =~= old(into)@);
    }
    let mut j: usize = 0;
    while j < n
        invariant
            n == sets.spec_len(),
            j <= n,
            at == (|i: int, x: u32| holds(sets@[sets.spec_key(i)], x)),
            holds == (|s: KeySet<u32>, x: u32| s@.contains(x)),
            forall|i: int| 0 <= i < n ==> sets@.contains_key(#[trigger] sets.spec_key(i)),
            forall|i: int| 0 <= i < n ==> sets@[#[trigger] sets.spec_key(i)] == sets.spec_value(i),
            forall|k: Seq<char>| #[trigger] sets@.contains_key(k) ==> exists|i: int| 0 <= i < n && sets.spec_key(i) == k,
            into@ == old(into)@.union(prefix_union(at, j as int)),
        decreases n - j,
    {
        let s = sets.value_at(j);
        into.extend_from(s);
        proof {
            assert(sets@[sets.spec_key(j as int)] == *s);
            lemma_prefix_union_step(old(into)@, at, j as int, s@);
        }
        j = j + 1;
    }
    proof {
        lemma_prefix_union_all(*sets, holds);
        let sv = sets_view(*sets);
        assert forall|c: Seq<char>| #[trigger] sv.contains_key(c) == sets@.contains_key(c)
            && (sets@.contains_key(c) ==> sv[c] == sets@[c]@) by {}
        let lhs = Set::new(|x: u32| exists|k: Seq<char>| #[trigger] sets@.contains_key(k) && holds(sets@[k], x));
        let rhs = Set::new(|x: u32| exists|c: Seq<char>| #[trigger] sv.contains_key(c) && sv[c].contains(x));
        assert forall|x: u32| #[trigger] lhs.contains(x) == rhs.contains(x) by {
            if lhs.contains(x) {
                let k = choose|k: Seq<char>| #[trigger] sets@.contains_key(k) && holds(sets@[k], x);
                assert(sv.contains_key(k) && sv[k].contains(x));
            }
            if rhs.contains(x) {
                let c = choose|c: Seq<char>| #[trigger] sv.contains_key(c) && sv[c].contains(x);
                assert(sets@.contains_key(c) && holds(sets@[c], x));
            }
        }
        assert(lhs =~= rhs);
    }
}


/// `e` wrapped so that it runs on the separate stack.
pub open spec fn wrapped(e: Expr) -> Expr {
    Expr { id: DUMMY_NODE_ID, kind: ExprKind::ExternStackRun(Box::new(e)) }
}

/// Makes every expression of `exprs` whose node id is a recorded call into
/// foreign code run on the separate stack; the rewrite does not look inside
/// expressions.
pub fn wrap_extern_calls(exprs: &mut Vec<Expr>, extern_calls: &KeySet<u32>)
    ensures
        final(exprs)@.len() == old(exprs)@.len(),
        forall|i: int| 0 <= i < old(exprs)@.len() ==> #[trigger] final(exprs)@[i] == if extern_calls@.contains(
            old(exprs)@[i].id,
        ) {
            wrapped(old(exprs)@[i])
        } else {
            old(exprs)@[i]
        },
{
    if extern_calls.is_empty() {
        return;
    }
    let n = exprs.len();
    let mut i: usize = 0;
    while i < n
        invariant
            n == old(exprs)@.len(),
            exprs@.len() == n,
            i <= n,
            forall|j: int| 0 <= j < i ==> #[trigger] exprs@[j] == if extern_calls@.contains(old(exprs)@[j].id) {
                wrapped(old(exprs)@[j])
            } else {
                old(exprs)@[j]
            },
            forall|j: int| i <= j < n ==> #[trigger] exprs@[j] == old(exprs)@[j],
        decreases n - i,
    {
        let mut e = Expr { id: 0, kind: ExprKind::Other(0) };
        exprs.set_and_swap(i, &mut e);
        let mut out = if extern_calls.contains(&e.id) {
            Expr { id: DUMMY_NODE_ID, kind: ExprKind::ExternStackRun(Box::new(e)) }
        } else {
            e
        };
        exprs.set_and_swap(i, &mut out);
        i = i + 1;
    }
}

} // verus!
