//! Field-level records: for each struct that holds smart pointers, which of
//! its other fields are read, and where they are initialized.
use vstd::prelude::*;

use crate::collections::{lemma_map_values_insert, AssocMap, KeySet};
use crate::hir_analysis::AdtRef;

verus! {

/// What is recorded of one field of a struct.
pub struct FieldRecord {
    pub struct_index: usize,
    pub def_index: usize,
    pub ident: String,
    /// Field accesses that read the field.
    pub field_expr_uses: KeySet<u32>,
    /// Struct literals' initializers of the field.
    pub struct_field_defs: KeySet<u32>,
}

pub struct FieldRecordView {
    pub struct_index: usize,
    pub def_index: usize,
    pub ident: Seq<char>,
    pub field_expr_uses: Set<u32>,
    pub struct_field_defs: Set<u32>,
}

impl View for FieldRecord {
    type V = FieldRecordView;

    open spec fn view(&self) -> FieldRecordView {
        FieldRecordView {
            struct_index: self.struct_index,
            def_index: self.def_index,
            ident: self.ident@,
            field_expr_uses: self.field_expr_uses@,
            struct_field_defs: self.struct_field_defs@,
        }
    }
}

/// The recorded fields of one struct, by their position in the struct.
pub struct StructRecord {
    pub index: usize,
    pub fields: AssocMap<usize, FieldRecord>,
}

pub struct StructRecordView {
    pub index: usize,
    pub fields: Map<usize, FieldRecordView>,
}

pub open spec fn fields_view(m: AssocMap<usize, FieldRecord>) -> Map<usize, FieldRecordView> {
    m@.map_values(|f: FieldRecord| f@)
}

impl View for StructRecord {
    type V = StructRecordView;

    open spec fn view(&self) -> StructRecordView {
        StructRecordView { index: self.index, fields: fields_view(self.fields) }
    }
}

/// The recorded structs of one crate, by definition index.
pub struct CrateRecord {
    pub crate_name: String,
    pub structs: AssocMap<usize, StructRecord>,
}

pub struct CrateRecordView {
    pub crate_name: Seq<char>,
    pub structs: Map<usize, StructRecordView>,
}

pub open spec fn structs_view(m: AssocMap<usize, StructRecord>) -> Map<usize, StructRecordView> {
    m@.map_values(|s: StructRecord| s@)
}

impl View for CrateRecord {
    type V = CrateRecordView;

    open spec fn view(&self) -> CrateRecordView {
        CrateRecordView { crate_name: self.crate_name@, structs: structs_view(self.structs) }
    }
}

/// A field definition: its definition index, node id and name.
pub struct FieldDefRecord {
    pub def_index: usize,
    pub node_id: u32,
    pub ident: String,
}

pub struct FieldDefView {
    pub def_index: usize,
    pub node_id: u32,
    pub ident: Seq<char>,
}

impl View for FieldDefRecord {
    type V = FieldDefView;

    open spec fn view(&self) -> FieldDefView {
        FieldDefView { def_index: self.def_index, node_id: self.node_id, ident: self.ident@ }
    }
}

pub open spec fn defs_view(v: Vec<FieldDefRecord>) -> Seq<FieldDefView> {
    v@.map_values(|r: FieldDefRecord| r@)
}

/// The new field record that a first use or initializer creates.
pub open spec fn fresh_field(struct_index: usize, def_index: usize, ident: Seq<char>) -> FieldRecordView {
    FieldRecordView {
        struct_index,
        def_index,
        ident,
        field_expr_uses: Set::empty(),
        struct_field_defs: Set::empty(),
    }
}

/// The record of struct `a` in `c`, or a new empty one.
pub open spec fn struct_or_new(c: Map<usize, StructRecordView>, a: usize) -> StructRecordView {
    if c.contains_key(a) {
        c[a]
    } else {
        StructRecordView { index: a, fields: Map::empty() }
    }
}

/// `s` after recording that field `si` is read by `id`.
pub open spec fn spec_field_use(s: StructRecordView, si: usize, def_index: usize, ident: Seq<char>, id: u32) -> StructRecordView {
    let f = if s.fields.contains_key(si) {
        s.fields[si]
    } else {
        fresh_field(si, def_index, ident)
    };
    StructRecordView { fields: s.fields.insert(si, FieldRecordView { field_expr_uses: f.field_expr_uses.insert(id), ..f }), ..s }
}

/// `s` after recording that the struct-literal initializer `id` sets field `si`.
pub open spec fn spec_field_def(s: StructRecordView, si: usize, def_index: usize, ident: Seq<char>, id: u32) -> StructRecordView {
    let f = if s.fields.contains_key(si) {
        s.fields[si]
    } else {
        fresh_field(si, def_index, ident)
    };
    StructRecordView { fields: s.fields.insert(si, FieldRecordView { struct_field_defs: f.struct_field_defs.insert(id), ..f }), ..s }
}

/// `r` where struct `a` of crate `k` is `s`.
pub open spec fn with_struct(r: Map<Seq<char>, CrateRecordView>, k: Seq<char>, a: usize, s: StructRecordView) -> Map<Seq<char>, CrateRecordView> {
    r.insert(k, CrateRecordView { structs: r[k].structs.insert(a, s), ..r[k] })
}

/// What the analysis reads of one field of a struct literal.
pub struct LiteralField {
    pub def_index: usize,
    pub ident: String,
    pub is_smart_pointer: bool,
    /// The node id of the field's initializer.
    pub expr_node_id: u32,
}

/// What the analysis reads of a field of a struct definition.
pub struct StructField {
    pub def_index: usize,
    pub ident: String,
}

/// What the analysis reads of one expression.
pub enum ExprFact {
    /// A struct literal of type `adt` (when that type is a struct); `fields`
    /// are the struct's fields in order, each with its initializer.
    StructLiteral { adt: Option<AdtRef>, contains_smart_pointer: bool, fields: Vec<LiteralField> },
    /// An access of field `ident` of a value of type `parent_adt` (when that
    /// type is a struct), whose fields are `all_fields`.
    FieldAccess {
        parent_adt: Option<AdtRef>,
        parent_contains_smart_pointer: bool,
        field_is_smart_pointer: bool,
        all_fields: Vec<StructField>,
        ident: String,
        node_id: u32,
    },
    Other,
}

/// The records after the initializers `fields[..k]` of a literal of `a` are recorded.
pub open spec fn literal_fold(r: Map<Seq<char>, CrateRecordView>, a: AdtRef, fields: Seq<LiteralField>, k: int) -> Map<Seq<char>, CrateRecordView>
    decreases k,
{
    if k <= 0 {
        r
    } else {
        let before = literal_fold(r, a, fields, k - 1);
        let f = fields[k - 1];
        if f.is_smart_pointer {
            before
        } else {
            with_struct(before, a.krate@, a.index, spec_field_def(
                struct_or_new(before[a.krate@].structs, a.index), (k - 1) as usize, f.def_index, f.ident@, f.expr_node_id))
        }
    }
}

/// The records after the accesses of field `ident` matching `fields[..k]` are recorded.
pub open spec fn access_fold(
    r: Map<Seq<char>, CrateRecordView>,
    a: AdtRef,
    fields: Seq<StructField>,
    ident: Seq<char>,
    id: u32,
    k: int,
) -> Map<Seq<char>, CrateRecordView>
    decreases k,
{
    if k <= 0 {
        r
    } else {
        let before = access_fold(r, a, fields, ident, id, k - 1);
        let f = fields[k - 1];
        if f.ident@ == ident {
            with_struct(before, a.krate@, a.index, spec_field_use(
                struct_or_new(before[a.krate@].structs, a.index), (k - 1) as usize, f.def_index, ident, id))
        } else {
            before
        }
    }
}

/// The definitions of crate `c`, or none.
pub open spec fn defs_at(m: Map<Seq<char>, Seq<FieldDefView>>, c: Seq<char>) -> Seq<FieldDefView> {
    if m.contains_key(c) {
        m[c]
    } else {
        Seq::empty()
    }
}

/// Whether some field of `fields` is not a smart pointer.
pub open spec fn has_plain_field(fields: Seq<LiteralField>) -> bool {
    exists|i: int| 0 <= i < fields.len() && !(#[trigger] fields[i]).is_smart_pointer
}

/// Whether some field of `fields` is named `ident`.
pub open spec fn has_field_named(fields: Seq<StructField>, ident: Seq<char>) -> bool {
    exists|i: int| 0 <= i < fields.len() && (#[trigger] fields[i]).ident@ == ident
}

/// Whether the crate that expression `fact` records into is known, where it records anything.
pub open spec fn expr_crate_known(r: Map<Seq<char>, CrateRecordView>, fact: ExprFact) -> bool {
    &&& fact matches ExprFact::StructLiteral { adt: Some(a), contains_smart_pointer: true, fields }
        ==> (has_plain_field(fields@) ==> r.contains_key(a.krate@))
    &&& fact matches ExprFact::FieldAccess {
        parent_adt: Some(a), parent_contains_smart_pointer: true, field_is_smart_pointer: false, all_fields, ident, ..
    } ==> (has_field_named(all_fields@, ident@) ==> r.contains_key(a.krate@))
}

/// The records after expression `fact` is seen.
pub open spec fn spec_visit_expr(r: Map<Seq<char>, CrateRecordView>, fact: ExprFact) -> Map<Seq<char>, CrateRecordView> {
    match fact {
        ExprFact::StructLiteral { adt: Some(a), contains_smart_pointer: true, fields } =>
            literal_fold(r, a, fields@, fields@.len() as int),
        ExprFact::FieldAccess {
            parent_adt: Some(a), parent_contains_smart_pointer: true, field_is_smart_pointer: false, all_fields, ident, node_id
        } => access_fold(r, a, all_fields@, ident@, node_id, all_fields@.len() as int),
        _ => r,
    }
}

/// Recording initializers keeps the set of crates.
pub proof fn lemma_literal_fold_crates(r: Map<Seq<char>, CrateRecordView>, a: AdtRef, fields: Seq<LiteralField>, k: int)
    requires
        0 <= k <= fields.len(),
        has_plain_field(fields) ==> r.contains_key(a.krate@),
    ensures
        literal_fold(r, a, fields, k).dom() == r.dom(),
    decreases k,
{
    if k > 0 {
        lemma_literal_fold_crates(r, a, fields, k - 1);
        let before = literal_fold(r, a, fields, k - 1);
        if !fields[k - 1].is_smart_pointer {
            assert(has_plain_field(fields));
            assert(literal_fold(r, a, fields, k).dom() =~= before.dom());
        }
    }
}

/// Recording field accesses keeps the set of crates.
pub proof fn lemma_access_fold_crates(
    r: Map<Seq<char>, CrateRecordView>,
    a: AdtRef,
    fields: Seq<StructField>,
    ident: Seq<char>,
    id: u32,
    k: int,
)
    requires
        0 <= k <= fields.len(),
        has_field_named(fields, ident) ==> r.contains_key(a.krate@),
    ensures
        access_fold(r, a, fields, ident, id, k).dom() == r.dom(),
    decreases k,
{
    if k > 0 {
        lemma_access_fold_crates(r, a, fields, ident, id, k - 1);
        let before = access_fold(r, a, fields, ident, id, k - 1);
        if fields[k - 1].ident@ == ident {
            assert(has_field_named(fields, ident));
            assert(access_fold(r, a, fields, ident, id, k).dom() =~= before.dom());
        }
    }
}

/// One step of the walk over a crate: an expression or a field definition.
pub enum FieldEvent {
    Expr(ExprFact),
    FieldDef { crate_name: String, ident: String, field_index: usize, node_id: u32 },
}

/// The records after `events[..k]` are seen.
pub open spec fn records_after(r: Map<Seq<char>, CrateRecordView>, events: Seq<FieldEvent>, k: int) -> Map<Seq<char>, CrateRecordView>
    decreases k,
{
    if k <= 0 {
        r
    } else {
        let before = records_after(r, events, k - 1);
        match events[k - 1] {
            FieldEvent::Expr(f) => spec_visit_expr(before, f),
            FieldEvent::FieldDef { .. } => before,
        }
    }
}

/// The field definitions after `events[..k]` are seen.
pub open spec fn defs_after(d: Map<Seq<char>, Seq<FieldDefView>>, events: Seq<FieldEvent>, k: int) -> Map<Seq<char>, Seq<FieldDefView>>
    decreases k,
{
    if k <= 0 {
        d
    } else {
        let before = defs_after(d, events, k - 1);
        match events[k - 1] {
            FieldEvent::Expr(_) => before,
            FieldEvent::FieldDef { crate_name, ident, field_index, node_id } => before.insert(crate_name@, defs_at(before, crate_name@).push(
                FieldDefView { def_index: field_index, node_id, ident: ident@ })),
        }
    }
}

/// Walks the expressions and field definitions of a crate, in the order the
/// compiler visits them, recording what they show.
pub fn run_metasafe_analysis_stage(ctx: &mut HirAnalysisCtxt, events: &Vec<FieldEvent>)
    requires
        forall|i: int| 0 <= i < events@.len() ==> (#[trigger] events@[i] matches FieldEvent::Expr(f)
            ==> expr_crate_known(old(ctx).records(), f)),
    ensures
        final(ctx).records() == records_after(old(ctx).records(), events@, events@.len() as int),
        final(ctx).field_defs() == defs_after(old(ctx).field_defs(), events@, events@.len() as int),
{
    let n = events.len();
    let mut k: usize = 0;
    while k < n
        invariant
            n == events@.len(),
            k <= n,
            forall|i: int| 0 <= i < events@.len() ==> (#[trigger] events@[i] matches FieldEvent::Expr(f)
                ==> expr_crate_known(old(ctx).records(), f)),
            ctx.records().dom() == old(ctx).records().dom(),
            ctx.records() == records_after(old(ctx).records(), events@, k as int),
            ctx.field_defs() == defs_after(old(ctx).field_defs(), events@, k as int),
        decreases n - k,
    {
        match &events[k] {
            FieldEvent::Expr(f) => {
                proof {
                    assert(events@[k as int] matches FieldEvent::Expr(g) && g == *f);
                    lemma_known_crates_stay_known(old(ctx).records(), ctx.records(), *f);
                    match f {
                        ExprFact::StructLiteral { adt: Some(a), contains_smart_pointer: true, fields } => {
                            lemma_literal_fold_crates(ctx.records(), *a, fields@, fields@.len() as int);
                        },
                        ExprFact::FieldAccess {
                            parent_adt: Some(a), parent_contains_smart_pointer: true, field_is_smart_pointer: false, all_fields, ident, node_id
                        } => {
                            lemma_access_fold_crates(ctx.records(), *a, all_fields@, ident@, *node_id, all_fields@.len() as int);
                        },
                        _ => {},
                    }
                }
                ctx.visit_expr(f);
            },
            FieldEvent::FieldDef { crate_name, ident, field_index, node_id } => {
                ctx.visit_field_def(crate_name.clone(), ident.clone(), *field_index, *node_id);
            },
        }
        k = k + 1;
    }
}

/// Whether an expression's crate is known depends only on the set of crates.
proof fn lemma_known_crates_stay_known(a: Map<Seq<char>, CrateRecordView>, b: Map<Seq<char>, CrateRecordView>, f: ExprFact)
    requires
        a.dom() == b.dom(),
        expr_crate_known(a, f),
    ensures
        expr_crate_known(b, f),
{
    assert(forall|k: Seq<char>| a.contains_key(k) == b.contains_key(k));
}

/// The field-level analysis state.
pub struct HirAnalysisCtxt {
    pub crate_records: AssocMap<String, CrateRecord>,
    pub field_def_records: AssocMap<String, Vec<FieldDefRecord>>,
}

impl HirAnalysisCtxt {
    pub open spec fn records(&self) -> Map<Seq<char>, CrateRecordView> {
        self.crate_records@.map_values(|c: CrateRecord| c@)
    }

    pub open spec fn field_defs(&self) -> Map<Seq<char>, Seq<FieldDefView>> {
        self.field_def_records@.map_values(|v: Vec<FieldDefRecord>| defs_view(v))
    }

    /// Gives crate `name` an empty record.
    pub fn add_crate(&mut self, name: String)
        ensures
            final(self).records() == old(self).records().insert(name@, CrateRecordView { crate_name: name@, structs: Map::empty() }),
            final(self).field_defs() == old(self).field_defs(),
    {
        let rec = CrateRecord { crate_name: name.clone(), structs: AssocMap::new() };
        let ghost rv = rec;
        self.crate_records.insert(name, rec);
        proof {
            lemma_map_values_insert(old(self).crate_records@, name@, rv, |c: CrateRecord| c@);
            assert(structs_view(rv.structs) =~= Map::empty());
        }
    }

    /// Starts from the records saved by earlier compilations and gives every
    /// crate in `crates` a record.
    pub fn new(crate_records: AssocMap<String, CrateRecord>, crates: &Vec<String>) -> (r: HirAnalysisCtxt)
        ensures
            r.records().dom() == crate_records@.dom().union(
                Set::new(|c: Seq<char>| exists|j: int| 0 <= j < crates@.len() && #[trigger] crates@[j]@ == c),
            ),
            forall|c: Seq<char>| #[trigger] crate_records@.contains_key(c) ==> r.records()[c] == crate_records@[c]@,
            forall|c: Seq<char>| #[trigger] r.records().contains_key(c) && !crate_records@.contains_key(c)
                ==> r.records()[c] == (CrateRecordView { crate_name: c, structs: Map::empty() }),
            r.field_defs() == Map::<Seq<char>, Seq<FieldDefView>>::empty(),
    {
        let mut this = HirAnalysisCtxt { crate_records, field_def_records: AssocMap::new() };
        proof {
            assert(this.field_defs() =~= Map::<Seq<char>, Seq<FieldDefView>>::empty());
        }
        let n = crates.len();
        let mut j: usize = 0;
        while j < n
            invariant
                n == crates@.len(),
                j <= n,
                this.field_defs() == Map::<Seq<char>, Seq<FieldDefView>>::empty(),
                this.records().dom() == crate_records@.dom().union(
                    Set::new(|c: Seq<char>| exists|k: int| 0 <= k < j && #[trigger] crates@[k]@ == c),
                ),
                forall|c: Seq<char>| #[trigger] crate_records@.contains_key(c) ==> this.records()[c] == crate_records@[c]@,
                forall|c: Seq<char>| #[trigger] this.records().contains_key(c) && !crate_records@.contains_key(c)
                    ==> this.records()[c] == (CrateRecordView { crate_name: c, structs: Map::empty() }),
            decreases n - j,
        {
            let name = &crates[j];
            if !this.crate_records.contains_key(name) {
                proof {
                    assert(!crate_records@.contains_key(name@)) by {
                        if crate_records@.contains_key(name@) {
                            assert(this.records().contains_key(name@));
                        }
                    }
                }
                this.add_crate(name.clone());
            }
            j = j + 1;
            proof {
                assert(this.records().dom() =~= crate_records@.dom().union(
                    Set::new(|c: Seq<char>| exists|k: int| 0 <= k < j && #[trigger] crates@[k]@ == c),
                )) by {
                    assert(crates@[j - 1]@ == name@);
                }
            }
        }
        proof {
            assert(this.records().dom() =~= crate_records@.dom().union(
                Set::new(|c: Seq<char>| exists|k: int| 0 <= k < crates@.len() && #[trigger] crates@[k]@ == c),
            ));
        }
        this
    }

    /// Records that field access `fx_usage` reads field `struct_index` of struct `adt`.
    pub fn add_special_field_expr_use(&mut self, adt: &AdtRef, fdef_index: usize, ident: &String, struct_index: usize, fx_usage: u32)
        requires
            old(self).records().contains_key(adt.krate@),
        ensures
            final(self).records() == with_struct(old(self).records(), adt.krate@, adt.index, spec_field_use(
                struct_or_new(old(self).records()[adt.krate@].structs, adt.index), struct_index, fdef_index, ident@, fx_usage)),
            final(self).field_defs() == old(self).field_defs(),
    {
        self.update_field(adt, fdef_index, ident, struct_index, fx_usage, false);
    }

    /// Records that `field_def` initializes field `struct_index` of struct `adt`.
    pub fn add_struct_field_defs(&mut self, adt: &AdtRef, fdef_index: usize, ident: &String, struct_index: usize, field_def: u32)
        requires
            old(self).records().contains_key(adt.krate@),
        ensures
            final(self).records() == with_struct(old(self).records(), adt.krate@, adt.index, spec_field_def(
                struct_or_new(old(self).records()[adt.krate@].structs, adt.index), struct_index, fdef_index, ident@, field_def)),
            final(self).field_defs() == old(self).field_defs(),
    {
        self.update_field(adt, fdef_index, ident, struct_index, field_def, true);
    }

    /// Records the definition of field `field_index`, named `ident`, in crate `crate_name`.
    pub fn add_field_record(&mut self, crate_name: String, ident: String, field_index: usize, node_id: u32)
        ensures
            final(self).field_defs() == old(self).field_defs().insert(crate_name@, defs_at(old(self).field_defs(), crate_name@).push(
                FieldDefView { def_index: field_index, node_id, ident: ident@ })),
            final(self).records() == old(self).records(),
    {
        let rec = FieldDefRecord { ident, def_index: field_index, node_id };
        let ghost rv = rec@;
        match self.field_def_records.find(&crate_name) {
            Some(i) => {
                let mut v = self.field_def_records.replace_at(i, Vec::new());
                let ghost v0 = v;
                v.push(rec);
                let ghost v1 = v;
                let _ = self.field_def_records.replace_at(i, v);
                proof {
                    assert(self.field_def_records@ =~= old(self).field_def_records@.insert(crate_name@, v1));
                    lemma_map_values_insert(old(self).field_def_records@, crate_name@, v1, |v: Vec<FieldDefRecord>| defs_view(v));
                    assert(defs_view(v1) =~= defs_view(v0).push(rv));
                }
            },
            None => {
                let mut v: Vec<FieldDefRecord> = Vec::new();
                v.push(rec);
                let ghost v1 = v;
                self.field_def_records.insert(crate_name, v);
                proof {
                    lemma_map_values_insert(old(self).field_def_records@, crate_name@, v1, |v: Vec<FieldDefRecord>| defs_view(v));
                    assert(defs_view(v1) =~= Seq::<FieldDefView>::empty().push(rv));
                }
            },
        }
    }

    /// Records one field definition.
    pub fn visit_field_def(&mut self, crate_name: String, ident: String, field_index: usize, node_id: u32)
        ensures
            final(self).field_defs() == old(self).field_defs().insert(crate_name@, defs_at(old(self).field_defs(), crate_name@).push(
                FieldDefView { def_index: field_index, node_id, ident: ident@ })),
            final(self).records() == old(self).records(),
    {
        self.add_field_record(crate_name, ident, field_index, node_id);
    }

    /// Records what one expression shows.
    pub fn visit_expr(&mut self, fact: &ExprFact)
        requires
            expr_crate_known(old(self).records(), *fact),
        ensures
            final(self).field_defs() == old(self).field_defs(),
            final(self).records() == spec_visit_expr(old(self).records(), *fact),
    {
        match fact {
            ExprFact::StructLiteral { adt: Some(a), contains_smart_pointer: true, fields } => {
                let n = fields.len();
                let mut k: usize = 0;
                while k < n
                    invariant
                        n == fields@.len(),
                        k <= n,
                        has_plain_field(fields@) ==> self.records().contains_key(a.krate@),
                        self.records() == literal_fold(old(self).records(), *a, fields@, k as int),
                        self.field_defs() == old(self).field_defs(),
                    decreases n - k,
                {
                    let f = &fields[k];
                    if !f.is_smart_pointer {
                        proof {
                            assert(has_plain_field(fields@)) by {
                                assert(!fields@[k as int].is_smart_pointer);
                            }
                        }
                        self.add_struct_field_defs(a, f.def_index, &f.ident, k, f.expr_node_id);
                    }
                    k = k + 1;
                }
            },
            ExprFact::FieldAccess {
                parent_adt: Some(a), parent_contains_smart_pointer: true, field_is_smart_pointer: false, all_fields, ident, node_id
            } => {
                let n = all_fields.len();
                let mut k: usize = 0;
                while k < n
                    invariant
                        n == all_fields@.len(),
                        k <= n,
                        has_field_named(all_fields@, ident@) ==> self.records().contains_key(a.krate@),
                        self.records() == access_fold(old(self).records(), *a, all_fields@, ident@, *node_id, k as int),
                        self.field_defs() == old(self).field_defs(),
                    decreases n - k,
                {
                    let f = &all_fields[k];
                    if f.ident == *ident {
                        proof {
                            assert(has_field_named(all_fields@, ident@)) by {
                                assert(all_fields@[k as int].ident@ == ident@);
                            }
                        }
                        self.add_special_field_expr_use(a, f.def_index, ident, k, *node_id);
                    }
                    k = k + 1;
                }
            },
            _ => {},
        }
    }

    /// The common part of recording a use (`is_def` false) or an initializer.
    fn update_field(&mut self, adt: &AdtRef, fdef_index: usize, ident: &String, struct_index: usize, id: u32, is_def: bool)
        requires
            old(self).records().contains_key(adt.krate@),
        ensures
            final(self).records() == with_struct(old(self).records(), adt.krate@, adt.index, if is_def {
                spec_field_def(struct_or_new(old(self).records()[adt.krate@].structs, adt.index), struct_index, fdef_index, ident@, id)
            } else {
                spec_field_use(struct_or_new(old(self).records()[adt.krate@].structs, adt.index), struct_index, fdef_index, ident@, id)
            }),
            final(self).field_defs() == old(self).field_defs(),
    {
        let ci = match self.crate_records.find(&adt.krate) {
            Some(ci) => ci,
            None => {
                proof {
                    assert(false);
                }
                0
            },
        };
        let mut krate = self.crate_records.replace_at(ci, CrateRecord { crate_name: String::new(), structs: AssocMap::new() });
        let ghost k0 = krate@;
        proof {
            assert(k0 == old(self).records()[adt.krate@]);
        }
        let mut srec = match krate.structs.find(&adt.index) {
            Some(si) => {
                let r = krate.structs.replace_at(si, StructRecord { index: 0, fields: AssocMap::new() });
                proof {
                    assert(r@ == k0.structs[adt.index]);
                }
                r
            },
            None => {
                let r = StructRecord { index: adt.index, fields: AssocMap::new() };
                proof {
                    assert(fields_view(r.fields) =~= Map::empty());
                }
                r
            },
        };
        let ghost s0 = srec@;
        proof {
            assert(s0 == struct_or_new(k0.structs, adt.index));
            assert(structs_view(krate.structs).remove(adt.index) =~= k0.structs.remove(adt.index));
        }
        let fresh = match srec.fields.find(&struct_index) {
            Some(fi) => {
                let mut f = srec.fields.replace_at(fi, FieldRecord {
                    struct_index: 0,
                    def_index: 0,
                    ident: String::new(),
                    field_expr_uses: KeySet::new(),
                    struct_field_defs: KeySet::new(),
                });
                proof {
                    assert(f@ == s0.fields[struct_index]);
                }
                if is_def {
                    f.struct_field_defs.insert(id);
                } else {
                    f.field_expr_uses.insert(id);
                }
                f
            },
            None => {
                let mut f = FieldRecord {
                    struct_index,
                    def_index: fdef_index,
                    ident: ident.clone(),
                    field_expr_uses: KeySet::new(),
                    struct_field_defs: KeySet::new(),
                };
                if is_def {
                    f.struct_field_defs.insert(id);
                } else {
                    f.field_expr_uses.insert(id);
                }
                f
            },
        };
        let ghost fv = fresh;
        let ghost fields_before = srec.fields;
        proof {
            assert(fields_view(fields_before).remove(struct_index) =~= s0.fields.remove(struct_index));
        }
        srec.fields.insert(struct_index, fresh);
        let ghost target = if is_def {
            spec_field_def(s0, struct_index, fdef_index, ident@, id)
        } else {
            spec_field_use(s0, struct_index, fdef_index, ident@, id)
        };
        proof {
            lemma_map_values_insert(fields_before@, struct_index, fv, |f: FieldRecord| f@);
            assert(fields_view(srec.fields) =~= s0.fields.insert(struct_index, fv@));
            assert(fields_view(srec.fields) =~= target.fields);
            assert(srec.index == target.index);
        }
        let ghost sv = srec;
        let ghost structs_before = krate.structs;
        krate.structs.insert(adt.index, srec);
        let ghost kv = krate;
        proof {
            lemma_map_values_insert(structs_before@, adt.index, sv, |s: StructRecord| s@);
            assert(structs_view(krate.structs) =~= k0.structs.insert(adt.index, target));
        }
        let _ = self.crate_records.replace_at(ci, krate);
        proof {
            assert(self.crate_records@ =~= old(self).crate_records@.insert(adt.krate@, kv));
            lemma_map_values_insert(old(self).crate_records@, adt.krate@, kv, |c: CrateRecord| c@);
            assert(kv@ == CrateRecordView { structs: k0.structs.insert(adt.index, target), ..k0 });
        }
    }
}

} // verus!
