//! Per-crate records of the structs that hold smart pointers, gathered while
//! the type-checked program is walked.
use vstd::prelude::*;

use crate::collections::{lemma_map_values_insert, AssocMap, KeySet};

verus! {

/// What is recorded of one struct definition.
pub struct StructRecord {
    pub def_index: usize,
    pub node_id: u32,
    /// The struct holds a smart pointer and its layout gets a shadow box.
    pub needs_box: bool,
    /// Per crate, the struct literals of this struct written in that crate.
    pub struct_defs: AssocMap<String, KeySet<u32>>,
    /// Per crate, the struct literals that are assigned to and so keep the box.
    pub except_defs: AssocMap<String, KeySet<u32>>,
}

/// The mathematical value of a [`StructRecord`].
pub struct StructRecordView {
    pub def_index: usize,
    pub node_id: u32,
    pub needs_box: bool,
    pub struct_defs: Map<Seq<char>, Set<u32>>,
    pub except_defs: Map<Seq<char>, Set<u32>>,
}

/// Crate name to set of node ids, as mathematical values.
pub open spec fn sets_view(m: AssocMap<String, KeySet<u32>>) -> Map<Seq<char>, Set<u32>> {
    m@.map_values(|s: KeySet<u32>| s@)
}

/// The set stored under `k`, or the empty set.
pub open spec fn ids_at(m: Map<Seq<char>, Set<u32>>, k: Seq<char>) -> Set<u32> {
    if m.contains_key(k) {
        m[k]
    } else {
        Set::empty()
    }
}

impl View for StructRecord {
    type V = StructRecordView;

    open spec fn view(&self) -> StructRecordView {
        StructRecordView {
            def_index: self.def_index,
            node_id: self.node_id,
            needs_box: self.needs_box,
            struct_defs: sets_view(self.struct_defs),
            except_defs: sets_view(self.except_defs),
        }
    }
}

/// The record a struct starts with.
pub open spec fn default_record() -> StructRecordView {
    StructRecordView {
        def_index: 0,
        node_id: 0,
        needs_box: false,
        struct_defs: Map::empty(),
        except_defs: Map::empty(),
    }
}

/// Records of one crate, keyed by definition index.
pub type CrateRecords = AssocMap<usize, StructRecord>;

/// Records of all crates, keyed by crate name.
pub type RecordTable = AssocMap<String, CrateRecords>;

pub open spec fn crate_view(m: CrateRecords) -> Map<usize, StructRecordView> {
    m@.map_values(|r: StructRecord| r@)
}

pub open spec fn table_view(t: RecordTable) -> Map<Seq<char>, Map<usize, StructRecordView>> {
    t@.map_values(|m: CrateRecords| crate_view(m))
}

/// The records of crate `c`, or none.
pub open spec fn crate_at(t: Map<Seq<char>, Map<usize, StructRecordView>>, c: Seq<char>) -> Map<usize, StructRecordView> {
    if t.contains_key(c) {
        t[c]
    } else {
        Map::empty()
    }
}

/// The record of struct `i`, or the default record.
pub open spec fn record_at(m: Map<usize, StructRecordView>, i: usize) -> StructRecordView {
    if m.contains_key(i) {
        m[i]
    } else {
        default_record()
    }
}

/// `m` with `id` added to the set under `k`.
pub open spec fn add_id(m: Map<Seq<char>, Set<u32>>, k: Seq<char>, id: u32) -> Map<Seq<char>, Set<u32>> {
    m.insert(k, ids_at(m, k).insert(id))
}

impl StructRecord {
    pub fn new() -> (r: StructRecord)
        ensures
            r@ == default_record(),
    {
        let r = StructRecord {
            def_index: 0,
            node_id: 0,
            needs_box: false,
            struct_defs: AssocMap::new(),
            except_defs: AssocMap::new(),
        };
        assert(sets_view(r.struct_defs) =~= Map::empty());
        assert(sets_view(r.except_defs) =~= Map::empty());
        r
    }
}

/// Adds `id` to the set that `sets` holds under `key`, creating it if absent.
pub fn add_to_set(sets: &mut AssocMap<String, KeySet<u32>>, key: &String, id: u32)
    ensures
        sets_view(*final(sets)) == add_id(sets_view(*old(sets)), key@, id),
{
    match sets.find(key) {
        Some(i) => {
            let mut s = sets.replace_at(i, KeySet::new());
            s.insert(id);
            let ghost sv = s;
            let _ = sets.replace_at(i, s);
            proof {
                assert(sets@ =~= old(sets)@.insert(key@, sv));
                lemma_map_values_insert(old(sets)@, key@, sv, |s: KeySet<u32>| s@);
            }
        },
        None => {
            let mut s = KeySet::new();
            s.insert(id);
            let ghost sv = s;
            sets.insert(key.clone(), s);
            proof {
                lemma_map_values_insert(old(sets)@, key@, sv, |s: KeySet<u32>| s@);
                assert(sv@ =~= Set::<u32>::empty().insert(id));
            }
        },
    }
}


/// `t` where record `i` of crate `c` is `r` (the crate is created if absent).
pub open spec fn with_record(
    t: Map<Seq<char>, Map<usize, StructRecordView>>,
    c: Seq<char>,
    i: usize,
    r: StructRecordView,
) -> Map<Seq<char>, Map<usize, StructRecordView>> {
    t.insert(c, crate_at(t, c).insert(i, r))
}

/// Whether crate `c` has a record of struct `i`.
pub open spec fn has_record(t: Map<Seq<char>, Map<usize, StructRecordView>>, c: Seq<char>, i: usize) -> bool {
    t.contains_key(c) && t[c].contains_key(i)
}

/// Hands out the records of crate `c` and leaves an empty table in their place,
/// creating the crate's entry when it is absent.
fn take_crate(t: &mut RecordTable, c: &String) -> (r: (usize, CrateRecords))
    ensures
        r.0 < final(t).spec_len(),
        final(t).spec_key(r.0 as int) == c@,
        table_view(*final(t)) == table_view(*old(t)).insert(c@, Map::empty()),
        crate_view(r.1) == crate_at(table_view(*old(t)), c@),
{
    let i = match t.find(c) {
        Some(i) => i,
        None => {
            t.insert(c.clone(), AssocMap::new());
            match t.find(c) {
                Some(i) => i,
                None => {
                    proof {
                        assert(false);
                    }
                    0
                },
            }
        },
    };
    let m = t.replace_at(i, AssocMap::new());
    proof {
        let e = t@[c@];
        assert(t@ =~= old(t)@.insert(c@, e));
        lemma_map_values_insert(old(t)@, c@, e, |m: CrateRecords| crate_view(m));
        assert(crate_view(e) =~= Map::empty());
        assert(crate_view(m) =~= crate_at(table_view(*old(t)), c@));
    }
    (i, m)
}

/// Puts `m` back at position `i`.
fn put_crate(t: &mut RecordTable, i: usize, m: CrateRecords)
    requires
        i < old(t).spec_len(),
    ensures
        table_view(*final(t)) == table_view(*old(t)).insert(old(t).spec_key(i as int), crate_view(m)),
{
    let ghost mv = m;
    let _ = t.replace_at(i, m);
    proof {
        lemma_map_values_insert(old(t)@, old(t).spec_key(i as int), mv, |m: CrateRecords| crate_view(m));
    }
}

/// Hands out record `k` and leaves a default record in its place, creating it when absent.
fn take_record(m: &mut CrateRecords, k: usize) -> (r: (usize, StructRecord))
    ensures
        r.0 < final(m).spec_len(),
        final(m).spec_key(r.0 as int) == k,
        r.1@ == record_at(crate_view(*old(m)), k),
        crate_view(*final(m)) == crate_view(*old(m)).insert(k, default_record()),
{
    let i = match m.find(&k) {
        Some(i) => i,
        None => {
            m.insert(k, StructRecord::new());
            match m.find(&k) {
                Some(i) => i,
                None => {
                    proof {
                        assert(false);
                    }
                    0
                },
            }
        },
    };
    let r = m.replace_at(i, StructRecord::new());
    proof {
        let d = m@[k];
        assert(m@ =~= old(m)@.insert(k, d));
        lemma_map_values_insert(old(m)@, k, d, |r: StructRecord| r@);
    }
    (i, r)
}

/// Puts record `r` back at position `i`.
fn put_record(m: &mut CrateRecords, i: usize, r: StructRecord)
    requires
        i < old(m).spec_len(),
    ensures
        crate_view(*final(m)) == crate_view(*old(m)).insert(old(m).spec_key(i as int), r@),
{
    let ghost rv = r;
    let _ = m.replace_at(i, r);
    proof {
        lemma_map_values_insert(old(m)@, old(m).spec_key(i as int), rv, |r: StructRecord| r@);
    }
}


/// A struct type as the analysis names it: its crate and its definition index.
pub struct AdtRef {
    pub krate: String,
    pub index: usize,
}

/// What the analysis reads of one expression of the type-checked program.
pub enum ExprFact {
    /// A struct literal; `adt` is its type with references peeled, when that is a struct.
    StructLiteral { adt: Option<AdtRef>, contains_smart_pointer: bool, node_id: u32 },
    /// An assignment whose left side is a struct literal.
    AssignToStructLiteral { lhs_adt: Option<AdtRef>, contains_smart_pointer: bool, lhs_node_id: u32 },
    /// A field access; `parent_adt` is the type of the accessed value, references peeled.
    FieldAccess { parent_adt: Option<AdtRef>, contains_smart_pointer: bool },
    /// A call of a function item; `c_abi` tells whether it has the C calling convention.
    Call { c_abi: bool, node_id: u32 },
    Other,
}

/// What the analysis reads of one item.
pub enum ItemFact {
    Struct { node_id: u32, def_index: usize },
    Other,
}

/// `r` with `needs_box` set.
pub open spec fn boxed(r: StructRecordView) -> StructRecordView {
    StructRecordView { needs_box: true, ..r }
}

/// `t` after marking struct `i` of crate `c` as needing a box; nothing changes
/// when there is no such record.
pub open spec fn spec_mark_boxable(
    t: Map<Seq<char>, Map<usize, StructRecordView>>,
    c: Seq<char>,
    i: usize,
) -> Map<Seq<char>, Map<usize, StructRecordView>> {
    if has_record(t, c, i) {
        with_record(t, c, i, boxed(t[c][i]))
    } else {
        t
    }
}

/// `t` after recording literal `id`, written in crate `here`, of struct `i` of
/// crate `c`; nothing changes when there is no such record.
pub open spec fn spec_add_struct_def(
    t: Map<Seq<char>, Map<usize, StructRecordView>>,
    c: Seq<char>,
    i: usize,
    here: Seq<char>,
    id: u32,
) -> Map<Seq<char>, Map<usize, StructRecordView>> {
    if has_record(t, c, i) {
        let r = t[c][i];
        with_record(t, c, i, StructRecordView { struct_defs: add_id(r.struct_defs, here, id), ..r })
    } else {
        t
    }
}

/// `t` after recording that literal `id`, written in crate `here`, of struct `i`
/// of crate `c` is assigned to; the record is created when absent and needs a box.
pub open spec fn spec_set_exception(
    t: Map<Seq<char>, Map<usize, StructRecordView>>,
    c: Seq<char>,
    i: usize,
    here: Seq<char>,
    id: u32,
) -> Map<Seq<char>, Map<usize, StructRecordView>> {
    let r = record_at(crate_at(t, c), i);
    with_record(t, c, i, StructRecordView { needs_box: true, except_defs: add_id(r.except_defs, here, id), ..r })
}

/// `t` after recording struct definition `i` of crate `here` with its node id.
pub open spec fn spec_add_struct(
    t: Map<Seq<char>, Map<usize, StructRecordView>>,
    here: Seq<char>,
    node_id: u32,
    i: usize,
) -> Map<Seq<char>, Map<usize, StructRecordView>> {
    let r = record_at(crate_at(t, here), i);
    with_record(t, here, i, StructRecordView { def_index: i, node_id: node_id, ..r })
}

/// The records after expression `fact` of crate `here` is seen.
pub open spec fn spec_expr_records(
    t: Map<Seq<char>, Map<usize, StructRecordView>>,
    here: Seq<char>,
    fact: ExprFact,
) -> Map<Seq<char>, Map<usize, StructRecordView>> {
    match fact {
        ExprFact::StructLiteral { adt: Some(a), contains_smart_pointer, node_id } => {
            let marked = if contains_smart_pointer {
                spec_mark_boxable(t, a.krate@, a.index)
            } else {
                t
            };
            spec_add_struct_def(marked, a.krate@, a.index, here, node_id)
        },
        ExprFact::AssignToStructLiteral { lhs_adt: Some(a), contains_smart_pointer: true, lhs_node_id } =>
            spec_set_exception(t, a.krate@, a.index, here, lhs_node_id),
        ExprFact::FieldAccess { parent_adt: Some(a), contains_smart_pointer: true } =>
            spec_mark_boxable(t, a.krate@, a.index),
        _ => t,
    }
}

/// The extern calls after expression `fact` of crate `here` is seen.
pub open spec fn spec_expr_calls(c: Map<Seq<char>, Set<u32>>, here: Seq<char>, fact: ExprFact) -> Map<Seq<char>, Set<u32>> {
    match fact {
        ExprFact::Call { c_abi: true, node_id } => add_id(c, here, node_id),
        _ => c,
    }
}

/// The records after item `item` of crate `here` is seen.
pub open spec fn spec_item_records(
    t: Map<Seq<char>, Map<usize, StructRecordView>>,
    here: Seq<char>,
    item: ItemFact,
) -> Map<Seq<char>, Map<usize, StructRecordView>> {
    match item {
        ItemFact::Struct { node_id, def_index } => spec_add_struct(t, here, node_id, def_index),
        ItemFact::Other => t,
    }
}

/// One step of the walk over a crate: an item or an expression.
pub enum AnalysisEvent {
    Item(ItemFact),
    Expr(ExprFact),
}

/// The records after `events[..k]` of crate `here` are seen.
pub open spec fn records_after(
    t: Map<Seq<char>, Map<usize, StructRecordView>>,
    here: Seq<char>,
    events: Seq<AnalysisEvent>,
    k: int,
) -> Map<Seq<char>, Map<usize, StructRecordView>>
    decreases k,
{
    if k <= 0 {
        t
    } else {
        let before = records_after(t, here, events, k - 1);
        match events[k - 1] {
            AnalysisEvent::Item(i) => spec_item_records(before, here, i),
            AnalysisEvent::Expr(f) => spec_expr_records(before, here, f),
        }
    }
}

/// The extern calls after `events[..k]` of crate `here` are seen.
pub open spec fn calls_after(c: Map<Seq<char>, Set<u32>>, here: Seq<char>, events: Seq<AnalysisEvent>, k: int) -> Map<Seq<char>, Set<u32>>
    decreases k,
{
    if k <= 0 {
        c
    } else {
        let before = calls_after(c, here, events, k - 1);
        match events[k - 1] {
            AnalysisEvent::Item(_) => before,
            AnalysisEvent::Expr(f) => spec_expr_calls(before, here, f),
        }
    }
}

/// The analysis state of one crate's compilation.
pub struct HirAnalysisCtxt {
    /// The name of the crate being compiled.
    pub crate_name: String,
    pub struct_records: RecordTable,
    /// Per crate, the calls into foreign (C) functions.
    pub extern_calls: AssocMap<String, KeySet<u32>>,
}

impl HirAnalysisCtxt {
    pub open spec fn records(&self) -> Map<Seq<char>, Map<usize, StructRecordView>> {
        table_view(self.struct_records)
    }

    pub open spec fn calls(&self) -> Map<Seq<char>, Set<u32>> {
        sets_view(self.extern_calls)
    }

    /// Starts from the records saved by earlier compilations and gives every
    /// crate in `crates` an entry.
    pub fn new(
        crate_name: String,
        struct_records: RecordTable,
        extern_calls: AssocMap<String, KeySet<u32>>,
        crates: &Vec<String>,
    ) -> (r: HirAnalysisCtxt)
        ensures
            r.crate_name@ == crate_name@,
            r.calls() == sets_view(extern_calls),
            r.records().dom() == table_view(struct_records).dom().union(
                Set::new(|c: Seq<char>| exists|j: int| 0 <= j < crates@.len() && #[trigger] crates@[j]@ == c),
            ),
            forall|c: Seq<char>| #[trigger] r.records().contains_key(c) ==> r.records()[c] == crate_at(table_view(struct_records), c),
    {
        let mut this = HirAnalysisCtxt { crate_name, struct_records, extern_calls };
        let n = crates.len();
        let mut j: usize = 0;
        while j < n
            invariant
                n == crates@.len(),
                j <= n,
                this.crate_name@ == crate_name@,
                this.calls() == sets_view(extern_calls),
                this.records().dom() == table_view(struct_records).dom().union(
                    Set::new(|c: Seq<char>| exists|k: int| 0 <= k < j && #[trigger] crates@[k]@ == c),
                ),
                forall|c: Seq<char>| #[trigger] this.records().contains_key(c) ==> this.records()[c] == crate_at(table_view(struct_records), c),
            decreases n - j,
        {
            let name = &crates[j];
            if !this.struct_records.contains_key(name) {
                proof {
                    assert(!table_view(struct_records).contains_key(name@)) by {
                        if table_view(struct_records).contains_key(name@) {
                            assert(this.records().contains_key(name@));
                        }
                    }
                }
                this.add_crate(name.clone());
            }
            j = j + 1;
            proof {
                assert(this.records().dom() =~= table_view(struct_records).dom().union(
                    Set::new(|c: Seq<char>| exists|k: int| 0 <= k < j && #[trigger] crates@[k]@ == c),
                )) by {
                    assert(crates@[j - 1]@ == name@);
                }
            }
        }
        proof {
            assert(this.records().dom() =~= table_view(struct_records).dom().union(
                Set::new(|c: Seq<char>| exists|k: int| 0 <= k < crates@.len() && #[trigger] crates@[k]@ == c),
            ));
        }
        this
    }

    /// Gives crate `name` an empty table of records.
    pub fn add_crate(&mut self, name: String)
        ensures
            final(self).records() == old(self).records().insert(name@, Map::empty()),
            final(self).calls() == old(self).calls(),
            final(self).crate_name == old(self).crate_name,
    {
        let e: CrateRecords = AssocMap::new();
        let ghost ev = e;
        self.struct_records.insert(name, e);
        proof {
            lemma_map_values_insert(old(self).struct_records@, name@, ev, |m: CrateRecords| crate_view(m));
            assert(crate_view(ev) =~= Map::empty());
        }
    }

    /// Records struct definition `def_id` of the crate being compiled.
    pub fn add_struct(&mut self, node_id: u32, def_id: usize)
        ensures
            final(self).records() == spec_add_struct(old(self).records(), old(self).crate_name@, node_id, def_id),
            final(self).calls() == old(self).calls(),
            final(self).crate_name == old(self).crate_name,
    {
        let (ci, mut m) = take_crate(&mut self.struct_records, &self.crate_name);
        let (ri, mut r) = take_record(&mut m, def_id);
        r.def_index = def_id;
        r.node_id = node_id;
        let ghost rv = r@;
        put_record(&mut m, ri, r);
        proof {
            assert(crate_view(m) =~= crate_at(old(self).records(), old(self).crate_name@).insert(def_id, rv));
        }
        put_crate(&mut self.struct_records, ci, m);
        proof {
            assert(self.records() =~= spec_add_struct(old(self).records(), old(self).crate_name@, node_id, def_id));
        }
    }

    /// Whether struct `index` of crate `krate` has a record.
    pub fn has_struct_record(&self, krate: &String, index: usize) -> (r: bool)
        ensures
            r == has_record(self.records(), krate@, index),
    {
        match self.struct_records.get(krate) {
            Some(m) => {
                proof {
                    assert(crate_view(*m) == self.records()[krate@]);
                }
                m.contains_key(&index)
            },
            None => false,
        }
    }

    /// Marks struct `index` of crate `krate` as needing a box, if it is recorded.
    pub fn mark_struct_boxable(&mut self, krate: &String, index: usize)
        ensures
            final(self).records() == spec_mark_boxable(old(self).records(), krate@, index),
            final(self).calls() == old(self).calls(),
            final(self).crate_name == old(self).crate_name,
    {
        if self.has_struct_record(krate, index) {
            let (ci, mut m) = take_crate(&mut self.struct_records, krate);
            let (ri, mut r) = take_record(&mut m, index);
            r.needs_box = true;
            let ghost rv = r@;
            put_record(&mut m, ri, r);
            proof {
                assert(crate_view(m) =~= crate_at(old(self).records(), krate@).insert(index, rv));
            }
            put_crate(&mut self.struct_records, ci, m);
            proof {
                assert(self.records() =~= spec_mark_boxable(old(self).records(), krate@, index));
            }
        }
    }

    /// Records literal `def_id`, written in the crate being compiled, of
    /// struct `index` of crate `krate`, if that struct is recorded.
    pub fn add_struct_def(&mut self, krate: &String, index: usize, def_id: u32)
        ensures
            final(self).records() == spec_add_struct_def(old(self).records(), krate@, index, old(self).crate_name@, def_id),
            final(self).calls() == old(self).calls(),
            final(self).crate_name == old(self).crate_name,
    {
        if self.has_struct_record(krate, index) {
            let (ci, mut m) = take_crate(&mut self.struct_records, krate);
            let (ri, mut r) = take_record(&mut m, index);
            add_to_set(&mut r.struct_defs, &self.crate_name, def_id);
            let ghost rv = r@;
            put_record(&mut m, ri, r);
            proof {
                assert(crate_view(m) =~= crate_at(old(self).records(), krate@).insert(index, rv));
            }
            put_crate(&mut self.struct_records, ci, m);
            proof {
                assert(self.records() =~= spec_add_struct_def(old(self).records(), krate@, index, old(self).crate_name@, def_id));
            }
        }
    }

    /// Records that literal `expr_id` of struct `index` of crate `krate` is
    /// assigned to; the struct then needs a box.
    pub fn set_struct_def_exception(&mut self, krate: &String, index: usize, expr_id: u32)
        ensures
            final(self).records() == spec_set_exception(old(self).records(), krate@, index, old(self).crate_name@, expr_id),
            final(self).calls() == old(self).calls(),
            final(self).crate_name == old(self).crate_name,
    {
        let (ci, mut m) = take_crate(&mut self.struct_records, krate);
        let (ri, mut r) = take_record(&mut m, index);
        r.needs_box = true;
        add_to_set(&mut r.except_defs, &self.crate_name, expr_id);
        let ghost rv = r@;
        put_record(&mut m, ri, r);
        proof {
            assert(crate_view(m) =~= crate_at(old(self).records(), krate@).insert(index, rv));
        }
        put_crate(&mut self.struct_records, ci, m);
        proof {
            assert(self.records() =~= spec_set_exception(old(self).records(), krate@, index, old(self).crate_name@, expr_id));
        }
    }

    /// Records a call into a foreign function in the crate being compiled.
    pub fn add_extern_call(&mut self, expr_id: u32)
        ensures
            final(self).calls() == add_id(old(self).calls(), old(self).crate_name@, expr_id),
            final(self).records() == old(self).records(),
            final(self).crate_name == old(self).crate_name,
    {
        add_to_set(&mut self.extern_calls, &self.crate_name, expr_id);
    }

    /// Records what one expression shows.
    pub fn visit_expr(&mut self, fact: &ExprFact)
        ensures
            final(self).crate_name == old(self).crate_name,
            final(self).records() == spec_expr_records(old(self).records(), old(self).crate_name@, *fact),
            final(self).calls() == spec_expr_calls(old(self).calls(), old(self).crate_name@, *fact),
    {
        match fact {
            ExprFact::StructLiteral { adt: Some(a), contains_smart_pointer, node_id } => {
                if *contains_smart_pointer {
                    self.mark_struct_boxable(&a.krate, a.index);
                }
                self.add_struct_def(&a.krate, a.index, *node_id);
            },
            ExprFact::AssignToStructLiteral { lhs_adt: Some(a), contains_smart_pointer, lhs_node_id } => {
                if *contains_smart_pointer {
                    self.set_struct_def_exception(&a.krate, a.index, *lhs_node_id);
                }
            },
            ExprFact::FieldAccess { parent_adt: Some(a), contains_smart_pointer } => {
                if *contains_smart_pointer {
                    self.mark_struct_boxable(&a.krate, a.index);
                }
            },
            ExprFact::Call { c_abi, node_id } => {
                if *c_abi {
                    self.add_extern_call(*node_id);
                }
            },
            _ => {},
        }
    }

    /// Records what one item shows.
    pub fn visit_item(&mut self, item: &ItemFact)
        ensures
            final(self).crate_name == old(self).crate_name,
            final(self).calls() == old(self).calls(),
            final(self).records() == spec_item_records(old(self).records(), old(self).crate_name@, *item),
    {
        match item {
            ItemFact::Struct { node_id, def_index } => self.add_struct(*node_id, *def_index),
            ItemFact::Other => {},
        }
    }
}

/// Walks the items and expressions of a crate, in the order the compiler
/// visits them, recording what they show.
pub fn run_metasafe_analysis_stage(ctx: &mut HirAnalysisCtxt, events: &Vec<AnalysisEvent>)
    ensures
        final(ctx).crate_name == old(ctx).crate_name,
        final(ctx).records() == records_after(old(ctx).records(), old(ctx).crate_name@, events@, events@.len() as int),
        final(ctx).calls() == calls_after(old(ctx).calls(), old(ctx).crate_name@, events@, events@.len() as int),
{
    let n = events.len();
    let mut k: usize = 0;
    while k < n
        invariant
            n == events@.len(),
            k <= n,
            ctx.crate_name == old(ctx).crate_name,
            ctx.records() == records_after(old(ctx).records(), old(ctx).crate_name@, events@, k as int),
            ctx.calls() == calls_after(old(ctx).calls(), old(ctx).crate_name@, events@, k as int),
        decreases n - k,
    {
        match &events[k] {
            AnalysisEvent::Item(i) => ctx.visit_item(i),
            AnalysisEvent::Expr(f) => ctx.visit_expr(f),
        }
        k = k + 1;
    }
}

} // verus!
