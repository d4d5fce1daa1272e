//! What one crate's compilation needs of the records that all analysed crates saved.
use vstd::prelude::*;

use crate::collections::{lemma_prefix_union_all, lemma_prefix_union_step, prefix_union, KeySet};
use crate::hir_analysis::{crate_view, ids_at, table_view, CrateRecords, RecordTable, StructRecord, StructRecordView};

verus! {

/// The structs of this crate that get a shadow box, and the struct literals
/// written in this crate that have to be rewritten or left alone.
pub struct AnalysisRecords {
    pub structs: KeySet<u32>,
    pub struct_defs: KeySet<u32>,
    pub except_defs: KeySet<u32>,
}

impl AnalysisRecords {
    pub fn new() -> (r: AnalysisRecords)
        ensures
            r.structs@ == Set::<u32>::empty(),
            r.struct_defs@ == Set::<u32>::empty(),
            r.except_defs@ == Set::<u32>::empty(),
    {
        AnalysisRecords { structs: KeySet::new(), struct_defs: KeySet::new(), except_defs: KeySet::new() }
    }
}

/// The `x` that `f` relates to some record of `m`.
pub open spec fn union_over(m: Map<usize, StructRecordView>, f: spec_fn(StructRecordView, u32) -> bool) -> Set<u32> {
    Set::new(|x: u32| exists|i: usize| #[trigger] m.contains_key(i) && f(m[i], x))
}

/// `x` is the node id of `r`, which needs a box.
pub open spec fn boxed_node() -> spec_fn(StructRecordView, u32) -> bool {
    |r: StructRecordView, x: u32| r.needs_box && r.node_id == x
}

/// `x` is a literal, written in crate `c`, of `r`, which needs a box.
pub open spec fn literal_in(c: Seq<char>) -> spec_fn(StructRecordView, u32) -> bool {
    |r: StructRecordView, x: u32| r.needs_box && ids_at(r.struct_defs, c).contains(x)
}

/// `x` is an assigned-to literal, written in crate `c`, of `r`, which needs a box.
pub open spec fn exception_in(c: Seq<char>) -> spec_fn(StructRecordView, u32) -> bool {
    |r: StructRecordView, x: u32| r.needs_box && ids_at(r.except_defs, c).contains(x)
}

/// `f` read at the positions of `m`.
pub open spec fn at_positions(m: CrateRecords, f: spec_fn(StructRecordView, u32) -> bool) -> spec_fn(int, u32) -> bool {
    |i: int, x: u32| f(crate_view(m)[m.spec_key(i)], x)
}

/// Node ids of the records in `m` that need a box.
pub open spec fn boxed_node_ids(m: Map<usize, StructRecordView>) -> Set<u32> {
    union_over(m, boxed_node())
}

/// Literals written in crate `c` of the structs in `m` that need a box.
pub open spec fn crate_literals(m: Map<usize, StructRecordView>, c: Seq<char>) -> Set<u32> {
    union_over(m, literal_in(c))
}

/// Assigned-to literals written in crate `c` of the structs in `m` that need a box.
pub open spec fn crate_exceptions(m: Map<usize, StructRecordView>, c: Seq<char>) -> Set<u32> {
    union_over(m, exception_in(c))
}

/// `x` is a literal of crate `c` in the records at position `i` of `t`.
pub open spec fn literals_at(t: RecordTable, c: Seq<char>) -> spec_fn(int, u32) -> bool {
    |i: int, x: u32| crate_literals(crate_view(t@[t.spec_key(i)]), c).contains(x)
}

/// `x` is an exception of crate `c` in the records at position `i` of `t`.
pub open spec fn exceptions_at(t: RecordTable, c: Seq<char>) -> spec_fn(int, u32) -> bool {
    |i: int, x: u32| crate_exceptions(crate_view(t@[t.spec_key(i)]), c).contains(x)
}

/// Literals written in crate `c` of any recorded struct that needs a box.
pub open spec fn all_literals(t: Map<Seq<char>, Map<usize, StructRecordView>>, c: Seq<char>) -> Set<u32> {
    Set::new(|x: u32| exists|k: Seq<char>| #[trigger] t.contains_key(k) && crate_literals(t[k], c).contains(x))
}

/// Assigned-to literals written in crate `c` of any recorded struct that needs a box.
pub open spec fn all_exceptions(t: Map<Seq<char>, Map<usize, StructRecordView>>, c: Seq<char>) -> Set<u32> {
    Set::new(|x: u32| exists|k: Seq<char>| #[trigger] t.contains_key(k) && crate_exceptions(t[k], c).contains(x))
}

/// The records of crate `c`, or none.
pub open spec fn records_of(t: Map<Seq<char>, Map<usize, StructRecordView>>, c: Seq<char>) -> Map<usize, StructRecordView> {
    if t.contains_key(c) {
        t[c]
    } else {
        Map::empty()
    }
}

/// The records at the positions of `m`, related by `f`, are the union over `m`.
pub proof fn lemma_union_over_positions(m: CrateRecords, f: spec_fn(StructRecordView, u32) -> bool)
    requires
        forall|i: int| 0 <= i < m.spec_len() ==> m@.contains_key(#[trigger] m.spec_key(i)),
        forall|k: usize| #[trigger] m@.contains_key(k) ==> exists|i: int| 0 <= i < m.spec_len() && m.spec_key(i) == k,
    ensures
        prefix_union(at_positions(m, f), m.spec_len() as int) == union_over(crate_view(m), f),
{
    let g = |r: StructRecord, x: u32| f(r@, x);
    lemma_prefix_union_all(m, g);
    let n = m.spec_len() as int;
    let p1 = at_positions(m, f);
    let p2 = |i: int, x: u32| g(m@[m.spec_key(i)], x);
    assert forall|x: u32| #[trigger] prefix_union(p1, n).contains(x) == prefix_union(p2, n).contains(x) by {
        if prefix_union(p1, n).contains(x) {
            let i = choose|i: int| 0 <= i < n && #[trigger] p1(i, x);
            assert(m@.contains_key(m.spec_key(i)));
            assert(p2(i, x));
        }
        if prefix_union(p2, n).contains(x) {
            let i = choose|i: int| 0 <= i < n && #[trigger] p2(i, x);
            assert(m@.contains_key(m.spec_key(i)));
            assert(p1(i, x));
        }
    }
    assert(prefix_union(p1, n) =~= prefix_union(p2, n));
    let q = Set::new(|x: u32| exists|k: usize| #[trigger] m@.contains_key(k) && g(m@[k], x));
    assert forall|x: u32| #[trigger] union_over(crate_view(m), f).contains(x) == q.contains(x) by {
        if union_over(crate_view(m), f).contains(x) {
            let k = choose|k: usize| #[trigger] crate_view(m).contains_key(k) && f(crate_view(m)[k], x);
            assert(m@.contains_key(k) && g(m@[k], x));
        }
        if q.contains(x) {
            let k = choose|k: usize| #[trigger] m@.contains_key(k) && g(m@[k], x);
            assert(crate_view(m).contains_key(k) && f(crate_view(m)[k], x));
        }
    }
    assert(union_over(crate_view(m), f) =~= q);
}

/// Over all positions of `t`, the literals and exceptions of crate `c` are
/// those of all crates.
proof fn lemma_table_positions(t: RecordTable, c: Seq<char>)
    requires
        forall|i: int| 0 <= i < t.spec_len() ==> t@.contains_key(#[trigger] t.spec_key(i)),
        forall|k: Seq<char>| #[trigger] t@.contains_key(k) ==> exists|i: int| 0 <= i < t.spec_len() && t.spec_key(i) == k,
    ensures
        Set::<u32>::empty().union(prefix_union(literals_at(t, c), t.spec_len() as int)) == all_literals(table_view(t), c),
        Set::<u32>::empty().union(prefix_union(exceptions_at(t, c), t.spec_len() as int)) == all_exceptions(table_view(t), c),
{
    let n = t.spec_len() as int;
    let tv = table_view(t);
    assert forall|x: u32| #[trigger] prefix_union(literals_at(t, c), n).contains(x) == all_literals(tv, c).contains(x) by {
        if prefix_union(literals_at(t, c), n).contains(x) {
            let i = choose|i: int| 0 <= i < n && #[trigger] literals_at(t, c)(i, x);
            assert(tv.contains_key(t.spec_key(i)));
        }
        if all_literals(tv, c).contains(x) {
            let k = choose|k: Seq<char>| #[trigger] tv.contains_key(k) && crate_literals(tv[k], c).contains(x);
            let i = choose|i: int| 0 <= i < n && t.spec_key(i) == k;
            assert(literals_at(t, c)(i, x));
        }
    }
    assert forall|x: u32| #[trigger] prefix_union(exceptions_at(t, c), n).contains(x) == all_exceptions(tv, c).contains(x) by {
        if prefix_union(exceptions_at(t, c), n).contains(x) {
            let i = choose|i: int| 0 <= i < n && #[trigger] exceptions_at(t, c)(i, x);
            assert(tv.contains_key(t.spec_key(i)));
        }
        if all_exceptions(tv, c).contains(x) {
            let k = choose|k: Seq<char>| #[trigger] tv.contains_key(k) && crate_exceptions(tv[k], c).contains(x);
            let i = choose|i: int| 0 <= i < n && t.spec_key(i) == k;
            assert(exceptions_at(t, c)(i, x));
        }
    }
    assert(Set::<u32>::empty().union(prefix_union(literals_at(t, c), n)) =~= all_literals(tv, c));
    assert(Set::<u32>::empty().union(prefix_union(exceptions_at(t, c), n)) =~= all_exceptions(tv, c));
}

/// Adds the boxed literals and exceptions of one crate's records.
fn collect_crate(m: &CrateRecords, c: &String, defs: &mut KeySet<u32>, excepts: &mut KeySet<u32>)
    ensures
        final(defs)@ == old(defs)@.union(crate_literals(crate_view(*m), c@)),
        final(excepts)@ == old(excepts)@.union(crate_exceptions(crate_view(*m), c@)),
{
    let n = m.len();
    proof {
        assert(old(defs)@.union(prefix_union(at_positions(*m, literal_in(c@)), 0)) =~= old(defs)@);
        assert(old(excepts)@.union(prefix_union(at_positions(*m, exception_in(c@)), 0)) =~= old(excepts)@);
    }
    let mut j: usize = 0;
    while j < n
        invariant
            n == m.spec_len(),
            j <= n,
            forall|i: int| 0 <= i < n ==> m@.contains_key(#[trigger] m.spec_key(i)),
            forall|i: int| 0 <= i < n ==> m@[#[trigger] m.spec_key(i)] == m.spec_value(i),
            forall|k: usize| #[trigger] m@.contains_key(k) ==> exists|i: int| 0 <= i < n && m.spec_key(i) == k,
            defs@ == old(defs)@.union(prefix_union(at_positions(*m, literal_in(c@)), j as int)),
            excepts@ == old(excepts)@.union(prefix_union(at_positions(*m, exception_in(c@)), j as int)),
        decreases n - j,
    {
        let r = m.value_at(j);
        let ghost d0 = defs@;
        let ghost e0 = excepts@;
        if r.needs_box {
            match r.struct_defs.get(c) {
                Some(s) => defs.extend_from(s),
                None => {},
            }
            match r.except_defs.get(c) {
                Some(s) => excepts.extend_from(s),
                None => {},
            }
        }
        proof {
            assert(crate_view(*m)[m.spec_key(j as int)] == r@);
            let added_d = if r.needs_box { ids_at(r@.struct_defs, c@) } else { Set::<u32>::empty() };
            let added_e = if r.needs_box { ids_at(r@.except_defs, c@) } else { Set::<u32>::empty() };
            assert(defs@ =~= d0.union(added_d));
            assert(excepts@ =~= e0.union(added_e));
            lemma_prefix_union_step(old(defs)@, at_positions(*m, literal_in(c@)), j as int, added_d);
            lemma_prefix_union_step(old(excepts)@, at_positions(*m, exception_in(c@)), j as int, added_e);
        }
        j = j + 1;
    }
    proof {
        lemma_union_over_positions(*m, literal_in(c@));
        lemma_union_over_positions(*m, exception_in(c@));
    }
}

/// Adds the node ids of the records in `m` that need a box.
pub fn collect_boxed(m: &CrateRecords, structs: &mut KeySet<u32>)
    ensures
        final(structs)@ == old(structs)@.union(boxed_node_ids(crate_view(*m))),
{
    let n = m.len();
    proof {
        assert(old(structs)@.union(prefix_union(at_positions(*m, boxed_node()), 0)) =~= old(structs)@);
    }
    let mut j: usize = 0;
    while j < n
        invariant
            n == m.spec_len(),
            j <= n,
            forall|i: int| 0 <= i < n ==> m@.contains_key(#[trigger] m.spec_key(i)),
            forall|i: int| 0 <= i < n ==> m@[#[trigger] m.spec_key(i)] == m.spec_value(i),
            forall|k: usize| #[trigger] m@.contains_key(k) ==> exists|i: int| 0 <= i < n && m.spec_key(i) == k,
            structs@ == old(structs)@.union(prefix_union(at_positions(*m, boxed_node()), j as int)),
        decreases n - j,
    {
        let r = m.value_at(j);
        let ghost s0 = structs@;
        if r.needs_box {
            structs.insert(r.node_id);
        }
        proof {
            assert(crate_view(*m)[m.spec_key(j as int)] == r@);
            let added = if r.needs_box { Set::<u32>::empty().insert(r.node_id) } else { Set::<u32>::empty() };
            assert(structs@ =~= s0.union(added));
            lemma_prefix_union_step(old(structs)@, at_positions(*m, boxed_node()), j as int, added);
        }
        j = j + 1;
    }
    proof {
        lemma_union_over_positions(*m, boxed_node());
    }
}

/// Reads, from the records that every analysed crate saved, what the
/// compilation of crate `crate_name` needs.
pub fn load_analysis(parsed: &RecordTable, crate_name: &String) -> (r: AnalysisRecords)
    ensures
        r.structs@ == boxed_node_ids(records_of(table_view(*parsed), crate_name@)),
        r.struct_defs@ == all_literals(table_view(*parsed), crate_name@),
        r.except_defs@ == all_exceptions(table_view(*parsed), crate_name@),
{
    let mut result = AnalysisRecords::new();
    let ghost t = table_view(*parsed);
    match parsed.get(crate_name) {
        Some(own) => {
            collect_boxed(own, &mut result.structs);
            proof {
                assert(crate_view(*own) == records_of(t, crate_name@));
            }
        },
        None => {
            proof {
                assert(boxed_node_ids(records_of(t, crate_name@)) =~= Set::<u32>::empty());
            }
        },
    }
    proof {
        assert(result.structs@ =~= boxed_node_ids(records_of(t, crate_name@)));
    }
    let ghost none = Set::<u32>::empty();
    proof {
        assert(none.union(prefix_union(literals_at(*parsed, crate_name@), 0)) =~= result.struct_defs@);
        assert(none.union(prefix_union(exceptions_at(*parsed, crate_name@), 0)) =~= result.except_defs@);
    }
    let n = parsed.len();
    let mut k: usize = 0;
    while k < n
        invariant
            n == parsed.spec_len(),
            k <= n,
            t == table_view(*parsed),
            forall|i: int| 0 <= i < n ==> parsed@.contains_key(#[trigger] parsed.spec_key(i)),
            forall|i: int| 0 <= i < n ==> parsed@[#[trigger] parsed.spec_key(i)] == parsed.spec_value(i),
            forall|c: Seq<char>| #[trigger] parsed@.contains_key(c) ==> exists|i: int| 0 <= i < n && parsed.spec_key(i) == c,
            result.structs@ == boxed_node_ids(records_of(t, crate_name@)),
            result.struct_defs@ == none.union(prefix_union(literals_at(*parsed, crate_name@), k as int)),
            result.except_defs@ == none.union(prefix_union(exceptions_at(*parsed, crate_name@), k as int)),
        decreases n - k,
    {
        let m = parsed.value_at(k);
        collect_crate(m, crate_name, &mut result.struct_defs, &mut result.except_defs);
        proof {
            assert(parsed@[parsed.spec_key(k as int)] == *m);
            lemma_prefix_union_step(none, literals_at(*parsed, crate_name@), k as int, crate_literals(crate_view(*m), crate_name@));
            lemma_prefix_union_step(none, exceptions_at(*parsed, crate_name@), k as int, crate_exceptions(crate_view(*m), crate_name@));
        }
        k = k + 1;
    }
    proof {
        lemma_table_positions(*parsed, crate_name@);
    }
    result
}

} // verus!
