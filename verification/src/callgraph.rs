//! The call graph of a program: every call site gets an id, and each callee
//! knows the ids of the sites that call it.
use vstd::prelude::*;

use crate::collections::{lemma_map_values_insert, AssocMap, KeySet};
use crate::def_id::DefId;

verus! {

/// One call: the calling function and the called one.
pub struct CallSite {
    caller: DefId,
    callee: DefId,
}

impl CallSite {
    fn new(caller: DefId, callee: DefId) -> (r: Self)
        ensures
            r.spec_caller() == caller,
            r.spec_callee() == callee,
    {
        Self { caller, callee }
    }

    pub closed spec fn spec_caller(&self) -> DefId {
        self.caller
    }

    pub closed spec fn spec_callee(&self) -> DefId {
        self.callee
    }

    pub fn caller(&self) -> (r: DefId)
        ensures
            r == self.spec_caller(),
    {
        self.caller
    }

    pub fn callee(&self) -> (r: DefId)
        ensures
            r == self.spec_callee(),
    {
        self.callee
    }
}

/// A function of the program as the call graph reads it: its definition and,
/// for each call in its body, the called definition (`None` where the callee
/// is neither a function item nor a closure).
pub struct MonoFn {
    pub def_id: DefId,
    pub calls: Vec<Option<DefId>>,
}

/// The edges that the calls `calls[..k]` of `caller` contribute, in order.
pub open spec fn call_edges(caller: DefId, calls: Seq<Option<DefId>>, k: int) -> Seq<(DefId, DefId)>
    decreases k,
{
    if k <= 0 {
        Seq::empty()
    } else {
        let before = call_edges(caller, calls, k - 1);
        match calls[k - 1] {
            Some(callee) => before.push((caller, callee)),
            None => before,
        }
    }
}

/// Whether `fns[i]` is the first function with its definition.
pub open spec fn first_occurrence(fns: Seq<MonoFn>, i: int) -> bool {
    forall|j: int| 0 <= j < i ==> #[trigger] fns[j].def_id != fns[i].def_id
}

/// The edges of `fns[..k]`, each function counted once, in order.
pub open spec fn graph_edges(fns: Seq<MonoFn>, k: int) -> Seq<(DefId, DefId)>
    decreases k,
{
    if k <= 0 {
        Seq::empty()
    } else if first_occurrence(fns, k - 1) {
        graph_edges(fns, k - 1) + call_edges(fns[k - 1].def_id, fns[k - 1].calls@, fns[k - 1].calls@.len() as int)
    } else {
        graph_edges(fns, k - 1)
    }
}

/// The call sites of a sequence of edges: id `i` is edge `i`.
pub open spec fn sites_of(e: Seq<(DefId, DefId)>) -> Map<usize, (DefId, DefId)> {
    Map::new(|i: usize| i < e.len(), |i: usize| e[i as int])
}

/// The ids of the sites of `e` that call `f`.
pub open spec fn sites_calling(e: Seq<(DefId, DefId)>, f: DefId) -> Set<usize> {
    Set::new(|i: usize| i < e.len() && e[i as int].1 == f)
}

/// Per callee, the ids of the sites that call it.
pub open spec fn callers_index(e: Seq<(DefId, DefId)>) -> Map<DefId, Set<usize>> {
    Map::new(|f: DefId| exists|i: usize| i < e.len() && #[trigger] e[i as int].1 == f, |f: DefId| sites_calling(e, f))
}

pub struct CallGraph {
    next_callsite_id: usize,
    callsites: AssocMap<usize, CallSite>,
    function2callsite: AssocMap<DefId, KeySet<usize>>,
}

impl CallGraph {
    /// The next id to hand out.
    pub closed spec fn spec_next_id(&self) -> nat {
        self.next_callsite_id as nat
    }

    /// The call sites, by id.
    pub closed spec fn sites(&self) -> Map<usize, (DefId, DefId)> {
        self.callsites@.map_values(|c: CallSite| (c.caller, c.callee))
    }

    /// Per callee, the ids of the sites that call it.
    pub closed spec fn callers(&self) -> Map<DefId, Set<usize>> {
        self.function2callsite@.map_values(|s: KeySet<usize>| s@)
    }

    /// The graph holds exactly the edges `e`, site `i` being edge `i`.
    pub open spec fn holds(&self, e: Seq<(DefId, DefId)>) -> bool {
        &&& self.spec_next_id() == e.len()
        &&& self.sites() == sites_of(e)
        &&& self.callers() == callers_index(e)
    }

    pub fn new() -> (r: Self)
        ensures
            r.holds(Seq::empty()),
    {
        let r = Self { next_callsite_id: 0, callsites: AssocMap::new(), function2callsite: AssocMap::new() };
        assert(r.sites() =~= sites_of(Seq::empty()));
        assert(r.callers() =~= callers_index(Seq::empty()));
        r
    }

    fn next_callsite_id(&mut self) -> (r: usize)
        requires
            old(self).spec_next_id() < usize::MAX,
        ensures
            r == old(self).spec_next_id(),
            final(self).spec_next_id() == old(self).spec_next_id() + 1,
            final(self).callsites == old(self).callsites,
            final(self).function2callsite == old(self).function2callsite,
    {
        let id = self.next_callsite_id;
        self.next_callsite_id = self.next_callsite_id + 1;
        id
    }

    /// Gives the call from `caller` to `callee` the next id.
    pub fn record_call(&mut self, caller: DefId, callee: DefId)
        requires
            old(self).spec_next_id() < usize::MAX,
        ensures
            forall|e: Seq<(DefId, DefId)>| old(self).holds(e) ==> final(self).holds(#[trigger] e.push((caller, callee))),
            final(self).spec_next_id() == old(self).spec_next_id() + 1,
    {
        let id = self.next_callsite_id();
        let site = CallSite::new(caller, callee);
        let ghost sv = site;
        self.callsites.insert(id, site);
        proof {
            lemma_map_values_insert(old(self).callsites@, id, sv, |c: CallSite| (c.caller, c.callee));
        }
        match self.function2callsite.find(&callee) {
            Some(i) => {
                let mut s = self.function2callsite.replace_at(i, KeySet::new());
                s.insert(id);
                let ghost s2 = s;
                let _ = self.function2callsite.replace_at(i, s);
                proof {
                    assert(self.function2callsite@ =~= old(self).function2callsite@.insert(callee, s2));
                    lemma_map_values_insert(old(self).function2callsite@, callee, s2, |s: KeySet<usize>| s@);
                }
            },
            None => {
                let mut s = KeySet::new();
                s.insert(id);
                let ghost s2 = s;
                self.function2callsite.insert(callee, s);
                proof {
                    lemma_map_values_insert(old(self).function2callsite@, callee, s2, |s: KeySet<usize>| s@);
                }
            },
        }
        proof {
            assert forall|e: Seq<(DefId, DefId)>| old(self).holds(e) implies self.holds(#[trigger] e.push((caller, callee))) by {
                let e2 = e.push((caller, callee));
                assert(self.sites() =~= sites_of(e2));
                assert(self.callers() =~= callers_index(e2)) by {
                    assert forall|f: DefId| #[trigger] self.callers().contains_key(f) == callers_index(e2).contains_key(f) by {
                        if f == callee {
                            assert(e2[id as int].1 == f);
                        } else if callers_index(e2).contains_key(f) {
                            let i = choose|i: usize| i < e2.len() && #[trigger] e2[i as int].1 == f;
                            assert(e[i as int].1 == f);
                        } else if old(self).callers().contains_key(f) {
                            let i = choose|i: usize| i < e.len() && #[trigger] e[i as int].1 == f;
                            assert(e2[i as int].1 == f);
                        }
                    }
                    assert forall|f: DefId| #[trigger] self.callers().contains_key(f) implies self.callers()[f] == callers_index(e2)[f] by {
                        if f == callee {
                            if old(self).callers().contains_key(f) {
                                assert(old(self).callers()[f] == sites_calling(e, f));
                                assert(self.callers()[f] == sites_calling(e, f).insert(id));
                                assert(self.callers()[f] =~= sites_calling(e2, f)) by {
                                    assert forall|i: usize| sites_calling(e2, f).contains(i) implies sites_calling(e, f).insert(id).contains(i) by {
                                        if i < e.len() {
                                            assert(e2[i as int] == e[i as int]);
                                        }
                                    }
                                    assert forall|i: usize| sites_calling(e, f).insert(id).contains(i) implies sites_calling(e2, f).contains(i) by {
                                        if i < e.len() {
                                            assert(e2[i as int] == e[i as int]);
                                        }
                                    }
                                }
                            } else {
                                assert(self.callers()[f] =~= sites_calling(e2, f)) by {
                                    assert forall|i: usize| sites_calling(e2, f).contains(i) implies i == id by {
                                        if i < e.len() {
                                            assert(e[i as int].1 == f);
                                        }
                                    }
                                }
                            }
                        } else {
                            assert(self.callers()[f] =~= sites_calling(e2, f));
                        }
                    }
                }
            }
        }
    }

    /// The number of call sites, which is also the next id to hand out.
    pub fn num_callsites(&self) -> (r: usize)
        ensures
            r == self.spec_next_id(),
    {
        self.next_callsite_id
    }

    /// The caller and callee of site `id`, if there is such a site.
    pub fn callsite(&self, id: usize) -> (r: Option<(DefId, DefId)>)
        ensures
            r == if self.sites().contains_key(id) {
                Some(self.sites()[id])
            } else {
                None
            },
    {
        match self.callsites.get(&id) {
            Some(c) => Some((c.caller(), c.callee())),
            None => None,
        }
    }

    /// The ids of the sites that call `f`, if any site does.
    pub fn callers_of(&self, f: DefId) -> (r: Option<&KeySet<usize>>)
        ensures
            match r {
                Some(s) => self.callers().contains_key(f) && s@ == self.callers()[f],
                None => !self.callers().contains_key(f),
            },
    {
        self.function2callsite.get(&f)
    }

    /// Builds the call graph from the program's functions when the program has
    /// a local entry function; otherwise the graph is empty.
    pub fn build(has_local_entry: bool, fns: &Vec<MonoFn>) -> (r: Self)
        requires
            graph_edges(fns@, fns@.len() as int).len() <= usize::MAX,
        ensures
            has_local_entry ==> r.holds(graph_edges(fns@, fns@.len() as int)),
            !has_local_entry ==> r.holds(Seq::empty()),
    {
        let mut call_graph = Self::new();
        if has_local_entry {
            let mut visited: KeySet<DefId> = KeySet::new();
            let n = fns.len();
            let mut k: usize = 0;
            while k < n
                invariant
                    n == fns@.len(),
                    k <= n,
                    graph_edges(fns@, n as int).len() <= usize::MAX,
                    call_graph.holds(graph_edges(fns@, k as int)),
                    visited@ == Set::new(|d: DefId| exists|j: int| 0 <= j < k && #[trigger] fns@[j].def_id == d),
                decreases n - k,
            {
                proof {
                    lemma_graph_edges_grow(fns@, k as int, n as int);
                }
                let f = &fns[k];
                let fresh = visited.insert(f.def_id);
                proof {
                    assert(fresh == first_occurrence(fns@, k as int)) by {
                        if !fresh {
                            let j = choose|j: int| 0 <= j < k && #[trigger] fns@[j].def_id == f.def_id;
                            assert(fns@[j].def_id == fns@[k as int].def_id);
                        }
                    }
                }
                if fresh {
                    let ghost base = graph_edges(fns@, k as int);
                    let m = f.calls.len();
                    let mut c: usize = 0;
                    while c < m
                        invariant
                            m == f.calls@.len(),
                            c <= m,
                            f == fns@[k as int],
                            k < n,
                            n == fns@.len(),
                            graph_edges(fns@, n as int).len() <= usize::MAX,
                            base == graph_edges(fns@, k as int),
                            first_occurrence(fns@, k as int),
                            call_graph.holds(base + call_edges(f.def_id, f.calls@, c as int)),
                        decreases m - c,
                    {
                        proof {
                            lemma_call_edges_grow(f.def_id, f.calls@, c as int + 1, m as int);
                            lemma_graph_edges_grow(fns@, k as int + 1, n as int);
                        }
                        match f.calls[c] {
                            Some(callee) => {
                                let ghost before = base + call_edges(f.def_id, f.calls@, c as int);
                                call_graph.record_call(f.def_id, callee);
                                proof {
                                    assert(before.push((f.def_id, callee)) =~= base + call_edges(f.def_id, f.calls@, c as int + 1));
                                }
                            },
                            None => {},
                        }
                        c = c + 1;
                    }
                }
                k = k + 1;
                proof {
                    assert(visited@ =~= Set::new(|d: DefId| exists|j: int| 0 <= j < k && #[trigger] fns@[j].def_id == d)) by {
                        assert(fns@[k - 1].def_id == f.def_id);
                    }
                    if !fresh {
                        assert(graph_edges(fns@, k as int) == graph_edges(fns@, k - 1));
                    }
                }
            }
        }
        call_graph
    }
}

/// Later calls only add edges.
pub proof fn lemma_call_edges_grow(caller: DefId, calls: Seq<Option<DefId>>, a: int, b: int)
    requires
        0 <= a <= b,
    ensures
        call_edges(caller, calls, a).len() <= call_edges(caller, calls, b).len(),
    decreases b - a,
{
    if a < b {
        lemma_call_edges_grow(caller, calls, a, b - 1);
    }
}

/// Later functions only add edges.
pub proof fn lemma_graph_edges_grow(fns: Seq<MonoFn>, a: int, b: int)
    requires
        0 <= a <= b,
    ensures
        graph_edges(fns, a).len() <= graph_edges(fns, b).len(),
    decreases b - a,
{
    if a < b {
        lemma_graph_edges_grow(fns, a, b - 1);
    }
}

} // verus!
