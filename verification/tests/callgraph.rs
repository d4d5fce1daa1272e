use metasafe::callgraph::{CallGraph, MonoFn};
use metasafe::def_id::DefId;

fn d(index: u32) -> DefId {
    DefId { krate: 0, index }
}

fn sorted(g: &CallGraph, f: DefId) -> Vec<usize> {
    let mut v = Vec::new();
    if let Some(s) = g.callers_of(f) {
        for i in 0..s.len() {
            v.push(*s.item_at(i));
        }
    }
    v.sort();
    v
}

#[test]
fn new_graph_is_empty() {
    let g = CallGraph::new();
    assert_eq!(g.num_callsites(), 0);
    assert_eq!(g.callsite(0), None);
}

#[test]
fn build_numbers_sites_in_order_and_skips_repeated_functions() {
    let fns = vec![
        MonoFn { def_id: d(1), calls: vec![Some(d(2)), None, Some(d(3))] },
        MonoFn { def_id: d(2), calls: vec![Some(d(3))] },
        MonoFn { def_id: d(1), calls: vec![Some(d(9))] },
        MonoFn { def_id: d(3), calls: vec![] },
    ];
    let g = CallGraph::build(true, &fns);
    assert_eq!(g.num_callsites(), 3);
    assert_eq!(g.callsite(0), Some((d(1), d(2))));
    assert_eq!(g.callsite(1), Some((d(1), d(3))));
    assert_eq!(g.callsite(2), Some((d(2), d(3))));
    assert_eq!(g.callsite(3), None);
    assert_eq!(sorted(&g, d(3)), vec![1, 2]);
    assert_eq!(sorted(&g, d(2)), vec![0]);
    assert!(g.callers_of(d(9)).is_none());
    assert!(g.callers_of(d(1)).is_none());
}

#[test]
fn build_without_local_entry_is_empty() {
    let fns = vec![MonoFn { def_id: d(1), calls: vec![Some(d(2))] }];
    let g = CallGraph::build(false, &fns);
    assert_eq!(g.num_callsites(), 0);
    assert!(g.callers_of(d(2)).is_none());
}

#[test]
fn record_call_appends_one_site() {
    let mut g = CallGraph::new();
    g.record_call(d(5), d(6));
    g.record_call(d(7), d(6));
    assert_eq!(g.num_callsites(), 2);
    assert_eq!(g.callsite(1), Some((d(7), d(6))));
    assert_eq!(sorted(&g, d(6)), vec![0, 1]);
}
