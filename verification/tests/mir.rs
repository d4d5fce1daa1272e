use metasafe::def_id::DefId;
use metasafe::mir::{call_block, placeholder_block, retarget_block, set_call_target, swap_blocks, BasicBlock, Operand, Place, Terminator};

fn tag(b: &BasicBlock) -> Option<u64> {
    match b.terminator {
        Terminator::Other(t) => Some(t),
        _ => None,
    }
}

#[test]
fn swap_blocks_exchanges_two_blocks() {
    let mut v = vec![placeholder_block(), BasicBlock { terminator: Terminator::Other(1), is_cleanup: true }, BasicBlock {
        terminator: Terminator::Other(2),
        is_cleanup: false,
    }];
    swap_blocks(&mut v, 1, 2);
    assert_eq!(tag(&v[1]), Some(2));
    assert_eq!(tag(&v[2]), Some(1));
    assert!(v[2].is_cleanup);
    swap_blocks(&mut v, 0, 0);
    assert_eq!(tag(&v[0]), Some(0));
}

#[test]
fn retarget_changes_only_calls() {
    let f = Operand::Function { def: DefId { krate: 0, index: 3 }, generic_args: 0 };
    let mut v = vec![call_block(f, vec![], Place { local: 1 }, None), placeholder_block()];
    retarget_block(&mut v, 0, Some(1));
    retarget_block(&mut v, 1, Some(0));
    assert!(matches!(v[0].terminator, Terminator::Call { target: Some(1), .. }));
    assert_eq!(tag(&v[1]), Some(0));
    let drop = BasicBlock { terminator: Terminator::Drop { place: Place { local: 2 }, next: 4 }, is_cleanup: false };
    let same = set_call_target(drop, Some(9));
    assert!(matches!(same.terminator, Terminator::Drop { next: 4, .. }));
}
