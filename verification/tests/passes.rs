use metasafe::def_id::DefId;
use metasafe::mir::{BasicBlock, Body, Operand, Place, Terminator, UnwindAction, NO_GENERIC_ARGS};
use metasafe::shadows::AddMetaSafeShadows;
use metasafe::validators::{
    decide, find_missing_validator, is_safe_crate, safe_crate_names, AddMetaSafeValidatorCalls, ArgFacts, CallFacts,
    ImplFacts, ValidatorDecision,
};

fn d(index: u32) -> DefId {
    DefId { krate: 1, index }
}

fn call(func: u32, args: Vec<Operand>, dest: u32, target: Option<usize>) -> BasicBlock {
    BasicBlock {
        terminator: Terminator::Call {
            func: fun(func, 0),
            args,
            destination: Place { local: dest },
            target,
            unwind: UnwindAction::Cleanup(9),
        },
        is_cleanup: false,
    }
}

fn fun(index: u32, generic_args: u64) -> Operand {
    Operand::Function { def: d(index), generic_args }
}

fn unwind_of(b: &BasicBlock) -> Option<UnwindAction> {
    match &b.terminator {
        Terminator::Call { unwind, .. } => Some(*unwind),
        _ => None,
    }
}

fn other(id: u64) -> BasicBlock {
    BasicBlock { terminator: Terminator::Other(id), is_cleanup: false }
}

fn target_of(b: &BasicBlock) -> Option<usize> {
    match &b.terminator {
        Terminator::Call { target, .. } => *target,
        _ => None,
    }
}

fn func_of(b: &BasicBlock) -> Option<Operand> {
    match &b.terminator {
        Terminator::Call { func, .. } => Some(*func),
        _ => None,
    }
}

fn args_of(b: &BasicBlock) -> Vec<Operand> {
    match &b.terminator {
        Terminator::Call { args, .. } => args.clone(),
        _ => vec![],
    }
}

fn dest_of(b: &BasicBlock) -> Option<Place> {
    match &b.terminator {
        Terminator::Call { destination, .. } => Some(*destination),
        _ => None,
    }
}

#[test]
fn shadows_pass_is_enabled_by_the_flag() {
    assert!(AddMetaSafeShadows.is_enabled(true));
    assert!(!AddMetaSafeShadows.is_enabled(false));
    assert!(AddMetaSafeValidatorCalls.is_enabled(true));
    assert!(!AddMetaSafeValidatorCalls.is_enabled(false));
}

#[test]
fn shadows_pass_puts_the_allocation_first() {
    let mut body = Body { blocks: vec![call(50, vec![], 0, Some(1)), other(7), other(8)], local_count: 4 };
    AddMetaSafeShadows.run_pass(&mut body, true, d(99));
    assert_eq!(body.blocks.len(), 4);
    assert_eq!(body.local_count, 5);
    assert_eq!(func_of(&body.blocks[0]), Some(Operand::Function { def: d(99), generic_args: NO_GENERIC_ARGS }));
    assert_eq!(args_of(&body.blocks[0]), vec![]);
    assert_eq!(dest_of(&body.blocks[0]), Some(Place { local: 4 }));
    assert_eq!(target_of(&body.blocks[0]), Some(3));
    assert_eq!(func_of(&body.blocks[3]), Some(fun(50, 0)));
    assert_eq!(target_of(&body.blocks[3]), Some(1));
    assert!(matches!(body.blocks[1].terminator, Terminator::Other(7)));
    assert!(matches!(body.blocks[2].terminator, Terminator::Other(8)));
}

#[test]
fn shadows_pass_on_empty_body() {
    let mut body = Body { blocks: vec![], local_count: 0 };
    AddMetaSafeShadows.run_pass(&mut body, true, d(99));
    assert_eq!(body.blocks.len(), 1);
    assert_eq!(target_of(&body.blocks[0]), None);
    assert_eq!(func_of(&body.blocks[0]), Some(Operand::Function { def: d(99), generic_args: NO_GENERIC_ARGS }));
}

#[test]
fn shadows_pass_leaves_other_functions_alone() {
    let mut body = Body { blocks: vec![other(1)], local_count: 2 };
    AddMetaSafeShadows.run_pass(&mut body, false, d(99));
    assert_eq!(body.blocks.len(), 1);
    assert_eq!(body.local_count, 2);
    assert!(matches!(body.blocks[0].terminator, Terminator::Other(1)));
}

#[test]
fn safe_crates_are_recognized() {
    assert_eq!(safe_crate_names().len(), 23);
    assert!(is_safe_crate(&"std".to_string()));
    assert!(is_safe_crate(&"portable-simd".to_string()));
    assert!(is_safe_crate(&"adler".to_string()));
    assert!(!is_safe_crate(&"my_crate".to_string()));
    assert!(!is_safe_crate(&"hashbrown".to_string()));
}

fn method_facts(first: Option<ArgFacts>, dest: Option<DefId>, validator: Option<DefId>, smart: bool) -> CallFacts {
    CallFacts {
        is_unsafe: true,
        impl_of: Some(ImplFacts { adt: Some(d(10)), validator, is_smart_pointer: smart }),
        first_arg: first,
        destination_adt: dest,
        destination_generic_args: 6,
    }
}

#[test]
fn decide_cases() {
    let arg = Operand::Move(Place { local: 3 });
    let dest = Place { local: 4 };
    let mut_self = Some(ArgFacts { peeled_adt: Some(d(10)), is_mut_ref: true, generic_args: 5 });
    let shared_self = Some(ArgFacts { peeled_adt: Some(d(10)), is_mut_ref: false, generic_args: 5 });
    let other_arg = Some(ArgFacts { peeled_adt: Some(d(11)), is_mut_ref: true, generic_args: 5 });

    let r = decide(&method_facts(mut_self, None, Some(d(20)), true), &vec![arg], dest);
    assert!(matches!(r, ValidatorDecision::Validate { operand, validator, generic_args: 5 } if operand == arg && validator == d(20)));

    let r = decide(&method_facts(shared_self, Some(d(10)), Some(d(20)), true), &vec![arg], dest);
    assert!(matches!(r, ValidatorDecision::Skip));

    let r = decide(&method_facts(other_arg, Some(d(10)), Some(d(20)), true), &vec![arg], dest);
    assert!(matches!(r, ValidatorDecision::Validate { operand: Operand::Copy(p), validator, generic_args: 6 } if p == dest && validator == d(20)));

    let r = decide(&method_facts(None, Some(d(10)), Some(d(20)), true), &vec![], dest);
    assert!(matches!(r, ValidatorDecision::Validate { operand: Operand::Copy(_), .. }));

    let r = decide(&method_facts(other_arg, None, Some(d(20)), true), &vec![arg], dest);
    assert!(matches!(r, ValidatorDecision::Skip));

    let r = decide(&method_facts(mut_self, None, None, true), &vec![arg], dest);
    assert!(matches!(r, ValidatorDecision::Missing));

    let r = decide(&method_facts(mut_self, None, None, false), &vec![arg], dest);
    assert!(matches!(r, ValidatorDecision::Skip));

    // a safe method that takes the struct by mutable reference is validated too
    let mut safe = method_facts(mut_self, None, Some(d(20)), true);
    safe.is_unsafe = false;
    assert!(matches!(decide(&safe, &vec![arg], dest), ValidatorDecision::Validate { operand, .. } if operand == arg));

    // a safe method of a smart pointer without a validator is no error
    let mut safe_missing = method_facts(mut_self, None, None, true);
    safe_missing.is_unsafe = false;
    assert!(matches!(decide(&safe_missing, &vec![arg], dest), ValidatorDecision::Skip));

    let mut free_fn = method_facts(mut_self, None, Some(d(20)), true);
    free_fn.impl_of = None;
    assert!(matches!(decide(&free_fn, &vec![arg], dest), ValidatorDecision::Skip));
}

#[test]
fn validator_pass_inserts_validator_blocks() {
    let arg = Operand::Copy(Place { local: 1 });
    let mut body = Body {
        blocks: vec![call(30, vec![arg], 2, Some(1)), call(31, vec![], 3, Some(2)), other(5)],
        local_count: 6,
    };
    let facts = vec![
        Some(method_facts(Some(ArgFacts { peeled_adt: Some(d(10)), is_mut_ref: true, generic_args: 5 }), None, Some(d(20)), true)),
        Some(method_facts(None, None, Some(d(21)), true)),
        None,
    ];
    assert_eq!(find_missing_validator(&body, &facts), None);
    AddMetaSafeValidatorCalls.run_pass(&mut body, &"app".to_string(), &facts);
    assert_eq!(body.blocks.len(), 4);
    assert_eq!(body.local_count, 7);
    assert_eq!(target_of(&body.blocks[0]), Some(3));
    assert_eq!(func_of(&body.blocks[0]), Some(fun(30, 0)));
    assert_eq!(func_of(&body.blocks[3]), Some(fun(20, 5)));
    assert_eq!(args_of(&body.blocks[3]), vec![arg]);
    assert_eq!(dest_of(&body.blocks[3]), Some(Place { local: 6 }));
    assert_eq!(unwind_of(&body.blocks[3]), Some(UnwindAction::Continue));
    assert_eq!(unwind_of(&body.blocks[0]), Some(UnwindAction::Cleanup(9)));
    assert_eq!(target_of(&body.blocks[3]), Some(1));
    assert_eq!(target_of(&body.blocks[1]), Some(2));
    assert!(matches!(body.blocks[2].terminator, Terminator::Other(5)));
}

#[test]
fn validator_pass_numbers_new_blocks_in_block_order() {
    let a = Operand::Move(Place { local: 1 });
    let b = Operand::Move(Place { local: 2 });
    let mut body = Body { blocks: vec![call(30, vec![a], 5, Some(1)), call(31, vec![b], 6, None)], local_count: 7 };
    let mut_self = Some(ArgFacts { peeled_adt: Some(d(10)), is_mut_ref: true, generic_args: 5 });
    let facts = vec![
        Some(method_facts(mut_self, None, Some(d(20)), true)),
        Some(method_facts(mut_self, None, Some(d(20)), true)),
    ];
    AddMetaSafeValidatorCalls.run_pass(&mut body, &"app".to_string(), &facts);
    assert_eq!(body.blocks.len(), 4);
    assert_eq!(target_of(&body.blocks[0]), Some(2));
    assert_eq!(target_of(&body.blocks[1]), Some(3));
    assert_eq!(args_of(&body.blocks[2]), vec![a]);
    assert_eq!(target_of(&body.blocks[2]), Some(1));
    assert_eq!(args_of(&body.blocks[3]), vec![b]);
    assert_eq!(target_of(&body.blocks[3]), None);
    assert_eq!(dest_of(&body.blocks[2]), Some(Place { local: 7 }));
    assert_eq!(dest_of(&body.blocks[3]), Some(Place { local: 8 }));
}

#[test]
fn validator_pass_skips_trusted_crates() {
    let arg = Operand::Copy(Place { local: 1 });
    let mut body = Body { blocks: vec![call(30, vec![arg], 2, Some(1))], local_count: 3 };
    let facts = vec![Some(method_facts(Some(ArgFacts { peeled_adt: Some(d(10)), is_mut_ref: true, generic_args: 5 }), None, Some(d(20)), true))];
    AddMetaSafeValidatorCalls.run_pass(&mut body, &"core".to_string(), &facts);
    assert_eq!(body.blocks.len(), 1);
    assert_eq!(body.local_count, 3);
    assert_eq!(target_of(&body.blocks[0]), Some(1));
}

#[test]
fn missing_validator_is_found() {
    let arg = Operand::Copy(Place { local: 1 });
    let body = Body { blocks: vec![other(0), call(30, vec![arg], 2, Some(1))], local_count: 3 };
    let facts = vec![None, Some(method_facts(None, None, None, true))];
    assert_eq!(find_missing_validator(&body, &facts), Some(1));
}

#[test]
fn validator_pass_validates_safe_mutating_methods() {
    let arg = Operand::Move(Place { local: 1 });
    let mut body = Body { blocks: vec![call(30, vec![arg], 2, Some(1)), other(4)], local_count: 3 };
    let mut facts = method_facts(Some(ArgFacts { peeled_adt: Some(d(10)), is_mut_ref: true, generic_args: 5 }), None, Some(d(20)), true);
    facts.is_unsafe = false;
    AddMetaSafeValidatorCalls.run_pass(&mut body, &"app".to_string(), &vec![Some(facts), None]);
    assert_eq!(body.blocks.len(), 3);
    assert_eq!(target_of(&body.blocks[0]), Some(2));
    assert_eq!(func_of(&body.blocks[2]), Some(fun(20, 5)));
    assert_eq!(args_of(&body.blocks[2]), vec![arg]);
    assert_eq!(target_of(&body.blocks[2]), Some(1));
}
