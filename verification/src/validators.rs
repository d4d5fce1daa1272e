//! The pass that runs a smart pointer's validator right after each of its
//! methods that may have changed its metadata: every method that takes it by
//! mutable reference, and every method that returns a new one, whether the
//! method is safe or unsafe.
use vstd::prelude::*;

use crate::def_id::DefId;
use crate::mir::{
    call_block, call_target, is_call_block, retarget_block, with_call_target, BasicBlock, Body, Operand, Place,
    Terminator,
};

verus! {

/// The crates whose code is trusted and never gets validator calls.
pub open spec fn safe_crates() -> Seq<Seq<char>> {
    seq![
        "std"@, "alloc"@, "backtrace"@, "core"@, "panic_abort"@, "panic_unwind"@, "portable-simd"@,
        "proc_macro"@, "profiler_builtins"@, "sysroot"@, "rustc"@, "stdarch"@, "rtstartup"@,
        "rustc_std_workspace_alloc"@, "rustc_std_workspace_core"@, "rustc_std_workspace_std"@,
        "std_detect"@, "hash_brown"@, "libc"@, "cfg_if"@, "unwind"@, "object"@, "adler"@,
    ]
}

/// The names of the crates whose code never gets validator calls.
pub fn safe_crate_names() -> (r: Vec<String>)
    ensures
        r@.map_values(|s: String| s@) == safe_crates(),
{
    let mut r: Vec<String> = Vec::new();
    r.push("std".to_owned());
    r.push("alloc".to_owned());
    r.push("backtrace".to_owned());
    r.push("core".to_owned());
    r.push("panic_abort".to_owned());
    r.push("panic_unwind".to_owned());
    r.push("portable-simd".to_owned());
    r.push("proc_macro".to_owned());
    r.push("profiler_builtins".to_owned());
    r.push("sysroot".to_owned());
    r.push("rustc".to_owned());
    r.push("stdarch".to_owned());
    r.push("rtstartup".to_owned());
    r.push("rustc_std_workspace_alloc".to_owned());
    r.push("rustc_std_workspace_core".to_owned());
    r.push("rustc_std_workspace_std".to_owned());
    r.push("std_detect".to_owned());
    r.push("hash_brown".to_owned());
    r.push("libc".to_owned());
    r.push("cfg_if".to_owned());
    r.push("unwind".to_owned());
    r.push("object".to_owned());
    r.push("adler".to_owned());
    assert(r@.map_values(|s: String| s@) =~= safe_crates());
    r
}

/// Whether `name` is one of the trusted crates.
pub fn is_safe_crate(name: &String) -> (r: bool)
    ensures
        r == safe_crates().contains(name@),
{
    let names = safe_crate_names();
    let ghost views = names@.map_values(|s: String| s@);
    let n = names.len();
    let mut i: usize = 0;
    while i < n
        invariant
            n == names@.len(),
            i <= n,
            views == names@.map_values(|s: String| s@),
            views == safe_crates(),
            forall|j: int| 0 <= j < i ==> views[j] != name@,
        decreases n - i,
    {
        if names[i] == *name {
            assert(views[i as int] == name@);
            return true;
        }
        i = i + 1;
    }
    proof {
        assert(!views.contains(name@)) by {
            if views.contains(name@) {
                let j = choose|j: int| 0 <= j < views.len() && views[j] == name@;
                assert(views[j] != name@);
            }
        }
    }
    false
}

/// What the pass reads of the `impl` block that a called method belongs to.
#[derive(Clone, Copy)]
pub struct ImplFacts {
    /// The struct the `impl` is for, if it is for a struct.
    pub adt: Option<DefId>,
    /// The validator of that struct, if it has one.
    pub validator: Option<DefId>,
    /// Whether the `impl` is for a smart pointer.
    pub is_smart_pointer: bool,
}

/// What the pass reads of the first argument of a call.
#[derive(Clone, Copy)]
pub struct ArgFacts {
    /// The struct that the argument's type names once references are peeled.
    pub peeled_adt: Option<DefId>,
    /// Whether the argument is a mutable reference.
    pub is_mut_ref: bool,
    /// The generic arguments of that struct type, by an id of the driver's choosing.
    pub generic_args: u64,
}

/// What the pass reads of a call of a function item.
#[derive(Clone, Copy)]
pub struct CallFacts {
    /// Whether the callee is an unsafe function.
    pub is_unsafe: bool,
    /// The `impl` block of the callee, when the callee is a method.
    pub impl_of: Option<ImplFacts>,
    pub first_arg: Option<ArgFacts>,
    /// The struct that the type of the call's destination names, references peeled.
    pub destination_adt: Option<DefId>,
    /// The generic arguments of that struct type, by an id of the driver's choosing.
    pub destination_generic_args: u64,
}

/// Whether and how a call is followed by a validator.
#[derive(Clone, Copy)]
pub enum ValidatorDecision {
    Skip,
    /// Call `validator`, instantiated with `generic_args`, on `operand` right after the call.
    Validate { operand: Operand, validator: DefId, generic_args: u64 },
    /// The callee is an unsafe method of a smart pointer that has no validator.
    Missing,
}

/// What the pass decides for a call with arguments `args` and destination `dest`.
pub open spec fn spec_decide(facts: CallFacts, args: Seq<Operand>, dest: Place) -> ValidatorDecision {
    match facts.impl_of {
        None => ValidatorDecision::Skip,
        Some(im) => match (im.adt, im.validator) {
            (Some(adt), Some(v)) => {
                if args.len() > 0 && facts.first_arg is Some && facts.first_arg->0.peeled_adt == Some(adt) {
                    if facts.first_arg->0.is_mut_ref {
                        ValidatorDecision::Validate {
                            operand: args[0],
                            validator: v,
                            generic_args: facts.first_arg->0.generic_args,
                        }
                    } else {
                        ValidatorDecision::Skip
                    }
                } else if facts.destination_adt == Some(adt) {
                    ValidatorDecision::Validate {
                        operand: Operand::Copy(dest),
                        validator: v,
                        generic_args: facts.destination_generic_args,
                    }
                } else {
                    ValidatorDecision::Skip
                }
            },
            _ => if facts.is_unsafe && im.is_smart_pointer {
                ValidatorDecision::Missing
            } else {
                ValidatorDecision::Skip
            },
        },
    }
}

/// What the pass decides for block `b`, whose call facts are `f`.
pub open spec fn block_decision(b: BasicBlock, f: Option<CallFacts>) -> ValidatorDecision {
    match (b.terminator, f) {
        (Terminator::Call { args, destination, .. }, Some(facts)) => spec_decide(facts, args@, destination),
        _ => ValidatorDecision::Skip,
    }
}

/// The validator calls to add for `blocks[..k]`, in block order: the block,
/// the operand to validate, the validator and its generic arguments.
pub open spec fn sites_upto(blocks: Seq<BasicBlock>, facts: Seq<Option<CallFacts>>, k: int) -> Seq<(usize, Operand, DefId, u64)>
    decreases k,
{
    if k <= 0 {
        Seq::empty()
    } else {
        let before = sites_upto(blocks, facts, k - 1);
        match block_decision(blocks[k - 1], facts[k - 1]) {
            ValidatorDecision::Validate { operand, validator, generic_args } => before.push(
                ((k - 1) as usize, operand, validator, generic_args),
            ),
            _ => before,
        }
    }
}

/// Decides for one call.
pub fn decide(facts: &CallFacts, args: &Vec<Operand>, dest: Place) -> (r: ValidatorDecision)
    ensures
        r == spec_decide(*facts, args@, dest),
{
    match facts.impl_of {
        None => ValidatorDecision::Skip,
        Some(im) => match (im.adt, im.validator) {
            (Some(adt), Some(v)) => {
                let first_matches = match facts.first_arg {
                    Some(fa) => args.len() > 0 && same_adt(fa.peeled_adt, adt),
                    None => false,
                };
                if first_matches {
                    let fa = facts.first_arg.unwrap();
                    if fa.is_mut_ref {
                        ValidatorDecision::Validate { operand: args[0], validator: v, generic_args: fa.generic_args }
                    } else {
                        ValidatorDecision::Skip
                    }
                } else if same_adt(facts.destination_adt, adt) {
                    ValidatorDecision::Validate {
                        operand: Operand::Copy(dest),
                        validator: v,
                        generic_args: facts.destination_generic_args,
                    }
                } else {
                    ValidatorDecision::Skip
                }
            },
            _ => if facts.is_unsafe && im.is_smart_pointer {
                ValidatorDecision::Missing
            } else {
                ValidatorDecision::Skip
            },
        },
    }
}

fn same_adt(a: Option<DefId>, b: DefId) -> (r: bool)
    ensures
        r == (a == Some(b)),
{
    match a {
        Some(x) => x.krate == b.krate && x.index == b.index,
        None => false,
    }
}

/// Decides for one block.
pub fn decide_block(b: &BasicBlock, f: &Option<CallFacts>) -> (r: ValidatorDecision)
    ensures
        r == block_decision(*b, *f),
{
    match (&b.terminator, f) {
        (Terminator::Call { args, destination, .. }, Some(facts)) => decide(facts, args, *destination),
        _ => ValidatorDecision::Skip,
    }
}


/// Where `sites_upto` stands: its blocks come in increasing order, below `k`,
/// and they are exactly the blocks that get a validator.
pub proof fn lemma_sites(blocks: Seq<BasicBlock>, facts: Seq<Option<CallFacts>>, k: int)
    requires
        0 <= k <= blocks.len(),
        blocks.len() <= usize::MAX,
        facts.len() == blocks.len(),
    ensures
        forall|a: int, b: int| 0 <= a < b < sites_upto(blocks, facts, k).len()
            ==> #[trigger] sites_upto(blocks, facts, k)[a].0 < #[trigger] sites_upto(blocks, facts, k)[b].0,
        forall|a: int| 0 <= a < sites_upto(blocks, facts, k).len() ==> {
            let s = #[trigger] sites_upto(blocks, facts, k)[a];
            &&& s.0 < k
            &&& block_decision(blocks[s.0 as int], facts[s.0 as int]) == ValidatorDecision::Validate {
                operand: s.1,
                validator: s.2,
                generic_args: s.3,
            }
        },
        forall|i: int| 0 <= i < k && (#[trigger] block_decision(blocks[i], facts[i])) is Validate
            ==> exists|a: int| 0 <= a < sites_upto(blocks, facts, k).len() && sites_upto(blocks, facts, k)[a].0 == i,
        sites_upto(blocks, facts, k).len() <= k,
    decreases k,
{
    if k > 0 {
        lemma_sites(blocks, facts, k - 1);
        let before = sites_upto(blocks, facts, k - 1);
        let now = sites_upto(blocks, facts, k);
        assert forall|i: int| 0 <= i < k && (#[trigger] block_decision(blocks[i], facts[i])) is Validate
            implies exists|a: int| 0 <= a < now.len() && now[a].0 == i by {
            if i < k - 1 {
                let a = choose|a: int| 0 <= a < before.len() && before[a].0 == i;
                assert(now[a] == before[a]);
            } else {
                match block_decision(blocks[k - 1], facts[k - 1]) {
                    ValidatorDecision::Validate { operand, validator, generic_args } => {
                        assert(now == before.push(((k - 1) as usize, operand, validator, generic_args)));
                        assert(now[now.len() - 1].0 == i);
                    },
                    _ => {},
                }
            }
        }
    }
}

/// The first block for which the pass would find a smart pointer without a
/// validator, if any.
pub fn find_missing_validator(body: &Body, facts: &Vec<Option<CallFacts>>) -> (r: Option<usize>)
    requires
        facts@.len() == body.blocks@.len(),
    ensures
        match r {
            Some(i) => i < body.blocks@.len() && block_decision(body.blocks@[i as int], facts@[i as int]) is Missing,
            None => forall|i: int| 0 <= i < body.blocks@.len() ==> !(#[trigger] block_decision(body.blocks@[i], facts@[i]) is Missing),
        },
{
    let n = body.blocks.len();
    let mut i: usize = 0;
    while i < n
        invariant
            n == body.blocks@.len(),
            facts@.len() == n,
            i <= n,
            forall|j: int| 0 <= j < i ==> !(#[trigger] block_decision(body.blocks@[j], facts@[j]) is Missing),
        decreases n - i,
    {
        match decide_block(&body.blocks[i], &facts[i]) {
            ValidatorDecision::Missing => return Some(i),
            _ => {},
        }
        i = i + 1;
    }
    None
}

pub struct AddMetaSafeValidatorCalls;

impl AddMetaSafeValidatorCalls {
    /// The pass runs when MetaSafe is switched on.
    pub fn is_enabled(&self, metaupdate: bool) -> (r: bool)
        ensures
            r == metaupdate,
    {
        metaupdate
    }

    /// Rewrites `body`, a function of crate `crate_name`: unless the crate is
    /// trusted, every call that gets a validator now continues at a new block
    /// that calls the validator and then goes where the call went.
    /// `facts[i]` describes the call that ends block `i`, if it calls a function item.
    pub fn run_pass(&self, body: &mut Body, crate_name: &String, facts: &Vec<Option<CallFacts>>)
        requires
            facts@.len() == old(body).blocks@.len(),
            !safe_crates().contains(crate_name@) ==> forall|i: int| 0 <= i < old(body).blocks@.len()
                ==> !(#[trigger] block_decision(old(body).blocks@[i], facts@[i]) is Missing),
            old(body).local_count + old(body).blocks@.len() <= u32::MAX,
        ensures
            safe_crates().contains(crate_name@) ==> *final(body) == *old(body),
            !safe_crates().contains(crate_name@) ==> {
                let n = old(body).blocks@.len();
                let l = old(body).local_count;
                let s = sites_upto(old(body).blocks@, facts@, n as int);
                &&& final(body).blocks@.len() == n + s.len()
                &&& final(body).local_count == l + s.len()
                &&& forall|k: int| 0 <= k < s.len() ==> is_call_block(
                    #[trigger] final(body).blocks@[n + k],
                    Operand::Function { def: s[k].2, generic_args: s[k].3 },
                    seq![s[k].1],
                    Place { local: (l + k) as u32 },
                    call_target(old(body).blocks@[s[k].0 as int]),
                )
                &&& forall|k: int| 0 <= k < s.len() ==> final(body).blocks@[#[trigger] s[k].0 as int]
                    == with_call_target(old(body).blocks@[s[k].0 as int], Some((n + k) as usize))
                &&& forall|i: int| 0 <= i < n && !(block_decision(old(body).blocks@[i], facts@[i]) is Validate)
                    ==> #[trigger] final(body).blocks@[i] == old(body).blocks@[i]
            },
    {
        if is_safe_crate(crate_name) {
            return;
        }
        let n = body.blocks.len();
        let ghost blocks0 = body.blocks@;
        let ghost l = body.local_count;
        let mut plan: Vec<(usize, Operand, DefId, u64)> = Vec::new();
        let mut i: usize = 0;
        while i < n
            invariant
                n == body.blocks@.len(),
                facts@.len() == n,
                i <= n,
                plan@ == sites_upto(body.blocks@, facts@, i as int),
            decreases n - i,
        {
            match decide_block(&body.blocks[i], &facts[i]) {
                ValidatorDecision::Validate { operand, validator, generic_args } => plan.push(
                    (i, operand, validator, generic_args),
                ),
                _ => {},
            }
            i = i + 1;
        }
        proof {
            lemma_sites(blocks0, facts@, n as int);
        }
        let ghost s = plan@;
        let m = plan.len();
        let mut k: usize = 0;
        while k < m
            invariant
                m == s.len(),
                s == plan@,
                s == sites_upto(blocks0, facts@, n as int),
                n == blocks0.len(),
                facts@.len() == n,
                m <= n,
                k <= m,
                l + n <= u32::MAX,
                body.blocks@.len() == n + k,
                body.local_count == l + k,
                forall|a: int, b: int| 0 <= a < b < s.len() ==> #[trigger] s[a].0 < #[trigger] s[b].0,
                forall|a: int| 0 <= a < s.len() ==> #[trigger] s[a].0 < n,
                forall|j: int| 0 <= j < k ==> is_call_block(
                    #[trigger] body.blocks@[n + j],
                    Operand::Function { def: s[j].2, generic_args: s[j].3 },
                    seq![s[j].1],
                    Place { local: (l + j) as u32 },
                    call_target(blocks0[s[j].0 as int]),
                ),
                forall|j: int| 0 <= j < k ==> body.blocks@[#[trigger] s[j].0 as int]
                    == with_call_target(blocks0[s[j].0 as int], Some((n + j) as usize)),
                forall|i: int| 0 <= i < n && (forall|j: int| 0 <= j < k ==> #[trigger] s[j].0 != i)
                    ==> #[trigger] body.blocks@[i] == blocks0[i],
            decreases m - k,
        {
            let (idx, operand, validator, generic_args) = plan[k];
            proof {
                assert(s[k as int].0 == idx);
                assert(body.blocks@[idx as int] == blocks0[idx as int]) by {
                    assert forall|j: int| 0 <= j < k implies #[trigger] s[j].0 != idx by {
                        assert(s[j].0 < s[k as int].0);
                    }
                }
            }
            let new_idx = body.blocks.len();
            let temp = Place { local: body.local_count };
            body.local_count = body.local_count + 1;
            let target = call_target_of(&body.blocks[idx]);
            let mut args: Vec<Operand> = Vec::new();
            args.push(operand);
            let block = call_block(Operand::Function { def: validator, generic_args }, args, temp, target);
            body.blocks.push(block);
            retarget_block(&mut body.blocks, idx, Some(new_idx));
            k = k + 1;
            proof {
                assert(args@ =~= seq![s[k - 1].1]);
                assert forall|j: int| 0 <= j < k implies is_call_block(
                    #[trigger] body.blocks@[n + j],
                    Operand::Function { def: s[j].2, generic_args: s[j].3 },
                    seq![s[j].1],
                    Place { local: (l + j) as u32 },
                    call_target(blocks0[s[j].0 as int]),
                ) by {
                    assert(n + j != idx);
                }
                assert forall|j: int| 0 <= j < k implies body.blocks@[#[trigger] s[j].0 as int]
                    == with_call_target(blocks0[s[j].0 as int], Some((n + j) as usize)) by {
                    if j < k - 1 {
                        assert(s[j].0 < s[k - 1].0);
                    }
                }
            }
        }
    }
}

/// The target of the call that ends `b`.
fn call_target_of(b: &BasicBlock) -> (r: Option<usize>)
    ensures
        r == call_target(*b),
{
    match &b.terminator {
        Terminator::Call { target, .. } => *target,
        _ => None,
    }
}

} // verus!
