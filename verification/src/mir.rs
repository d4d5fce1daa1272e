//! The parts of a function's control-flow graph that the MetaSafe passes read
//! and rewrite: its basic blocks, their terminators, and its number of locals.
use vstd::prelude::*;

use crate::def_id::DefId;

verus! {

/// A local variable of the function.
#[derive(Clone, Copy, Debug, PartialEq, Eq, Structural)]
pub struct Place {
    pub local: u32,
}

/// An operand of a call.
#[derive(Clone, Copy, Debug, PartialEq, Eq, Structural)]
pub enum Operand {
    Copy(Place),
    Move(Place),
    /// A handle of function item `def` instantiated with the generic
    /// arguments `generic_args`, a list named by an id of the driver's
    /// choosing ([`NO_GENERIC_ARGS`] for the empty list).
    Function { def: DefId, generic_args: u64 },
    /// Any other constant, by an id of the driver's choosing.
    Constant(u64),
}

/// The id of the empty list of generic arguments.
pub const NO_GENERIC_ARGS: u64 = 0u64;

/// Where a call goes when the callee unwinds.
#[derive(Clone, Copy, Debug, PartialEq, Eq, Structural)]
pub enum UnwindAction {
    /// Unwinding goes on to the caller's caller.
    Continue,
    Unreachable,
    Terminate,
    /// Unwinding goes to this cleanup block.
    Cleanup(usize),
}

/// How a basic block ends.
pub enum Terminator {
    /// A call; `target` is the block that runs after it returns.
    Call { func: Operand, args: Vec<Operand>, destination: Place, target: Option<usize>, unwind: UnwindAction },
    /// A drop of a place, continuing at block `next`.
    Drop { place: Place, next: usize },
    /// Any other terminator, by an id of the driver's choosing.
    Other(u64),
}

pub struct BasicBlock {
    pub terminator: Terminator,
    pub is_cleanup: bool,
}

pub struct Body {
    pub blocks: Vec<BasicBlock>,
    pub local_count: u32,
}

/// Whether `b` is a block that only calls `func` with arguments `args`,
/// writes to `dest`, continues at `target`, and lets unwinding go on.
pub open spec fn is_call_block(b: BasicBlock, func: Operand, args: Seq<Operand>, dest: Place, target: Option<usize>) -> bool {
    &&& !b.is_cleanup
    &&& match b.terminator {
        Terminator::Call { func: f, args: a, destination: d, target: t, unwind: u } => f == func && a@ == args && d == dest
            && t == target && u == UnwindAction::Continue,
        _ => false,
    }
}

/// `b` with the target of its call set to `t`; other blocks are left as they are.
pub open spec fn with_call_target(b: BasicBlock, t: Option<usize>) -> BasicBlock {
    match b.terminator {
        Terminator::Call { func, args, destination, target: _, unwind } => BasicBlock {
            terminator: Terminator::Call { func, args, destination, target: t, unwind },
            is_cleanup: b.is_cleanup,
        },
        _ => b,
    }
}

/// The target of the call that ends `b`, if it ends in a call.
pub open spec fn call_target(b: BasicBlock) -> Option<usize> {
    match b.terminator {
        Terminator::Call { target, .. } => target,
        _ => None,
    }
}

/// A block that stands in for a moved-out one.
pub fn placeholder_block() -> (r: BasicBlock)
    ensures
        r.terminator == Terminator::Other(0),
        !r.is_cleanup,
{
    BasicBlock { terminator: Terminator::Other(0), is_cleanup: false }
}

/// A block that calls `func` on `args`, writing to `dest`, then goes to
/// `target`; unwinding goes on to the caller.
pub fn call_block(func: Operand, args: Vec<Operand>, dest: Place, target: Option<usize>) -> (r: BasicBlock)
    ensures
        is_call_block(r, func, args@, dest, target),
{
    BasicBlock {
        terminator: Terminator::Call { func, args, destination: dest, target, unwind: UnwindAction::Continue },
        is_cleanup: false,
    }
}

/// Sets the target of the call that ends block `b`.
pub fn set_call_target(b: BasicBlock, t: Option<usize>) -> (r: BasicBlock)
    ensures
        r == with_call_target(b, t),
{
    let BasicBlock { terminator, is_cleanup } = b;
    match terminator {
        Terminator::Call { func, args, destination, target: _, unwind } => BasicBlock {
            terminator: Terminator::Call { func, args, destination, target: t, unwind },
            is_cleanup,
        },
        other => BasicBlock { terminator: other, is_cleanup },
    }
}

/// Exchanges blocks `a` and `b`.
pub fn swap_blocks(blocks: &mut Vec<BasicBlock>, a: usize, b: usize)
    requires
        a < old(blocks)@.len(),
        b < old(blocks)@.len(),
    ensures
        final(blocks)@ == old(blocks)@.update(a as int, old(blocks)@[b as int]).update(b as int, old(blocks)@[a as int]),
{
    if a == b {
        assert(blocks@ =~= old(blocks)@.update(a as int, old(blocks)@[b as int]).update(b as int, old(blocks)@[a as int]));
        return;
    }
    let mut tmp = placeholder_block();
    blocks.set_and_swap(a, &mut tmp);
    blocks.set_and_swap(b, &mut tmp);
    blocks.set_and_swap(a, &mut tmp);
    assert(blocks@ =~= old(blocks)@.update(a as int, old(blocks)@[b as int]).update(b as int, old(blocks)@[a as int]));
}

/// Sets the target of the call that ends block `i`.
pub fn retarget_block(blocks: &mut Vec<BasicBlock>, i: usize, t: Option<usize>)
    requires
        i < old(blocks)@.len(),
    ensures
        final(blocks)@ == old(blocks)@.update(i as int, with_call_target(old(blocks)@[i as int], t)),
{
    let mut tmp = placeholder_block();
    blocks.set_and_swap(i, &mut tmp);
    let mut nb = set_call_target(tmp, t);
    blocks.set_and_swap(i, &mut nb);
    assert(blocks@ =~= old(blocks)@.update(i as int, with_call_target(old(blocks)@[i as int], t)));
}

} // verus!
