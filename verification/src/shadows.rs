//! The pass that makes the program's entry function allocate the shadow
//! memory before it does anything else.
use vstd::prelude::*;

use crate::def_id::DefId;
use crate::mir::{call_block, is_call_block, retarget_block, swap_blocks, Body, Operand, Place, NO_GENERIC_ARGS};

verus! {

pub struct AddMetaSafeShadows;

impl AddMetaSafeShadows {
    /// The pass runs when MetaSafe is switched on.
    pub fn is_enabled(&self, metaupdate: bool) -> (r: bool)
        ensures
            r == metaupdate,
    {
        metaupdate
    }

    /// Rewrites `body`, the body of the local entry function when
    /// `is_local_entry` holds, so that its first block calls `shadow_alloc`
    /// and then continues with the former first block, which moves to the end.
    pub fn run_pass(&self, body: &mut Body, is_local_entry: bool, shadow_alloc: DefId)
        requires
            is_local_entry ==> old(body).local_count < u32::MAX,
        ensures
            !is_local_entry ==> *final(body) == *old(body),
            is_local_entry ==> {
                let n = old(body).blocks@.len();
                let temp = Place { local: old(body).local_count };
                &&& final(body).local_count == old(body).local_count + 1
                &&& final(body).blocks@.len() == n + 1
                &&& n == 0 ==> is_call_block(final(body).blocks@[0], Operand::Function { def: shadow_alloc, generic_args: NO_GENERIC_ARGS }, Seq::empty(), temp, None)
                &&& n > 0 ==> {
                    &&& is_call_block(final(body).blocks@[0], Operand::Function { def: shadow_alloc, generic_args: NO_GENERIC_ARGS }, Seq::empty(), temp, Some(n as usize))
                    &&& final(body).blocks@[n as int] == old(body).blocks@[0]
                    &&& forall|i: int| 0 < i < n ==> #[trigger] final(body).blocks@[i] == old(body).blocks@[i]
                }
            },
    {
        if is_local_entry {
            let temp = Place { local: body.local_count };
            body.local_count = body.local_count + 1;
            let n = body.blocks.len();
            let block = call_block(Operand::Function { def: shadow_alloc, generic_args: NO_GENERIC_ARGS }, Vec::new(), temp, None);
            body.blocks.push(block);
            if body.blocks.len() > 1 {
                swap_blocks(&mut body.blocks, 0, n);
                retarget_block(&mut body.blocks, 0, Some(n));
            }
        }
    }
}

} // verus!
