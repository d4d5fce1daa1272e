//! The runtime side of MetaSafe: the shadow memory's placement, the hook
//! that runs foreign code on its own stack, and the trait of smart pointers.
use vstd::prelude::*;

verus! {

/// Where the shadow memory is mapped.
pub const SHADOW_ADDR: u64 = 0x5100_0000_0000u64;

/// The size of the shadow memory in bytes.
pub const SHADOW_SIZE: u64 = 0x200_0000_0000u64;

/// The mask that keeps an offset inside the shadow memory.
pub const SHADOW_MASK: u64 = 0x1FF_FFFF_FFFFu64;

/// Implemented by every smart pointer that keeps metadata: it says how that
/// metadata is synchronized, and panics where the synchronization fails.
pub trait MetaUpdate {
    fn synchronize(&self);
}

/// Runs `fun` on the stack set aside for foreign code and hands back what it returns.
pub fn metasafe_extern_stack_run<R, F: FnOnce() -> R>(fun: F) -> (r: R)
    requires
        fun.requires(()),
    ensures
        fun.ensures((), r),
{
    fun()
}

/// Releases the shadow of a struct that holds smart pointers; the shadow
/// memory is never unmapped, so nothing is released.
pub fn metasafe_shadow_free() {
}

} // verus!
