//! Identifiers of definitions across crates.
use vstd::prelude::*;

use crate::collections::MapKey;

verus! {

/// A definition: the crate it belongs to and its index there.
#[derive(Clone, Copy, Debug, PartialEq, Eq, Structural)]
pub struct DefId {
    pub krate: u32,
    pub index: u32,
}

impl View for DefId {
    type V = DefId;

    open spec fn view(&self) -> DefId {
        *self
    }
}

impl MapKey for DefId {
    fn same_key(&self, other: &Self) -> (r: bool) {
        self.krate == other.krate && self.index == other.index
    }

    fn copy_key(&self) -> (r: Self) {
        *self
    }
}

} // verus!
