//! Stable identities of registered objects.

use std::cmp::Ordering;
use vstd::prelude::*;
use vstd::std_specs::cmp::PartialOrdSpecImpl;

verus! {

/// The identity that insertion hands out for an object.
///
/// A handle wraps the stable id allocated for the object. It stays valid for
/// as long as the object is registered, wherever the object is moved to in
/// the dense store, and is never handed out again afterwards. It owns
/// nothing and says nothing about the object's capabilities.
///
/// Handles are equal when their stable ids are, and ordered as their stable
/// ids are: a handle handed out earlier is less than one handed out later by
/// the same registry.
#[derive(Clone, Copy, Debug, PartialEq, Eq, Structural, Ord, Hash)]
pub struct Handle {
    id: usize,
}

impl View for Handle {
    type V = nat;

    /// The stable id inside the handle.
    closed spec fn view(&self) -> nat {
        self.id as nat
    }
}

impl Handle {
    /// The handle for a stable id.
    pub(crate) fn issue(id: usize) -> (handle: Handle)
        ensures
            handle@ == id,
    {
        Handle { id }
    }

    /// The stable id inside the handle.
    pub fn id(&self) -> (id: usize)
        ensures
            id == self@,
    {
        self.id
    }

    /// Two handles with the same stable id are the same handle.
    pub proof fn same_id_same_handle(self, other: Handle)
        ensures
            self@ == other@ <==> self == other,
    {
    }
}

impl PartialOrd for Handle {
    fn partial_cmp(&self, other: &Handle) -> (order: Option<Ordering>) {
        if self.id < other.id {
            Some(Ordering::Less)
        } else if self.id == other.id {
            Some(Ordering::Equal)
        } else {
            Some(Ordering::Greater)
        }
    }
}

impl PartialOrdSpecImpl for Handle {
    open spec fn obeys_partial_cmp_spec() -> bool {
        true
    }

    open spec fn partial_cmp_spec(&self, other: &Handle) -> Option<Ordering> {
        if self@ < other@ {
            Some(Ordering::Less)
        } else if self@ == other@ {
            Some(Ordering::Equal)
        } else {
            Some(Ordering::Greater)
        }
    }
}

} // verus!
