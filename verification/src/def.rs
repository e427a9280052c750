//! Names for the things of a crate.

use vstd::prelude::*;

verus! {

/// The number of the crate that is being compiled.
pub const LOCAL_CRATE: u32 = 0;

/// A definition of any crate.
#[derive(Clone, Copy, PartialEq, Eq, Structural, Debug, Hash)]
pub struct DefId {
    pub krate: u32,
    pub index: u32,
}

/// A definition of the crate that is being compiled.
#[derive(Clone, Copy, PartialEq, Eq, Structural, Debug, Hash)]
pub struct LocalDefId {
    pub index: u32,
}

impl DefId {
    /// The definition belongs to the crate that is being compiled.
    #[verifier::allow_in_spec]
    pub fn is_local(self) -> bool
        returns
            self.krate == LOCAL_CRATE,
    {
        self.krate == LOCAL_CRATE
    }

    /// The local name of a local definition.
    #[verifier::allow_in_spec]
    pub fn as_local(self) -> Option<LocalDefId>
        returns
            (if self.krate == LOCAL_CRATE {
                Some(LocalDefId { index: self.index })
            } else {
                None
            }),
    {
        if self.krate == LOCAL_CRATE {
            Some(LocalDefId { index: self.index })
        } else {
            None
        }
    }
}

impl LocalDefId {
    /// The name by which other crates know a local definition.
    #[verifier::allow_in_spec]
    pub fn to_def_id(self) -> DefId
        returns
            (DefId { krate: LOCAL_CRATE, index: self.index }),
    {
        DefId { krate: LOCAL_CRATE, index: self.index }
    }
}

/// A free item: its place in [`crate::tcx::TyCtxt::free_items`].
#[derive(Clone, Copy, PartialEq, Eq, Structural, Debug, Hash)]
pub struct ItemId {
    pub index: usize,
}

/// An item of an impl: its place in [`crate::tcx::TyCtxt::impl_items`].
#[derive(Clone, Copy, PartialEq, Eq, Structural, Debug, Hash)]
pub struct ImplItemId {
    pub index: usize,
}

/// A type: its place in [`crate::tcx::TyCtxt::types`].
#[derive(Clone, Copy, PartialEq, Eq, Structural, Debug, Hash)]
pub struct Ty {
    pub index: usize,
}

/// A function with all its generic arguments: its place in
/// [`crate::tcx::TyCtxt::instances`].
#[derive(Clone, Copy, PartialEq, Eq, Structural, Debug, Hash)]
pub struct Instance {
    pub index: usize,
}

/// A static: its place in [`crate::tcx::TyCtxt::statics`].
#[derive(Clone, Copy, PartialEq, Eq, Structural, Debug, Hash)]
pub struct StaticId {
    pub index: usize,
}

/// An allocation of compile-time evaluation: its place in
/// [`crate::tcx::TyCtxt::allocs`].
#[derive(Clone, Copy, PartialEq, Eq, Structural, Debug, Hash)]
pub struct AllocId {
    pub index: usize,
}

/// A list of generic arguments. Equal numbers stand for equal lists.
#[derive(Clone, Copy, PartialEq, Eq, Structural, Debug, Hash)]
pub struct GenericArgs {
    pub id: u64,
}

/// A local definition that is named as a definition of any crate, and the other
/// way round, is the same definition.
pub proof fn local_names_agree(local: LocalDefId, def_id: DefId)
    ensures
        local.to_def_id() == (DefId { krate: 0, index: local.index }),
        def_id.is_local() <==> def_id.krate == 0,
        local.to_def_id().is_local(),
        local.to_def_id().as_local() == Some(local),
        def_id.is_local() <==> def_id.as_local() is Some,
        def_id.as_local() == Some(local) <==> def_id == local.to_def_id(),
{
}

} // verus!
