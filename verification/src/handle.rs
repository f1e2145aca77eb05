//! Source-asset handles and their mapping into the prepared store's identity
//! space.

use vstd::prelude::*;

verus! {

/// A stable handle identifying one source asset.
///
/// The prepared store lives in a different identity space than the source
/// assets; a handle is mapped into it with [`AssetHandle::map_weak`], which
/// fails while the handle still refers to a pending, not-yet-resolved asset.
#[derive(Clone, Copy, Debug, PartialEq, Eq, Structural)]
pub struct AssetHandle {
    /// The stable identifier of the source asset.
    pub id: u64,
    /// Whether the handle has been resolved to a concrete identity. Only a
    /// resolved handle can be mapped into the prepared store's identity
    /// space.
    pub resolved: bool,
}

/// The handle still refers to a pending reference, so no target identity can
/// be derived from it yet.
#[derive(Clone, Copy, Debug, PartialEq, Eq, Structural)]
pub struct PendingHandleError;

impl AssetHandle {
    /// The identity under which this handle's prepared representation is
    /// stored, once the handle is resolved.
    pub open spec fn target_id(self) -> u64 {
        self.id
    }

    /// Derives the target identity of this handle, failing while the handle
    /// is still pending.
    pub fn map_weak(&self) -> (r: Result<u64, PendingHandleError>)
        ensures
            self.resolved ==> r == Ok::<u64, PendingHandleError>(self.target_id()),
            !self.resolved ==> r == Err::<u64, PendingHandleError>(PendingHandleError),
    {
        if self.resolved {
            Ok(self.id)
        } else {
            Err(PendingHandleError)
        }
    }
}

} // verus!
