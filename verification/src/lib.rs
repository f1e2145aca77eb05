//! A per-cycle extract/prepare pipeline that converts source assets into the
//! prepared representation of another, already-registered render-asset type.
//!
//! Each cycle, change notifications for the source assets are collapsed into a
//! set of changed handles and a list of removed handles ([`events`]). Changed
//! assets are snapshotted into extracted representations ([`extract`]), then
//! prepared into their final form and stored under a distinct target identity,
//! with preparation failures re-queued for the next cycle ([`prepare`]).

use vstd::prelude::*;

pub mod events;
pub mod extract;
pub mod handle;
pub mod plugin;
pub mod prepare;

verus! {

/// The recoverable outcome of a preparation that could not complete this cycle.
pub enum PrepareAssetError<E> {
    /// Preparation should be retried next cycle. Carries the extracted
    /// representation back to the caller so it can be re-queued unchanged.
    RetryNextUpdate(E),
}

/// What one preparation call returns: the prepared representation, or the
/// extracted representation handed back for a retry next cycle.
pub type PrepareResult<A> = Result<
    <A as IntoRenderAsset>::Prepared,
    PrepareAssetError<<A as IntoRenderAsset>::ExtractedAsset>,
>;

/// Describes how an asset is extracted out of the source world and prepared
/// into the prepared representation of an existing render-asset type.
///
/// Extraction is a pure snapshot: `extract_asset` must return exactly the
/// value described by `extract_spec`. Preparation may consult and mutate an
/// external context and is free to succeed or to ask for a retry; a retry
/// must hand the extracted representation back unchanged.
pub trait IntoRenderAsset: Sized {
    /// The representation of the asset after extraction, cheap to transfer
    /// across the phase boundary.
    type ExtractedAsset;

    /// The final, store-resident representation the asset is prepared into.
    type Prepared;

    /// External context passed to every preparation call, exclusively
    /// borrowed for the call's duration.
    type Param;

    /// The extracted snapshot of this asset, as a mathematical value.
    spec fn extract_spec(&self) -> Self::ExtractedAsset;

    /// Takes a snapshot of this asset for transfer to the prepared store's
    /// world.
    fn extract_asset(&self) -> (r: Self::ExtractedAsset)
        ensures
            r == self.extract_spec(),
    ;

    /// Prepares an extracted representation, or signals that preparation
    /// should be retried next cycle, handing the same representation back
    /// unchanged.
    fn prepare_asset_into(
        extracted: Self::ExtractedAsset,
        param: &mut Self::Param,
    ) -> (r: Result<Self::Prepared, PrepareAssetError<Self::ExtractedAsset>>)
        ensures
            r matches Err(PrepareAssetError::RetryNextUpdate(e)) ==> e == extracted,
    ;
}

} // verus!
