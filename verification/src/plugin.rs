//! Plugin-level configuration: where in the cycle's preparation ordering one
//! pipeline instance's fresh preparations run, relative to the other
//! instances of the same kind.

use vstd::prelude::*;
use core::marker::PhantomData;
use crate::IntoRenderAsset;

verus! {

/// Selects when a pipeline's preparation pass runs within one cycle,
/// relative to the other pipelines of the same kind.
#[derive(Clone, Copy, Debug, PartialEq, Eq, Structural)]
pub enum PrepareAssetLabel {
    /// Before all regular preparation passes.
    PreAssetPrepare,
    /// The regular preparation pass.
    AssetPrepare,
    /// After all regular preparation passes.
    PostAssetPrepare,
}

impl Default for PrepareAssetLabel {
    /// The regular preparation position.
    fn default() -> (r: Self)
        ensures
            r == PrepareAssetLabel::AssetPrepare,
    {
        PrepareAssetLabel::AssetPrepare
    }
}

/// Sets up the extract and prepare passes of one source-asset type,
/// remembering where in the preparation ordering its fresh preparations run.
pub struct IntoRenderAssetPlugin<A: IntoRenderAsset> {
    prepare_asset_label: PrepareAssetLabel,
    phantom: PhantomData<A>,
}

impl<A: IntoRenderAsset> IntoRenderAssetPlugin<A> {
    /// The configured position of the preparation pass.
    pub closed spec fn label(&self) -> PrepareAssetLabel {
        self.prepare_asset_label
    }

    /// A plugin whose preparation pass runs at the given position.
    pub fn with_prepare_asset_label(prepare_asset_label: PrepareAssetLabel) -> (r: Self)
        ensures
            r.label() == prepare_asset_label,
    {
        IntoRenderAssetPlugin { prepare_asset_label, phantom: PhantomData }
    }

    /// The configured position, used to label the preparation pass.
    pub fn prepare_asset_label(&self) -> (r: PrepareAssetLabel)
        ensures
            r == self.label(),
    {
        self.prepare_asset_label
    }

    /// The position this plugin's preparation pass is ordered after, if any:
    /// the regular pass runs after the early one, the late pass after the
    /// regular one, and the early pass is unconstrained.
    pub fn runs_after(&self) -> (r: Option<PrepareAssetLabel>)
        ensures
            r == (match self.label() {
                PrepareAssetLabel::PreAssetPrepare => None::<PrepareAssetLabel>,
                PrepareAssetLabel::AssetPrepare => Some(PrepareAssetLabel::PreAssetPrepare),
                PrepareAssetLabel::PostAssetPrepare => Some(PrepareAssetLabel::AssetPrepare),
            }),
    {
        match self.prepare_asset_label {
            PrepareAssetLabel::PreAssetPrepare => None,
            PrepareAssetLabel::AssetPrepare => Some(PrepareAssetLabel::PreAssetPrepare),
            PrepareAssetLabel::PostAssetPrepare => Some(PrepareAssetLabel::AssetPrepare),
        }
    }
}

impl<A: IntoRenderAsset> Default for IntoRenderAssetPlugin<A> {
    /// A plugin at the regular preparation position.
    fn default() -> (r: Self)
        ensures
            r.label() == PrepareAssetLabel::AssetPrepare,
    {
        IntoRenderAssetPlugin {
            prepare_asset_label: PrepareAssetLabel::AssetPrepare,
            phantom: PhantomData,
        }
    }
}

} // verus!
