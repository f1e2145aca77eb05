//! Extraction: snapshotting the cycle's changed source assets into
//! representations fit for the phase boundary, and buffering the removals.

use vstd::prelude::*;
use std::collections::HashMap;
use crate::IntoRenderAsset;
use crate::events::{changed_after, removed_after, track_changes, AssetEvent};
use crate::handle::AssetHandle;

verus! {

/// The source world's asset collection, keyed by handle identifier. The
/// pipeline only reads it: a lookup that misses is skipped silently.
pub struct SourceAssets<A> {
    map: HashMap<u64, A>,
}

impl<A> View for SourceAssets<A> {
    type V = Map<u64, A>;

    closed spec fn view(&self) -> Map<u64, A> {
        self.map@
    }
}

impl<A> SourceAssets<A> {
    /// An empty collection.
    pub fn new() -> (r: Self)
        ensures
            r@ == Map::<u64, A>::empty(),
    {
        SourceAssets { map: HashMap::new() }
    }

    /// Stores `asset` under `handle`, replacing any previous asset of that
    /// handle.
    pub fn insert(&mut self, handle: &AssetHandle, asset: A)
        ensures
            final(self)@ == old(self)@.insert(handle.id, asset),
    {
        self.map.insert(handle.id, asset);
    }

    /// Looks the handle up, returning nothing when its asset is absent.
    pub fn get(&self, handle: &AssetHandle) -> (r: Option<&A>)
        ensures
            match r {
                Some(a) => self@.contains_key(handle.id) && *a == self@[handle.id],
                None => !self@.contains_key(handle.id),
            },
    {
        self.map.get(&handle.id)
    }
}

/// Temporarily buffers the extracted and removed assets of the current
/// cycle; consumed whole by the preparation pass.
pub struct ExtractedAssets<A: IntoRenderAsset> {
    /// The snapshots taken this cycle, each paired with its source handle.
    pub extracted: Vec<(AssetHandle, A::ExtractedAsset)>,
    /// The handles removed this cycle, in arrival order.
    pub removed: Vec<AssetHandle>,
}

impl<A: IntoRenderAsset> Default for ExtractedAssets<A> {
    /// An empty buffer.
    fn default() -> (r: Self)
        ensures
            r.extracted@.len() == 0,
            r.removed@.len() == 0,
    {
        ExtractedAssets { extracted: Vec::new(), removed: Vec::new() }
    }
}

/// Runs the change tracker over one cycle's events and snapshots every
/// changed asset that is still present in the source collection.
///
/// Each changed handle is extracted at most once; a handle whose asset is
/// already gone is skipped without error; the removals are passed through in
/// arrival order.
pub fn extract_render_asset<A: IntoRenderAsset>(
    events: &Vec<AssetEvent>,
    assets: &SourceAssets<A>,
) -> (out: ExtractedAssets<A>)
    ensures
        out.removed@ == removed_after(events@),
        forall|i: int|
            0 <= i < out.extracted@.len() ==> {
                let (h, e) = #[trigger] out.extracted@[i];
                &&& changed_after(events@).contains(h)
                &&& assets@.contains_key(h.id)
                &&& e == assets@[h.id].extract_spec()
            },
        forall|h: AssetHandle|
            #[trigger] changed_after(events@).contains(h) && assets@.contains_key(h.id)
                ==> exists|i: int|
                0 <= i < out.extracted@.len() && (#[trigger] out.extracted@[i]).0 == h,
        forall|i: int, j: int|
            0 <= i < j < out.extracted@.len() ==> out.extracted@[i].0 != out.extracted@[j].0,
{
    let (changed, removed) = track_changes(events);
    let mut extracted: Vec<(AssetHandle, A::ExtractedAsset)> = Vec::new();
    let mut j: usize = 0;
    while j < changed.len()
        invariant
            0 <= j <= changed@.len(),
            changed@.no_duplicates(),
            forall|h: AssetHandle| #[trigger]
                changed@.contains(h) ==> changed_after(events@).contains(h),
            forall|h: AssetHandle| #[trigger]
                changed_after(events@).contains(h) ==> changed@.contains(h),
            forall|i: int|
                0 <= i < extracted@.len() ==> {
                    let (h, e) = #[trigger] extracted@[i];
                    &&& changed_after(events@).contains(h)
                    &&& assets@.contains_key(h.id)
                    &&& e == assets@[h.id].extract_spec()
                },
            forall|i: int|
                0 <= i < extracted@.len() ==> exists|k: int|
                    0 <= k < j && changed@[k] == (#[trigger] extracted@[i]).0,
            forall|k: int|
                0 <= k < j && assets@.contains_key((#[trigger] changed@[k]).id) ==> exists|i: int|
                    0 <= i < extracted@.len() && (#[trigger] extracted@[i]).0 == changed@[k],
            forall|i1: int, i2: int|
                0 <= i1 < i2 < extracted@.len() ==> extracted@[i1].0 != extracted@[i2].0,
        decreases changed@.len() - j,
    {
        let handle = changed[j];
        match assets.get(&handle) {
            Some(asset) => {
                let snap = asset.extract_asset();
                let ghost old_e = extracted@;
                proof {
                    assert forall|i: int| 0 <= i < extracted@.len() implies (
                    #[trigger] extracted@[i]).0 != handle by {
                        let k = choose|k: int|
                            0 <= k < j && changed@[k] == extracted@[i].0;
                        assert(changed@[k] != changed@[j as int]);
                    }
                    assert(changed@[j as int] == handle);
                    assert(changed@.contains(handle));
                }
                extracted.push((handle, snap));
                proof {
                    assert(extracted@ == old_e.push((handle, snap)));
                    assert(extracted@[extracted@.len() - 1].0 == handle);
                    assert forall|k: int|
                        0 <= k < j + 1 && assets@.contains_key(
                            (#[trigger] changed@[k]).id,
                        ) implies exists|i: int|
                        0 <= i < extracted@.len() && (#[trigger] extracted@[i]).0
                            == changed@[k] by {
                        if k < j {
                            let i = choose|i: int|
                                0 <= i < old_e.len() && (#[trigger] old_e[i]).0 == changed@[k];
                            assert(extracted@[i].0 == changed@[k]);
                        } else {
                            assert(extracted@[extracted@.len() - 1].0 == changed@[k]);
                        }
                    }
                }
            },
            None => {
            },
        }
        j = j + 1;
    }
    let out = ExtractedAssets { extracted, removed };
    proof {
        assert forall|h: AssetHandle| #[trigger]
            changed_after(events@).contains(h) && assets@.contains_key(h.id) implies exists|i: int|
            0 <= i < out.extracted@.len() && (#[trigger] out.extracted@[i]).0 == h by {
            assert(changed@.contains(h));
            let k = choose|k: int| 0 <= k < changed@.len() && changed@[k] == h;
            assert(assets@.contains_key(changed@[k].id));
            let i = choose|i: int|
                0 <= i < out.extracted@.len() && (#[trigger] out.extracted@[i]).0 == changed@[k];
            assert(out.extracted@[i].0 == h);
        }
    }
    out
}

} // verus!
