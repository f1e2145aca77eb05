//! Preparation: draining the retry queue from the previous cycle, applying
//! the removals to the prepared store, and preparing the cycle's fresh
//! extractions, with failed preparations re-queued for the next cycle.

use vstd::prelude::*;
use vstd::pervasive::unreached;
use std::collections::HashMap;
use crate::extract::ExtractedAssets;
use crate::handle::AssetHandle;
use crate::{IntoRenderAsset, PrepareAssetError, PrepareResult};

verus! {

/// Stores the prepared representations of every asset of one source type,
/// keyed by target identity.
pub type IntoRenderAssets<A> = HashMap<u64, <A as IntoRenderAsset>::Prepared>;

/// Extracted assets whose preparation asked for a retry, queued to be
/// prepared again next cycle.
pub struct PrepareNextFrameAssets<A: IntoRenderAsset> {
    /// The queued items, in the order their retries were requested.
    pub assets: Vec<(AssetHandle, A::ExtractedAsset)>,
}

impl<A: IntoRenderAsset> Default for PrepareNextFrameAssets<A> {
    /// An empty queue.
    fn default() -> (r: Self)
        ensures
            r.assets@.len() == 0,
    {
        PrepareNextFrameAssets { assets: Vec::new() }
    }
}

/// The target identities of `handles`.
pub open spec fn target_ids(handles: Seq<AssetHandle>) -> Set<u64>
    decreases handles.len(),
{
    if handles.len() == 0 {
        Set::empty()
    } else {
        target_ids(handles.drop_last()).insert(handles.last().target_id())
    }
}

/// Whether some entry of `batch` has the target identity `k`.
pub open spec fn batch_has_id<E>(batch: Seq<(AssetHandle, E)>, k: u64) -> bool {
    exists|i: int| 0 <= i < batch.len() && (#[trigger] batch[i]).0.target_id() == k
}

/// Whether each retry among `results` hands back exactly the extracted
/// representation of the corresponding batch entry.
pub open spec fn retry_payloads_match<A: IntoRenderAsset>(
    batch: Seq<(AssetHandle, A::ExtractedAsset)>,
    results: Seq<PrepareResult<A>>,
) -> bool {
    forall|i: int|
        0 <= i < batch.len() ==> ((#[trigger] results[i]) matches Err(
            PrepareAssetError::RetryNextUpdate(e),
        ) ==> e == batch[i].1)
}

/// The prepared store and retry queue after routing each batch entry by its
/// preparation result, in batch order: a success is stored under the
/// handle's target identity, a retry appends the handed-back representation
/// to the queue.
pub open spec fn route_all<A: IntoRenderAsset>(
    store: Map<u64, A::Prepared>,
    queue: Seq<(AssetHandle, A::ExtractedAsset)>,
    batch: Seq<(AssetHandle, A::ExtractedAsset)>,
    results: Seq<PrepareResult<A>>,
) -> (Map<u64, A::Prepared>, Seq<(AssetHandle, A::ExtractedAsset)>)
    decreases batch.len(),
{
    if batch.len() == 0 {
        (store, queue)
    } else {
        let (s, q) = route_all::<A>(store, queue, batch.drop_last(), results.drop_last());
        let entry = batch.last();
        match results.last() {
            Ok(p) => (s.insert(entry.0.target_id(), p), q),
            Err(PrepareAssetError::RetryNextUpdate(e)) => (s, q.push((entry.0, e))),
        }
    }
}

/// The entries of `batch` whose results ask for a retry, in batch order,
/// each with its extracted representation unchanged.
pub open spec fn retried<A: IntoRenderAsset>(
    batch: Seq<(AssetHandle, A::ExtractedAsset)>,
    results: Seq<PrepareResult<A>>,
) -> Seq<(AssetHandle, A::ExtractedAsset)>
    decreases batch.len(),
{
    if batch.len() == 0 {
        Seq::empty()
    } else {
        let prev = retried::<A>(batch.drop_last(), results.drop_last());
        match results.last() {
            Ok(_) => prev,
            Err(_) => prev.push(batch.last()),
        }
    }
}

/// Routing appends exactly the retried entries to the queue, unchanged and
/// in batch order, behind whatever the queue already held.
pub proof fn lemma_route_all_queue<A: IntoRenderAsset>(
    store: Map<u64, A::Prepared>,
    queue: Seq<(AssetHandle, A::ExtractedAsset)>,
    batch: Seq<(AssetHandle, A::ExtractedAsset)>,
    results: Seq<PrepareResult<A>>,
)
    requires
        results.len() == batch.len(),
        retry_payloads_match::<A>(batch, results),
    ensures
        route_all::<A>(store, queue, batch, results).1 == queue + retried::<A>(batch, results),
    decreases batch.len(),
{
    if batch.len() == 0 {
        assert(queue + retried::<A>(batch, results) =~= queue);
    } else {
        let b0 = batch.drop_last();
        let r0 = results.drop_last();
        assert(retry_payloads_match::<A>(b0, r0)) by {
            assert(forall|i: int| 0 <= i < b0.len() ==> #[trigger] r0[i] == results[i]);
            assert(forall|i: int| 0 <= i < b0.len() ==> #[trigger] b0[i] == batch[i]);
        }
        lemma_route_all_queue::<A>(store, queue, b0, r0);
        match results.last() {
            Ok(_) => {
            },
            Err(PrepareAssetError::RetryNextUpdate(e)) => {
                assert(results[batch.len() - 1] == results.last());
                assert(e == batch.last().1);
                assert((queue + retried::<A>(b0, r0)).push(batch.last()) =~= queue + retried::<A>(
                    b0,
                    r0,
                ).push(batch.last()));
            },
        }
    }
}

/// A batch whose every preparation asks for a retry leaves the prepared
/// store untouched and re-queues each extracted representation unchanged, in
/// batch order, however often the cycle repeats.
pub proof fn lemma_retry_stability<A: IntoRenderAsset>(
    store: Map<u64, A::Prepared>,
    queue: Seq<(AssetHandle, A::ExtractedAsset)>,
    batch: Seq<(AssetHandle, A::ExtractedAsset)>,
    results: Seq<PrepareResult<A>>,
)
    requires
        results.len() == batch.len(),
        retry_payloads_match::<A>(batch, results),
        forall|i: int|
            0 <= i < results.len() ==> (#[trigger] results[i]) matches Err(
                PrepareAssetError::RetryNextUpdate(..),
            ),
    ensures
        route_all::<A>(store, queue, batch, results).0 == store,
        route_all::<A>(store, queue, batch, results).1 == queue + batch,
    decreases batch.len(),
{
    if batch.len() == 0 {
        assert(queue + batch =~= queue);
    } else {
        let b0 = batch.drop_last();
        let r0 = results.drop_last();
        assert(forall|i: int| 0 <= i < b0.len() ==> #[trigger] r0[i] == results[i]);
        assert(forall|i: int| 0 <= i < b0.len() ==> #[trigger] b0[i] == batch[i]);
        lemma_retry_stability::<A>(store, queue, b0, r0);
        assert(results[batch.len() - 1] == results.last());
        match results.last() {
            Ok(_) => {
                assert(false);
            },
            Err(PrepareAssetError::RetryNextUpdate(e)) => {
                assert(e == batch.last().1);
                assert((queue + b0).push(batch.last()) =~= queue + batch) by {
                    assert(b0.push(batch.last()) =~= batch);
                }
            },
        }
    }
}

/// Routing never creates a store entry away from the batch's target
/// identities: any key of the routed store was present before or belongs to
/// a batch entry.
pub proof fn lemma_route_all_store_keys<A: IntoRenderAsset>(
    store: Map<u64, A::Prepared>,
    queue: Seq<(AssetHandle, A::ExtractedAsset)>,
    batch: Seq<(AssetHandle, A::ExtractedAsset)>,
    results: Seq<PrepareResult<A>>,
)
    requires
        results.len() == batch.len(),
    ensures
        forall|k: u64| #[trigger]
            route_all::<A>(store, queue, batch, results).0.contains_key(k) ==> store.contains_key(
                k,
            ) || batch_has_id(batch, k),
    decreases batch.len(),
{
    if batch.len() == 0 {
    } else {
        let b0 = batch.drop_last();
        let r0 = results.drop_last();
        lemma_route_all_store_keys::<A>(store, queue, b0, r0);
        assert forall|k: u64| #[trigger]
            route_all::<A>(store, queue, batch, results).0.contains_key(k) implies store
            .contains_key(k) || batch_has_id(batch, k) by {
            let prev = route_all::<A>(store, queue, b0, r0).0;
            if prev.contains_key(k) {
                if batch_has_id(b0, k) {
                    let i = choose|i: int|
                        0 <= i < b0.len() && (#[trigger] b0[i]).0.target_id() == k;
                    assert(batch[i] == b0[i]);
                    assert(batch_has_id(batch, k));
                }
            } else {
                assert(batch.last().0.target_id() == k);
                assert((batch[batch.len() - 1]).0.target_id() == k);
            }
        }
    }
}

/// `target_ids` holds exactly the target identities of the listed handles.
pub proof fn lemma_target_ids_contains(handles: Seq<AssetHandle>, k: u64)
    ensures
        target_ids(handles).contains(k) <==> exists|i: int|
            0 <= i < handles.len() && (#[trigger] handles[i]).target_id() == k,
    decreases handles.len(),
{
    if handles.len() == 0 {
    } else {
        let h0 = handles.drop_last();
        lemma_target_ids_contains(h0, k);
        if target_ids(handles).contains(k) {
            if target_ids(h0).contains(k) {
                let i = choose|i: int| 0 <= i < h0.len() && (#[trigger] h0[i]).target_id() == k;
                assert(handles[i].target_id() == k);
            } else {
                assert(handles[handles.len() - 1].target_id() == k);
            }
        }
        if exists|i: int| 0 <= i < handles.len() && (#[trigger] handles[i]).target_id() == k {
            let i = choose|i: int| 0 <= i < handles.len() && (#[trigger] handles[i]).target_id() == k;
            if i < handles.len() - 1 {
                assert(h0[i].target_id() == k);
            }
        }
    }
}

/// Applying one cycle's removals to the prepared store twice changes
/// nothing beyond the first application.
pub proof fn lemma_remove_phase_idempotent<V>(store: Map<u64, V>, removed: Seq<AssetHandle>)
    ensures
        store.remove_keys(target_ids(removed)).remove_keys(target_ids(removed)) == store.remove_keys(
            target_ids(removed),
        ),
{
    assert(store.remove_keys(target_ids(removed)).remove_keys(target_ids(removed))
        =~= store.remove_keys(target_ids(removed)));
}

/// Routes one preparation outcome: a success stores the prepared
/// representation under the handle's target identity, a retry re-queues the
/// handed-back representation for the next cycle.
pub fn route_prepare_outcome<A: IntoRenderAsset>(
    handle: AssetHandle,
    outcome: Result<A::Prepared, PrepareAssetError<A::ExtractedAsset>>,
    render_assets: &mut IntoRenderAssets<A>,
    prepare_next_frame: &mut PrepareNextFrameAssets<A>,
)
    requires
        handle.resolved,
    ensures
        match outcome {
            Ok(p) => final(render_assets)@ == old(render_assets)@.insert(handle.target_id(), p)
                && final(prepare_next_frame).assets@ == old(prepare_next_frame).assets@,
            Err(PrepareAssetError::RetryNextUpdate(e)) => final(render_assets)@ == old(
                render_assets,
            )@ && final(prepare_next_frame).assets@ == old(prepare_next_frame).assets@.push(
                (handle, e),
            ),
        },
{
    match outcome {
        Ok(prepared_asset) => {
            let target = match handle.map_weak() {
                Ok(target) => target,
                Err(_) => unreached(),
            };
            render_assets.insert(target, prepared_asset);
        },
        Err(PrepareAssetError::RetryNextUpdate(extracted_asset)) => {
            prepare_next_frame.assets.push((handle, extracted_asset));
        },
    }
}

/// Prepares every entry of `batch` in order and routes each outcome into
/// the prepared store or the retry queue. The returned results record how
/// each entry was routed.
fn prepare_asset_batch<A: IntoRenderAsset>(
    batch: Vec<(AssetHandle, A::ExtractedAsset)>,
    render_assets: &mut IntoRenderAssets<A>,
    prepare_next_frame: &mut PrepareNextFrameAssets<A>,
    param: &mut A::Param,
) -> (results: Ghost<Seq<PrepareResult<A>>>)
    requires
        forall|i: int| 0 <= i < batch@.len() ==> (#[trigger] batch@[i]).0.resolved,
    ensures
        results@.len() == batch@.len(),
        retry_payloads_match::<A>(batch@, results@),
        ({
            let (s, q) = route_all::<A>(
                old(render_assets)@,
                old(prepare_next_frame).assets@,
                batch@,
                results@,
            );
            final(render_assets)@ == s && final(prepare_next_frame).assets@ == q
        }),
{
    let ghost orig = batch@;
    let ghost s0 = render_assets@;
    let ghost q0 = prepare_next_frame.assets@;
    let ghost mut results: Seq<PrepareResult<A>> = Seq::empty();
    let mut batch = batch;
    proof {
        assert(orig.take(0) =~= Seq::empty());
        assert(batch@ =~= orig.skip(0));
    }
    while batch.len() > 0
        invariant
            results.len() <= orig.len(),
            batch@ == orig.skip(results.len() as int),
            forall|i: int| 0 <= i < orig.len() ==> (#[trigger] orig[i]).0.resolved,
            retry_payloads_match::<A>(orig.take(results.len() as int), results),
            ({
                let (s, q) = route_all::<A>(s0, q0, orig.take(results.len() as int), results);
                render_assets@ == s && prepare_next_frame.assets@ == q
            }),
        decreases batch@.len(),
    {
        let ghost k = results.len() as int;
        let ghost prev_results = results;
        let (handle, extracted_asset) = batch.remove(0);
        proof {
            assert(orig.skip(k)[0] == orig[k]);
            assert(batch@ =~= orig.skip(k + 1)) by {
                assert(batch@ =~= orig.skip(k).remove(0));
                assert(orig.skip(k).remove(0) =~= orig.skip(k + 1));
            }
            assert((handle, extracted_asset) == orig[k]);
        }
        let outcome = A::prepare_asset_into(extracted_asset, param);
        let ghost oc = outcome;
        route_prepare_outcome::<A>(handle, outcome, render_assets, prepare_next_frame);
        proof {
            results = prev_results.push(oc);
            assert(orig.take(k + 1).drop_last() =~= orig.take(k));
            assert(results.drop_last() =~= prev_results);
            assert(orig.take(k + 1).last() == orig[k]);
            assert(results.last() == oc);
            assert(retry_payloads_match::<A>(orig.take(k + 1), results)) by {
                assert(forall|i: int|
                    0 <= i < k ==> #[trigger] orig.take(k + 1)[i] == orig.take(k)[i]);
                assert(forall|i: int| 0 <= i < k ==> #[trigger] results[i] == prev_results[i]);
            }
        }
    }
    proof {
        assert(orig.take(orig.len() as int) =~= orig);
    }
    Ghost(results)
}

/// Erases the prepared entry at every removed handle's target identity; a
/// handle without an entry is a no-op.
pub fn remove_assets<A: IntoRenderAsset>(
    removed: &Vec<AssetHandle>,
    render_assets: &mut IntoRenderAssets<A>,
)
    requires
        forall|i: int| 0 <= i < removed@.len() ==> (#[trigger] removed@[i]).resolved,
    ensures
        final(render_assets)@ == old(render_assets)@.remove_keys(target_ids(removed@)),
{
    let ghost s0 = render_assets@;
    proof {
        assert(s0.remove_keys(target_ids(removed@.take(0))) =~= s0);
    }
    let mut i: usize = 0;
    while i < removed.len()
        invariant
            0 <= i <= removed@.len(),
            forall|k: int| 0 <= k < removed@.len() ==> (#[trigger] removed@[k]).resolved,
            render_assets@ == s0.remove_keys(target_ids(removed@.take(i as int))),
        decreases removed@.len() - i,
    {
        let handle = removed[i];
        let target = match handle.map_weak() {
            Ok(target) => target,
            Err(_) => unreached(),
        };
        render_assets.remove(&target);
        proof {
            assert(removed@.take(i as int + 1).drop_last() =~= removed@.take(i as int));
            assert(removed@.take(i as int + 1).last() == removed@[i as int]);
            assert(render_assets@ =~= s0.remove_keys(target_ids(removed@.take(i as int + 1))));
        }
        i = i + 1;
    }
    proof {
        assert(removed@.take(removed@.len() as int) =~= removed@);
    }
}

/// Runs one full preparation pass: drains the retry queue from the previous
/// cycle first, then applies the removals to the prepared store, then
/// prepares the cycle's fresh extractions. Both buffers of
/// `extracted_assets` are consumed and left empty.
///
/// After the pass, the retry queue holds exactly the entries whose
/// preparation asked for a retry: those carried over from the previous
/// cycle's queue first, the fresh ones after them, each with its extracted
/// representation unchanged. A removed handle's target identity is absent
/// from the store unless an entry with the same target identity was
/// extracted fresh in this very cycle.
pub fn prepare_assets<A: IntoRenderAsset>(
    extracted_assets: &mut ExtractedAssets<A>,
    render_assets: &mut IntoRenderAssets<A>,
    prepare_next_frame: &mut PrepareNextFrameAssets<A>,
    param: &mut A::Param,
) -> (results: Ghost<(Seq<PrepareResult<A>>, Seq<PrepareResult<A>>)>)
    requires
        forall|i: int|
            0 <= i < old(prepare_next_frame).assets@.len() ==> (#[trigger] old(
                prepare_next_frame,
            ).assets@[i]).0.resolved,
        forall|i: int|
            0 <= i < old(extracted_assets).removed@.len() ==> (#[trigger] old(
                extracted_assets,
            ).removed@[i]).resolved,
        forall|i: int|
            0 <= i < old(extracted_assets).extracted@.len() ==> (#[trigger] old(
                extracted_assets,
            ).extracted@[i]).0.resolved,
    ensures
        results@.0.len() == old(prepare_next_frame).assets@.len(),
        results@.1.len() == old(extracted_assets).extracted@.len(),
        retry_payloads_match::<A>(old(prepare_next_frame).assets@, results@.0),
        retry_payloads_match::<A>(old(extracted_assets).extracted@, results@.1),
        ({
            let (s2, q2) = route_all::<A>(
                old(render_assets)@,
                Seq::empty(),
                old(prepare_next_frame).assets@,
                results@.0,
            );
            let s3 = s2.remove_keys(target_ids(old(extracted_assets).removed@));
            let (s4, q4) = route_all::<A>(s3, q2, old(extracted_assets).extracted@, results@.1);
            final(render_assets)@ == s4 && final(prepare_next_frame).assets@ == q4
        }),
        final(prepare_next_frame).assets@ == retried::<A>(
            old(prepare_next_frame).assets@,
            results@.0,
        ) + retried::<A>(old(extracted_assets).extracted@, results@.1),
        forall|h: AssetHandle| #[trigger]
            old(extracted_assets).removed@.contains(h) && !batch_has_id(
                old(extracted_assets).extracted@,
                h.target_id(),
            ) ==> !final(render_assets)@.contains_key(h.target_id()),
        final(extracted_assets).extracted@.len() == 0,
        final(extracted_assets).removed@.len() == 0,
{
    let ghost s1 = render_assets@;
    let ghost queue0 = prepare_next_frame.assets@;
    let ghost extr = extracted_assets.extracted@;
    let ghost removed0 = extracted_assets.removed@;

    let mut queued: Vec<(AssetHandle, A::ExtractedAsset)> = Vec::new();
    core::mem::swap(&mut queued, &mut prepare_next_frame.assets);
    let r1 = prepare_asset_batch::<A>(queued, render_assets, prepare_next_frame, param);

    let mut removed: Vec<AssetHandle> = Vec::new();
    core::mem::swap(&mut removed, &mut extracted_assets.removed);
    remove_assets::<A>(&removed, render_assets);

    let mut fresh: Vec<(AssetHandle, A::ExtractedAsset)> = Vec::new();
    core::mem::swap(&mut fresh, &mut extracted_assets.extracted);
    let r2 = prepare_asset_batch::<A>(fresh, render_assets, prepare_next_frame, param);

    proof {
        let (s2, q2) = route_all::<A>(s1, Seq::empty(), queue0, r1@);
        let s3 = s2.remove_keys(target_ids(removed0));
        let (s4, q4) = route_all::<A>(s3, q2, extr, r2@);
        lemma_route_all_queue::<A>(s1, Seq::empty(), queue0, r1@);
        lemma_route_all_queue::<A>(s3, q2, extr, r2@);
        assert(Seq::<(AssetHandle, A::ExtractedAsset)>::empty() + retried::<A>(queue0, r1@)
            =~= retried::<A>(queue0, r1@));
        assert(prepare_next_frame.assets@ == retried::<A>(queue0, r1@) + retried::<A>(extr, r2@));
        assert forall|h: AssetHandle| #[trigger]
            removed0.contains(h) && !batch_has_id(extr, h.target_id()) implies !render_assets@
            .contains_key(h.target_id()) by {
            lemma_target_ids_contains(removed0, h.target_id());
            let j = choose|j: int| 0 <= j < removed0.len() && removed0[j] == h;
            assert(removed0[j].target_id() == h.target_id());
            assert(target_ids(removed0).contains(h.target_id()));
            assert(!s3.contains_key(h.target_id()));
            lemma_route_all_store_keys::<A>(s3, q2, extr, r2@);
        }
    }
    Ghost((r1@, r2@))
}

} // verus!
