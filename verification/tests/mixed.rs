use into_render_asset::events::{track_changes, AssetEvent};
use into_render_asset::extract::{extract_render_asset, SourceAssets};
use into_render_asset::handle::AssetHandle;
use into_render_asset::prepare::{prepare_assets, IntoRenderAssets, PrepareNextFrameAssets};
use into_render_asset::{IntoRenderAsset, PrepareAssetError};

struct Mesh {
    size: u64,
}

/// Preparation succeeds only for sizes at or above the threshold, so one
/// batch can split between the store and the retry queue.
struct MeshParam {
    min_ready: u64,
}

impl IntoRenderAsset for Mesh {
    type ExtractedAsset = u64;
    type Prepared = u64;
    type Param = MeshParam;

    // Mirrors `extract_asset`; the pipeline never calls it at run time.
    fn extract_spec(&self) -> u64 {
        self.size
    }

    fn extract_asset(&self) -> u64 {
        self.size
    }

    fn prepare_asset_into(
        extracted: u64,
        param: &mut MeshParam,
    ) -> Result<u64, PrepareAssetError<u64>> {
        if extracted >= param.min_ready {
            Ok(extracted * 2)
        } else {
            Err(PrepareAssetError::RetryNextUpdate(extracted))
        }
    }
}

fn handle(id: u64) -> AssetHandle {
    AssetHandle { id, resolved: true }
}

fn run_cycle(
    events: &Vec<AssetEvent>,
    assets: &SourceAssets<Mesh>,
    render_assets: &mut IntoRenderAssets<Mesh>,
    queue: &mut PrepareNextFrameAssets<Mesh>,
    param: &mut MeshParam,
) {
    let mut extracted = extract_render_asset(events, assets);
    let _ = prepare_assets(&mut extracted, render_assets, queue, param);
}

#[test]
fn mixed_outcomes_split_between_store_and_queue() {
    let small = handle(1);
    let large = handle(2);
    let mut assets = SourceAssets::new();
    assets.insert(&small, Mesh { size: 1 });
    assets.insert(&large, Mesh { size: 5 });
    let mut store: IntoRenderAssets<Mesh> = IntoRenderAssets::<Mesh>::new();
    let mut queue = PrepareNextFrameAssets::<Mesh>::default();
    let mut param = MeshParam { min_ready: 3 };

    let events = vec![
        AssetEvent::Created { handle: small },
        AssetEvent::Created { handle: large },
    ];
    run_cycle(&events, &assets, &mut store, &mut queue, &mut param);

    assert_eq!(store.len(), 1);
    assert_eq!(store.get(&2), Some(&10));
    assert_eq!(queue.assets, vec![(small, 1)]);
}

#[test]
fn carried_over_retries_precede_fresh_retries_in_the_queue() {
    let first = handle(10);
    let second = handle(11);
    let mut assets = SourceAssets::new();
    assets.insert(&first, Mesh { size: 1 });
    assets.insert(&second, Mesh { size: 2 });
    let mut store: IntoRenderAssets<Mesh> = IntoRenderAssets::<Mesh>::new();
    let mut queue = PrepareNextFrameAssets::<Mesh>::default();
    let mut param = MeshParam { min_ready: 100 };

    let cycle1 = vec![AssetEvent::Created { handle: first }];
    run_cycle(&cycle1, &assets, &mut store, &mut queue, &mut param);
    assert_eq!(queue.assets, vec![(first, 1)]);

    let cycle2 = vec![AssetEvent::Created { handle: second }];
    run_cycle(&cycle2, &assets, &mut store, &mut queue, &mut param);
    assert_eq!(queue.assets, vec![(first, 1), (second, 2)]);
    assert!(store.is_empty());

    param.min_ready = 0;
    let no_events: Vec<AssetEvent> = Vec::new();
    run_cycle(&no_events, &assets, &mut store, &mut queue, &mut param);
    assert!(queue.assets.is_empty());
    assert_eq!(store.get(&10), Some(&2));
    assert_eq!(store.get(&11), Some(&4));
}

#[test]
fn multiple_handles_are_tracked_independently() {
    let h1 = handle(21);
    let h2 = handle(22);
    let h3 = handle(23);
    let events = vec![
        AssetEvent::Created { handle: h1 },
        AssetEvent::Removed { handle: h2 },
        AssetEvent::Modified { handle: h3 },
        AssetEvent::Removed { handle: h1 },
    ];
    let (changed, removed) = track_changes(&events);
    assert_eq!(changed, vec![h3]);
    assert_eq!(removed, vec![h2, h1]);
}

#[test]
fn a_prepared_entry_is_overwritten_by_a_later_modification() {
    let h = handle(30);
    let mut assets = SourceAssets::new();
    assets.insert(&h, Mesh { size: 4 });
    let mut store: IntoRenderAssets<Mesh> = IntoRenderAssets::<Mesh>::new();
    let mut queue = PrepareNextFrameAssets::<Mesh>::default();
    let mut param = MeshParam { min_ready: 0 };

    let cycle1 = vec![AssetEvent::Created { handle: h }];
    run_cycle(&cycle1, &assets, &mut store, &mut queue, &mut param);
    assert_eq!(store.get(&30), Some(&8));

    assets.insert(&h, Mesh { size: 6 });
    let cycle2 = vec![AssetEvent::Modified { handle: h }];
    run_cycle(&cycle2, &assets, &mut store, &mut queue, &mut param);
    assert_eq!(store.get(&30), Some(&12));
    assert_eq!(store.len(), 1);
}
