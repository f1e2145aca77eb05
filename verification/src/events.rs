//! The change tracker: collapses one cycle's change events into a
//! deduplicated set of changed handles and an ordered list of removed
//! handles.

use vstd::prelude::*;
use crate::handle::AssetHandle;

verus! {

broadcast use vstd::seq_lib::group_seq_properties;

/// One change notification for a source asset.
#[derive(Clone, Copy, Debug, PartialEq, Eq, Structural)]
pub enum AssetEvent {
    /// The asset was created this cycle.
    Created { handle: AssetHandle },
    /// The asset was modified this cycle.
    Modified { handle: AssetHandle },
    /// The asset was removed this cycle.
    Removed { handle: AssetHandle },
}

/// Whether `e` reports `h` as created or modified.
pub open spec fn is_change_of(e: AssetEvent, h: AssetHandle) -> bool {
    e == (AssetEvent::Created { handle: h }) || e == (AssetEvent::Modified { handle: h })
}

/// Whether `e` reports `h` as removed.
pub open spec fn is_removal_of(e: AssetEvent, h: AssetHandle) -> bool {
    e == (AssetEvent::Removed { handle: h })
}

/// The set of handles reported changed after `events`: a handle counts as
/// changed when a created/modified event for it is not followed by a later
/// removal of the same handle.
pub open spec fn changed_after(events: Seq<AssetEvent>) -> Set<AssetHandle>
    decreases events.len(),
{
    if events.len() == 0 {
        Set::empty()
    } else {
        let prev = changed_after(events.drop_last());
        match events.last() {
            AssetEvent::Created { handle } => prev.insert(handle),
            AssetEvent::Modified { handle } => prev.insert(handle),
            AssetEvent::Removed { handle } => prev.remove(handle),
        }
    }
}

/// The handles reported removed by `events`, in arrival order.
pub open spec fn removed_after(events: Seq<AssetEvent>) -> Seq<AssetHandle>
    decreases events.len(),
{
    if events.len() == 0 {
        Seq::empty()
    } else {
        let prev = removed_after(events.drop_last());
        match events.last() {
            AssetEvent::Removed { handle } => prev.push(handle),
            _ => prev,
        }
    }
}

/// Whether `v` holds `h`.
fn contains_handle(v: &Vec<AssetHandle>, h: AssetHandle) -> (r: bool)
    ensures
        r == v@.contains(h),
{
    let mut i: usize = 0;
    while i < v.len()
        invariant
            0 <= i <= v@.len(),
            forall|k: int| 0 <= k < i ==> v@[k] != h,
        decreases v@.len() - i,
    {
        if v[i] == h {
            return true;
        }
        i = i + 1;
    }
    false
}

/// Removes the occurrence of `h` from a duplicate-free vector, a no-op when
/// `h` is absent.
fn remove_handle(changed: &mut Vec<AssetHandle>, h: AssetHandle)
    requires
        old(changed)@.no_duplicates(),
    ensures
        final(changed)@.no_duplicates(),
        forall|x: AssetHandle|
            #[trigger] final(changed)@.contains(x) <==> (old(changed)@.contains(x) && x != h),
{
    let ghost s = changed@;
    let mut i: usize = 0;
    while i < changed.len()
        invariant
            0 <= i <= s.len(),
            old(changed)@ == s,
            changed@ == s,
            s.no_duplicates(),
            forall|k: int| 0 <= k < i ==> s[k] != h,
        decreases s.len() - i,
    {
        if changed[i] == h {
            let ghost idx = i as int;
            changed.remove(i);
            proof {
                s.remove_ensures(idx);
                assert forall|x: AssetHandle| #[trigger]
                    changed@.contains(x) implies (s.contains(x) && x != h) by {
                    let j = choose|j: int| 0 <= j < changed@.len() && changed@[j] == x;
                    if j < idx {
                        assert(s[j] == x);
                    } else {
                        assert(s[j + 1] == x);
                    }
                }
                assert forall|x: AssetHandle| s.contains(x) && x != h implies changed@.contains(
                    x,
                ) by {
                    let j = choose|j: int| 0 <= j < s.len() && s[j] == x;
                    if j < idx {
                        assert(changed@[j] == x);
                    } else {
                        assert(j != idx);
                        assert(changed@[j - 1] == x);
                    }
                }
                assert forall|j1: int, j2: int|
                    0 <= j1 < j2 < changed@.len() implies changed@[j1] != changed@[j2] by {
                    let k1 = if j1 < idx { j1 } else { j1 + 1 };
                    let k2 = if j2 < idx { j2 } else { j2 + 1 };
                    assert(changed@[j1] == s[k1]);
                    assert(changed@[j2] == s[k2]);
                }
            }
            return ;
        }
        i = i + 1;
    }
    proof {
        assert forall|x: AssetHandle| #[trigger] changed@.contains(x) implies x != h by {
            let j = choose|j: int| 0 <= j < s.len() && s[j] == x;
            assert(s[j] != h);
        }
    }
}

/// Consumes one cycle's events in arrival order and produces the
/// deduplicated changed handles together with the removed handles.
///
/// A created/modified event inserts the handle into the changed set
/// (idempotently); a removal erases it from the changed set and appends it to
/// the removed list, so a handle created and removed within the same cycle is
/// reported only as removed.
pub fn track_changes(events: &Vec<AssetEvent>) -> (r: (Vec<AssetHandle>, Vec<AssetHandle>))
    ensures
        r.0@.no_duplicates(),
        forall|h: AssetHandle| #[trigger] r.0@.contains(h) ==> changed_after(events@).contains(h),
        forall|h: AssetHandle| #[trigger] changed_after(events@).contains(h) ==> r.0@.contains(h),
        r.1@ == removed_after(events@),
{
    let ghost evs = events@;
    let mut changed: Vec<AssetHandle> = Vec::new();
    let mut removed: Vec<AssetHandle> = Vec::new();
    let mut i: usize = 0;
    while i < events.len()
        invariant
            0 <= i <= evs.len(),
            events@ == evs,
            changed@.no_duplicates(),
            forall|h: AssetHandle| #[trigger]
                changed@.contains(h) <==> changed_after(evs.take(i as int)).contains(h),
            removed@ == removed_after(evs.take(i as int)),
        decreases evs.len() - i,
    {
        proof {
            assert(evs.take(i as int + 1).drop_last() =~= evs.take(i as int));
            assert(evs.take(i as int + 1).last() == evs[i as int]);
        }
        match events[i] {
            AssetEvent::Created { handle } | AssetEvent::Modified { handle } => {
                if !contains_handle(&changed, handle) {
                    changed.push(handle);
                }
            },
            AssetEvent::Removed { handle } => {
                remove_handle(&mut changed, handle);
                removed.push(handle);
            },
        }
        i = i + 1;
    }
    proof {
        assert(evs.take(evs.len() as int) =~= evs);
    }
    (changed, removed)
}

/// A handle whose removal is not followed by a later created or modified
/// event within the same cycle is reported only as removed, never as
/// changed.
pub proof fn lemma_removed_without_later_change(events: Seq<AssetEvent>, h: AssetHandle, j: int)
    requires
        0 <= j < events.len(),
        is_removal_of(events[j], h),
        forall|k: int| j < k < events.len() ==> !is_change_of(#[trigger] events[k], h),
    ensures
        !changed_after(events).contains(h),
        removed_after(events).contains(h),
    decreases events.len(),
{
    if j == events.len() - 1 {
        assert(events.last() == events[j]);
        assert(removed_after(events).last() == h);
    } else {
        let prefix = events.drop_last();
        assert(prefix[j] == events[j]);
        assert(forall|k: int| j < k < prefix.len() ==> !is_change_of(#[trigger] prefix[k], h));
        lemma_removed_without_later_change(prefix, h, j);
        assert(!is_change_of(events.last(), h));
        assert(removed_after(events).contains(h)) by {
            let m = choose|m: int|
                0 <= m < removed_after(prefix).len() && removed_after(prefix)[m] == h;
            assert(removed_after(events)[m] == h);
        }
    }
}

} // verus!
