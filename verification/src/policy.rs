//! The expiry policy, stated over the mathematical model of the store: a
//! map from handle to entry value. The executable store promises, entry
//! for entry, to behave exactly as these functions say.

use vstd::prelude::*;

use crate::models::SafeView;

verus! {

/// Whether an entry is past its time window at time `now`. A window of
/// zero is past from the moment of creation onwards.
pub open spec fn expired_at(s: SafeView, now: u64) -> bool {
    now - s.created_at >= s.open_duration
}

/// Whether a redemption at time `now` hands back the secret: the window
/// has not elapsed and at least one unlock remains.
pub open spec fn redeemable_at(s: SafeView, now: u64) -> bool {
    !expired_at(s, now) && s.unlocks_left >= 1
}

/// The entry with one unlock spent, everything else unchanged.
pub open spec fn decremented(s: SafeView) -> SafeView
    recommends
        s.unlocks_left >= 1,
{
    SafeView { unlocks_left: (s.unlocks_left - 1) as u32, ..s }
}

/// What a redemption of `id` at time `now` against store contents `m`
/// hands back: the stored entry with its budget decremented when the
/// handle is live and redeemable, and nothing otherwise. An unknown
/// handle, an expired entry and an exhausted entry are indistinguishable
/// in the result.
pub open spec fn unlock_outcome(
    m: Map<Seq<char>, SafeView>,
    id: Seq<char>,
    now: u64,
) -> Option<SafeView> {
    if m.contains_key(id) && redeemable_at(m[id], now) {
        Some(decremented(m[id]))
    } else {
        None
    }
}

/// The store contents after a redemption attempt of `id` at time `now`:
/// unchanged for an unknown handle; the entry evicted when its window has
/// elapsed, when its budget was already spent, or when this redemption
/// spends the last unlock; the entry kept with a decremented budget
/// otherwise.
pub open spec fn after_unlock(
    m: Map<Seq<char>, SafeView>,
    id: Seq<char>,
    now: u64,
) -> Map<Seq<char>, SafeView> {
    if !m.contains_key(id) {
        m
    } else if expired_at(m[id], now) || m[id].unlocks_left <= 1 {
        m.remove(id)
    } else {
        m.insert(id, decremented(m[id]))
    }
}

} // verus!
