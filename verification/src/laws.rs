//! The laws of the escrow, proved once and for all over the policy model.
//! Each law is stated against the same spec functions that the store's
//! contracts use, so it carries over to any sequence of `Vault::deposit`
//! and `Vault::unlock_safe` calls.

use vstd::prelude::*;

use crate::models::SafeView;
use crate::policy::after_unlock;
use crate::policy::decremented;
use crate::policy::expired_at;
use crate::policy::unlock_outcome;

verus! {

/// The store contents after the first `n` of a sequence of deposits, each
/// inserting its handle and entry value.
pub open spec fn after_deposits(
    m0: Map<Seq<char>, SafeView>,
    ds: Seq<(Seq<char>, SafeView)>,
    n: int,
) -> Map<Seq<char>, SafeView>
    decreases n,
{
    if n <= 0 {
        m0
    } else {
        after_deposits(m0, ds, n - 1).insert(ds[n - 1].0, ds[n - 1].1)
    }
}

/// Every handle of the deposit sequence was fresh when issued: no live
/// entry carried it at that moment. This is exactly what `Vault::deposit`
/// ensures of every handle it hands back.
pub open spec fn deposits_fresh(
    m0: Map<Seq<char>, SafeView>,
    ds: Seq<(Seq<char>, SafeView)>,
) -> bool {
    forall|i: int| 0 <= i < ds.len() ==> !after_deposits(m0, ds, i).contains_key(ds[i].0)
}

/// A deposited handle stays in the store while only deposits follow.
proof fn lemma_deposit_keeps_key(
    m0: Map<Seq<char>, SafeView>,
    ds: Seq<(Seq<char>, SafeView)>,
    i: int,
    n: int,
)
    requires
        0 <= i < n <= ds.len(),
    ensures
        after_deposits(m0, ds, n).contains_key(ds[i].0),
    decreases n,
{
    if i < n - 1 {
        lemma_deposit_keeps_key(m0, ds, i, n - 1);
    }
}

/// Uniqueness: over any sequence of deposits each of whose handles was
/// fresh when issued, the handles are pairwise distinct.
pub proof fn lemma_handles_pairwise_distinct(
    m0: Map<Seq<char>, SafeView>,
    ds: Seq<(Seq<char>, SafeView)>,
)
    requires
        deposits_fresh(m0, ds),
    ensures
        forall|i: int, j: int| 0 <= i < j < ds.len() ==> ds[i].0 != ds[j].0,
{
    assert forall|i: int, j: int| 0 <= i < j < ds.len() implies ds[i].0 != ds[j].0 by {
        lemma_deposit_keeps_key(m0, ds, i, j);
    }
}

/// The store contents after the first `n` redemption attempts of `id`,
/// the attempt counted `k` made at time `nows[k]`.
pub open spec fn after_unlocks(
    m0: Map<Seq<char>, SafeView>,
    id: Seq<char>,
    nows: Seq<u64>,
    n: int,
) -> Map<Seq<char>, SafeView>
    decreases n,
{
    if n <= 0 {
        m0
    } else {
        after_unlock(after_unlocks(m0, id, nows, n - 1), id, nows[n - 1])
    }
}

/// What the redemption attempt counted `n` (from zero) hands back.
pub open spec fn outcome_at(
    m0: Map<Seq<char>, SafeView>,
    id: Seq<char>,
    nows: Seq<u64>,
    n: int,
) -> Option<SafeView> {
    unlock_outcome(after_unlocks(m0, id, nows, n), id, nows[n])
}

/// While redemptions of an entry with budget `k == nows.len()` stay
/// within its window, the first `n` of them leave the entry live with `n`
/// unlocks spent, and the `k`th evicts it.
proof fn lemma_exhaustion_state(
    m0: Map<Seq<char>, SafeView>,
    id: Seq<char>,
    nows: Seq<u64>,
    n: int,
)
    requires
        m0.contains_key(id),
        1 <= m0[id].unlocks_left,
        m0[id].unlocks_left == nows.len(),
        forall|i: int|
            0 <= i < nows.len() ==> nows[i] - m0[id].created_at < m0[id].open_duration,
        0 <= n <= nows.len(),
    ensures
        n < nows.len() ==> after_unlocks(m0, id, nows, n).contains_key(id)
            && after_unlocks(m0, id, nows, n)[id] == (SafeView {
            unlocks_left: (m0[id].unlocks_left - n) as u32,
            ..m0[id]
        }),
        n == nows.len() ==> !after_unlocks(m0, id, nows, n).contains_key(id),
    decreases n,
{
    if n > 0 {
        lemma_exhaustion_state(m0, id, nows, n - 1);
    }
}

/// Single exhaustion: an entry with an unlock budget of `k` redeemed `k`
/// times within its window yields the secret each time, with the budget
/// counting down to zero; the `k`th attempt evicts the entry, and any
/// further attempt, at any time at all, yields nothing.
pub proof fn lemma_single_exhaustion(
    m0: Map<Seq<char>, SafeView>,
    id: Seq<char>,
    nows: Seq<u64>,
    extra: u64,
)
    requires
        m0.contains_key(id),
        1 <= m0[id].unlocks_left,
        m0[id].unlocks_left == nows.len(),
        forall|i: int|
            0 <= i < nows.len() ==> nows[i] - m0[id].created_at < m0[id].open_duration,
    ensures
        forall|i: int|
            0 <= i < nows.len() ==> outcome_at(m0, id, nows, i) == Some(
                (SafeView { unlocks_left: (m0[id].unlocks_left - i - 1) as u32, ..m0[id] }),
            ),
        !after_unlocks(m0, id, nows, nows.len() as int).contains_key(id),
        unlock_outcome(after_unlocks(m0, id, nows, nows.len() as int), id, extra) is None,
{
    assert forall|i: int| 0 <= i < nows.len() implies outcome_at(m0, id, nows, i) == Some(
        (SafeView { unlocks_left: (m0[id].unlocks_left - i - 1) as u32, ..m0[id] }),
    ) by {
        lemma_exhaustion_state(m0, id, nows, i);
    }
    lemma_exhaustion_state(m0, id, nows, nows.len() as int);
}

/// Time expiry: a redemption attempt of an entry whose window has elapsed
/// yields nothing, whatever unlock budget remained, and evicts the entry.
/// An entry with a window of zero is expired from `created_at` onwards,
/// so on a clock that never runs backwards its secret is unobtainable
/// from the start.
pub proof fn lemma_time_expiry(m: Map<Seq<char>, SafeView>, id: Seq<char>, now: u64)
    requires
        m.contains_key(id),
        expired_at(m[id], now),
    ensures
        unlock_outcome(m, id, now) is None,
        after_unlock(m, id, now) == m.remove(id),
        !after_unlock(m, id, now).contains_key(id),
{
}

/// The zero-window instance of time expiry: deposited with a window of
/// zero, the entry never yields its secret to an attempt made at or after
/// its creation time, however many unlocks its budget held.
pub proof fn lemma_zero_window_never_redeemable(
    m: Map<Seq<char>, SafeView>,
    id: Seq<char>,
    now: u64,
)
    requires
        m.contains_key(id),
        m[id].open_duration == 0,
        now >= m[id].created_at,
    ensures
        unlock_outcome(m, id, now) is None,
        !after_unlock(m, id, now).contains_key(id),
{
    lemma_time_expiry(m, id, now);
}

/// A live entry whose unlock budget is already zero — deposited so —
/// yields nothing at any time, and the first attempt evicts it; the
/// budget is never decremented below zero.
pub proof fn lemma_exhausted_entry_yields_nothing(
    m: Map<Seq<char>, SafeView>,
    id: Seq<char>,
    now: u64,
)
    requires
        m.contains_key(id),
        m[id].unlocks_left == 0,
    ensures
        unlock_outcome(m, id, now) is None,
        !after_unlock(m, id, now).contains_key(id),
{
}

/// An absent handle stays absent under redemption attempts of it.
proof fn lemma_absent_chain(m: Map<Seq<char>, SafeView>, id: Seq<char>, nows: Seq<u64>, n: int)
    requires
        !m.contains_key(id),
        0 <= n,
    ensures
        after_unlocks(m, id, nows, n) == m,
    decreases n,
{
    if n > 0 {
        lemma_absent_chain(m, id, nows, n - 1);
    }
}

/// Eviction is final: once the store holds no entry under a handle, every
/// later redemption attempt of that handle yields nothing and leaves the
/// store as it was. An entry never reappears, whichever cause evicted it.
pub proof fn lemma_eviction_is_final(m: Map<Seq<char>, SafeView>, id: Seq<char>, nows: Seq<u64>)
    requires
        !m.contains_key(id),
    ensures
        forall|n: int| 0 <= n <= nows.len() ==> after_unlocks(m, id, nows, n) == m,
        forall|i: int| 0 <= i < nows.len() ==> outcome_at(m, id, nows, i) is None,
{
    assert forall|n: int| 0 <= n <= nows.len() implies after_unlocks(m, id, nows, n) == m by {
        lemma_absent_chain(m, id, nows, n);
    }
    assert forall|i: int| 0 <= i < nows.len() implies outcome_at(m, id, nows, i) is None by {
        lemma_absent_chain(m, id, nows, i);
    }
}

/// Isolation, redemption side: a redemption attempt of handle `a` neither
/// changes the entry under a different handle `b` nor what a later
/// redemption of `b` hands back.
pub proof fn lemma_unlock_isolation(
    m: Map<Seq<char>, SafeView>,
    a: Seq<char>,
    b: Seq<char>,
    now: u64,
    later: u64,
)
    requires
        a != b,
    ensures
        after_unlock(m, a, now).contains_key(b) == m.contains_key(b),
        m.contains_key(b) ==> after_unlock(m, a, now)[b] == m[b],
        unlock_outcome(after_unlock(m, a, now), b, later) == unlock_outcome(m, b, later),
{
}

/// Isolation, deposit side: a deposit under handle `a` neither changes
/// the entry under a different handle `b` nor what a redemption of `b`
/// hands back.
pub proof fn lemma_deposit_isolation(
    m: Map<Seq<char>, SafeView>,
    a: Seq<char>,
    v: SafeView,
    b: Seq<char>,
    later: u64,
)
    requires
        a != b,
    ensures
        m.insert(a, v).contains_key(b) == m.contains_key(b),
        m.contains_key(b) ==> m.insert(a, v)[b] == m[b],
        unlock_outcome(m.insert(a, v), b, later) == unlock_outcome(m, b, later),
{
}

/// Exactly one success: with an unlock budget of one, of any number of
/// serialized redemption attempts of the handle, the first — made within
/// the window — hands back the secret, and every later one hands back
/// nothing: one success, never zero, never more than one.
pub proof fn lemma_exactly_one_success(
    m0: Map<Seq<char>, SafeView>,
    id: Seq<char>,
    nows: Seq<u64>,
)
    requires
        m0.contains_key(id),
        m0[id].unlocks_left == 1,
        nows.len() >= 1,
        nows[0] - m0[id].created_at < m0[id].open_duration,
    ensures
        outcome_at(m0, id, nows, 0) == Some(decremented(m0[id])),
        forall|i: int| 1 <= i < nows.len() ==> outcome_at(m0, id, nows, i) is None,
{
    let m1 = after_unlock(m0, id, nows[0]);
    assert(!m1.contains_key(id));
    assert forall|i: int| 1 <= i < nows.len() implies outcome_at(m0, id, nows, i) is None by {
        lemma_later_attempts_fail(m0, id, nows, i);
    }
}

/// After an eviction at the first attempt, the store state reached by any
/// later attempt still lacks the handle.
proof fn lemma_later_attempts_fail(
    m0: Map<Seq<char>, SafeView>,
    id: Seq<char>,
    nows: Seq<u64>,
    n: int,
)
    requires
        1 <= n,
        !after_unlocks(m0, id, nows, 1).contains_key(id),
    ensures
        !after_unlocks(m0, id, nows, n).contains_key(id),
    decreases n,
{
    if n > 1 {
        lemma_later_attempts_fail(m0, id, nows, n - 1);
    }
}

} // verus!
