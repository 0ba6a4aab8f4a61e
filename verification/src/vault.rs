//! The keyed store of escrowed secrets: deposit inserts a fresh entry
//! under a random handle, redemption reads, decrements or evicts one, as
//! the expiry policy directs. Each operation takes the store exclusively
//! (`&mut self`), which is its atomic step; callers that share a store
//! across threads put it behind a lock and hold the lock for the whole
//! operation.

use vstd::prelude::*;
use vstd::map::*;

use crate::hex::HexSlice;
use crate::models::Safe;
use crate::models::SafeRepresentation;
use crate::models::SafeView;
use crate::models::requested_unlocks;
use crate::policy::after_unlock;
use crate::policy::unlock_outcome;

verus! {

/// Relies on rand::random: sixteen bytes drawn from the thread-local
/// cryptographically strong generator. Nothing is promised of random
/// bytes beyond their count.
#[verifier::external_body]
fn random_handle_bytes() -> (r: Vec<u8>)
    ensures
        r@.len() == 16,
{
    rand::random::<[u8; 16]>().to_vec()
}

/// Whether some entry of `es` carries the key `k`.
spec fn has_key(es: Seq<(String, Safe)>, k: Seq<char>) -> bool {
    exists|i: int| 0 <= i < es.len() && es[i].0@ == k
}

/// The index of the entry of `es` carrying the key `k`, when one exists.
spec fn key_index(es: Seq<(String, Safe)>, k: Seq<char>) -> int {
    choose|i: int| 0 <= i < es.len() && es[i].0@ == k
}

/// The entry list read as a map from handle to entry value.
spec fn map_of(es: Seq<(String, Safe)>) -> Map<Seq<char>, SafeView> {
    Map::new(|k: Seq<char>| has_key(es, k), |k: Seq<char>| es[key_index(es, k)].1@)
}

/// No two entries of `es` carry the same key.
spec fn keys_distinct(es: Seq<(String, Safe)>) -> bool {
    forall|i: int, j: int| 0 <= i < j < es.len() ==> es[i].0@ != es[j].0@
}

/// With distinct keys, the entry at index `i` is the one the map holds
/// under its key.
proof fn lemma_lookup(es: Seq<(String, Safe)>, i: int)
    requires
        keys_distinct(es),
        0 <= i < es.len(),
    ensures
        map_of(es).contains_key(es[i].0@),
        map_of(es)[es[i].0@] == es[i].1@,
{
    assert(has_key(es, es[i].0@));
    let j = key_index(es, es[i].0@);
    assert(0 <= j < es.len() && es[j].0@ == es[i].0@);
    if j < i {
        assert(es[j].0@ != es[i].0@);
    } else if i < j {
        assert(es[i].0@ != es[j].0@);
    }
}

/// Removing the entry at index `i` removes exactly its key from the map.
proof fn lemma_remove_at(es: Seq<(String, Safe)>, i: int)
    requires
        keys_distinct(es),
        0 <= i < es.len(),
    ensures
        keys_distinct(es.remove(i)),
        map_of(es.remove(i)) == map_of(es).remove(es[i].0@),
{
    let es2 = es.remove(i);
    es.remove_ensures(i);
    assert forall|p: int, q: int| 0 <= p < q < es2.len() implies es2[p].0@ != es2[q].0@ by {
        let p0 = if p < i { p } else { p + 1 };
        let q0 = if q < i { q } else { q + 1 };
        assert(es2[p] == es[p0]);
        assert(es2[q] == es[q0]);
        assert(es[p0].0@ != es[q0].0@);
    }
    assert forall|k: Seq<char>| #[trigger] has_key(es2, k) implies has_key(es, k) && k != es[i].0@
        && map_of(es2)[k] == map_of(es)[k] by {
        let j = key_index(es2, k);
        assert(0 <= j < es2.len() && es2[j].0@ == k);
        let j0 = if j < i { j } else { j + 1 };
        assert(es2[j] == es[j0]);
        assert(es[j0].0@ == k);
        assert(has_key(es, k));
        assert(j0 != i);
        if j0 < i {
            assert(es[j0].0@ != es[i].0@);
        } else {
            assert(es[i].0@ != es[j0].0@);
        }
        lemma_lookup(es2, j);
        lemma_lookup(es, j0);
    }
    assert forall|k: Seq<char>| has_key(es, k) && k != es[i].0@ implies #[trigger] has_key(
        es2,
        k,
    ) by {
        let j0 = key_index(es, k);
        assert(0 <= j0 < es.len() && es[j0].0@ == k);
        assert(j0 != i);
        let j = if j0 < i { j0 } else { j0 - 1 };
        assert(es2[j] == es[j0]);
        assert(es2[j].0@ == k);
    }
    assert_maps_equal!(map_of(es.remove(i)), map_of(es).remove(es[i].0@));
}

/// Appending an entry whose key is fresh inserts exactly that pair into
/// the map.
proof fn lemma_push_fresh(es: Seq<(String, Safe)>, p: (String, Safe))
    requires
        keys_distinct(es),
        !has_key(es, p.0@),
    ensures
        keys_distinct(es.push(p)),
        map_of(es.push(p)) == map_of(es).insert(p.0@, p.1@),
{
    let es2 = es.push(p);
    assert forall|a: int, b: int| 0 <= a < b < es2.len() implies es2[a].0@ != es2[b].0@ by {
        if b == es.len() {
            assert(es2[a] == es[a]);
            assert(es2[b] == p);
            assert(es[a].0@ != p.0@);
        } else {
            assert(es2[a] == es[a]);
            assert(es2[b] == es[b]);
        }
    }
    assert forall|k: Seq<char>| #[trigger] has_key(es2, k) implies (has_key(es, k) || k
        == p.0@) by {
        let j = key_index(es2, k);
        assert(0 <= j < es2.len() && es2[j].0@ == k);
        if j < es.len() {
            assert(es2[j] == es[j]);
        } else {
            assert(es2[j] == p);
        }
    }
    assert(es2[es.len() as int] == p);
    assert(has_key(es2, p.0@));
    assert forall|k: Seq<char>| #[trigger] has_key(es, k) implies has_key(es2, k) by {
        let j = key_index(es, k);
        assert(es2[j] == es[j]);
    }
    assert forall|k: Seq<char>| has_key(es2, k) && k != p.0@ implies #[trigger] map_of(es2)[k]
        == map_of(es)[k] by {
        let j = key_index(es2, k);
        assert(0 <= j < es2.len() && es2[j].0@ == k);
        assert(j != es.len());
        assert(es2[j] == es[j]);
        lemma_lookup(es2, j);
        lemma_lookup(es, j);
    }
    lemma_lookup(es2, es.len() as int);
    assert(map_of(es2)[p.0@] == p.1@);
    assert_maps_equal!(map_of(es.push(p)), map_of(es).insert(p.0@, p.1@));
}

/// The keyed container of escrowed secrets. Its contracts speak of its
/// view: the map from handle (as a character sequence) to entry value.
pub struct Vault {
    entries: Vec<(String, Safe)>,
}

impl View for Vault {
    type V = Map<Seq<char>, SafeView>;

    closed spec fn view(&self) -> Map<Seq<char>, SafeView> {
        map_of(self.entries@)
    }
}

impl Vault {
    /// Well-formedness: no handle occurs twice. Established by `new` and
    /// preserved by every operation.
    pub closed spec fn wf(&self) -> bool {
        keys_distinct(self.entries@)
    }

    /// An empty vault.
    pub fn new() -> (r: Vault)
        ensures
            r.wf(),
            r@ == Map::<Seq<char>, SafeView>::empty(),
    {
        let r = Vault { entries: Vec::new() };
        proof {
            assert_maps_equal!(map_of(r.entries@), Map::<Seq<char>, SafeView>::empty());
        }
        r
    }

    /// The index of the entry stored under `id`, when one is.
    fn find_index(&self, id: &str) -> (r: Option<usize>)
        ensures
            match r {
                Some(i) => i < self.entries@.len() && self.entries@[i as int].0@ == id@,
                None => !has_key(self.entries@, id@),
            },
    {
        let id_owned: String = id.to_owned();
        let n = self.entries.len();
        let mut i: usize = 0;
        while i < n
            invariant
                i <= n,
                n == self.entries@.len(),
                id_owned@ == id@,
                forall|j: int| 0 <= j < i ==> self.entries@[j].0@ != id@,
            decreases n - i,
        {
            if self.entries[i].0 == id_owned {
                return Some(i);
            }
            i = i + 1;
        }
        None
    }

    /// Whether a live entry is stored under `id`.
    pub fn safe_exists(&self, id: &str) -> (r: bool)
        requires
            self.wf(),
        ensures
            r == self@.contains_key(id@),
    {
        match self.find_index(id) {
            Some(i) => {
                proof {
                    lemma_lookup(self.entries@, i as int);
                }
                true
            },
            None => false,
        }
    }

    /// Stores `safe` under the handle `id`, replacing whatever entry the
    /// handle carried before.
    pub fn lock_safe(&mut self, id: String, safe: Safe)
        requires
            old(self).wf(),
        ensures
            final(self).wf(),
            final(self)@ == old(self)@.insert(id@, safe@),
    {
        let ghost es0 = self.entries@;
        let ghost target = map_of(es0).insert(id@, safe@);
        match self.find_index(id.as_str()) {
            Some(i) => {
                proof {
                    lemma_remove_at(es0, i as int);
                }
                let _ = self.entries.remove(i);
                let ghost es1 = self.entries@;
                proof {
                    assert(!has_key(es1, id@));
                    lemma_push_fresh(es1, (id, safe));
                }
                self.entries.push((id, safe));
                proof {
                    assert_maps_equal!(map_of(es0).remove(es0[i as int].0@).insert(id@, safe@),
                        target);
                }
            },
            None => {
                proof {
                    lemma_push_fresh(es0, (id, safe));
                }
                self.entries.push((id, safe));
            },
        }
    }

    /// A redemption attempt of the handle `id` at time `now`: hands back
    /// the entry, budget decremented, when the handle is live, its window
    /// has not elapsed and at least one unlock remains; hands back nothing
    /// otherwise, and evicts the entry as the policy directs. An unknown,
    /// an expired and an exhausted handle are indistinguishable in the
    /// result.
    pub fn unlock_safe(&mut self, id: &str, now: u64) -> (r: Option<Safe>)
        requires
            old(self).wf(),
        ensures
            final(self).wf(),
            final(self)@ == after_unlock(old(self)@, id@, now),
            match r {
                Some(s) => unlock_outcome(old(self)@, id@, now) == Some(s@),
                None => unlock_outcome(old(self)@, id@, now) is None,
            },
    {
        let ghost m0 = self@;
        let i = match self.find_index(id) {
            Some(i) => i,
            None => {
                return None;
            },
        };
        proof {
            lemma_lookup(self.entries@, i as int);
        }
        let ghost es0 = self.entries@;
        let entry = &self.entries[i].1;
        let created = entry.created_at;
        let duration = entry.open_duration;
        let left = entry.unlocks_left;
        let is_expired = now >= created && now - created >= duration;
        if is_expired || left == 0 {
            let _ = self.entries.remove(i);
            proof {
                lemma_remove_at(es0, i as int);
            }
            None
        } else {
            let (key, safe) = self.entries.remove(i);
            proof {
                lemma_remove_at(es0, i as int);
            }
            let updated = Safe {
                created_at: safe.created_at,
                open_duration: safe.open_duration,
                unlocks_left: safe.unlocks_left - 1,
                nonce: safe.nonce,
                secrets: safe.secrets,
            };
            if updated.unlocks_left > 0 {
                let stored = updated.clone();
                let ghost es1 = self.entries@;
                proof {
                    lemma_push_fresh(es1, (key, stored));
                    assert_maps_equal!(m0.remove(id@).insert(id@, stored@),
                        m0.insert(id@, stored@));
                }
                self.entries.push((key, stored));
            }
            Some(updated)
        }
    }

    /// A handle no live entry carries: thirty-two lowercase hexadecimal
    /// characters from sixteen random bytes, drawn again on the
    /// cryptographically negligible chance of a collision. Gives up, with
    /// nothing, only when a bounded number of draws all collided — which
    /// cannot happen unless some live handle is itself thirty-two
    /// characters long.
    fn fresh_handle(&self) -> (r: Option<String>)
        requires
            self.wf(),
        ensures
            match r {
                Some(id) => id@.len() == 32 && !self@.contains_key(id@),
                None => true,
            },
            (forall|k: Seq<char>| self@.contains_key(k) ==> k.len() != 32) ==> r is Some,
    {
        let mut attempt: usize = 0;
        while attempt < 16
            invariant
                self.wf(),
                attempt > 0 ==> exists|k: Seq<char>|
                    #[trigger] self@.contains_key(k) && k.len() == 32,
            decreases 16 - attempt,
        {
            let bytes = random_handle_bytes();
            let id = HexSlice::new(bytes.as_slice()).to_hex_string();
            if !self.safe_exists(id.as_str()) {
                return Some(id);
            }
            proof {
                assert(self@.contains_key(id@) && id@.len() == 32);
            }
            attempt = attempt + 1;
        }
        None
    }

    /// Deposits a secret: builds the entry for `repr` at time `now`,
    /// stores it under a fresh random handle, and hands the handle back.
    /// The handle carried no live entry before, so no deposit disturbs an
    /// existing one. Hands back nothing only when a bounded number of
    /// random draws all collided with live handles, a cryptographically
    /// negligible event on which the store is left unchanged — and one
    /// that is impossible, so success is owed, unless some live handle is
    /// itself thirty-two characters long.
    pub fn deposit(&mut self, repr: &SafeRepresentation, now: u64) -> (r: Option<String>)
        requires
            old(self).wf(),
        ensures
            final(self).wf(),
            (forall|k: Seq<char>| old(self)@.contains_key(k) ==> k.len() != 32) ==> r is Some,
            match r {
                Some(id) => {
                    &&& id@.len() == 32
                    &&& !old(self)@.contains_key(id@)
                    &&& final(self)@ == old(self)@.insert(
                        id@,
                        (SafeView {
                            created_at: now,
                            open_duration: repr.open_duration,
                            unlocks_left: requested_unlocks(*repr),
                            nonce: repr.nonce@,
                            secrets: repr.secrets@,
                        }),
                    )
                },
                None => *final(self) == *old(self),
            },
    {
        match self.fresh_handle() {
            Some(id) => {
                let safe = Safe::from_representation(repr, now);
                let handle = id.clone();
                self.lock_safe(id, safe);
                Some(handle)
            },
            None => None,
        }
    }
}

} // verus!
