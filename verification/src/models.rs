//! The value types of the escrow: what a client supplies at deposit time and
//! the entry the store keeps for each live handle.

use vstd::prelude::*;

verus! {

/// What a client supplies when depositing a secret, and what it gets back
/// when redeeming one. On deposit, `open_duration` is the time window in
/// seconds and `unlocks_left` is the optional unlock budget (one when
/// absent); on redemption the budget is never echoed back, so
/// `unlocks_left` is then `None`.
pub struct SafeRepresentation {
    pub open_duration: u64,
    pub unlocks_left: Option<u32>,
    pub nonce: String,
    pub secrets: String,
}

/// The mathematical value of one escrowed secret: creation time and window
/// in seconds, the remaining unlock budget, and the payload strings.
pub struct SafeView {
    pub created_at: u64,
    pub open_duration: u64,
    pub unlocks_left: u32,
    pub nonce: Seq<char>,
    pub secrets: Seq<char>,
}

/// One escrowed secret together with its expiry-policy state. Timestamps
/// are seconds on a monotonic clock supplied by the caller; `created_at`
/// and `open_duration` are set once at creation, and only `unlocks_left`
/// is ever mutated, by successful redemptions.
pub struct Safe {
    pub created_at: u64,
    pub open_duration: u64,
    pub unlocks_left: u32,
    pub nonce: String,
    pub secrets: String,
}

impl View for Safe {
    type V = SafeView;

    open spec fn view(&self) -> SafeView {
        SafeView {
            created_at: self.created_at,
            open_duration: self.open_duration,
            unlocks_left: self.unlocks_left,
            nonce: self.nonce@,
            secrets: self.secrets@,
        }
    }
}

impl Clone for Safe {
    fn clone(&self) -> (r: Self)
        ensures
            r@ == self@,
    {
        Safe {
            created_at: self.created_at,
            open_duration: self.open_duration,
            unlocks_left: self.unlocks_left,
            nonce: self.nonce.clone(),
            secrets: self.secrets.clone(),
        }
    }
}

/// The unlock budget a deposit asks for: the supplied count, or one when
/// none is supplied. A requested budget of zero is honoured as deposited
/// but treated as already exhausted: the first redemption attempt evicts
/// the entry without revealing the secret.
pub open spec fn requested_unlocks(repr: SafeRepresentation) -> u32 {
    match repr.unlocks_left {
        Some(u) => u,
        None => 1,
    }
}

impl Safe {
    /// Builds the entry stored for a fresh deposit made at time `now`.
    pub fn from_representation(repr: &SafeRepresentation, now: u64) -> (r: Self)
        ensures
            r@ == (SafeView {
                created_at: now,
                open_duration: repr.open_duration,
                unlocks_left: requested_unlocks(*repr),
                nonce: repr.nonce@,
                secrets: repr.secrets@,
            }),
    {
        let unlocks_left = match repr.unlocks_left {
            Some(u) => u,
            None => 1,
        };
        Safe {
            created_at: now,
            open_duration: repr.open_duration,
            unlocks_left,
            nonce: repr.nonce.clone(),
            secrets: repr.secrets.clone(),
        }
    }

    /// What a successful redemption hands back to the client: the payload
    /// and the window length, with the remaining budget withheld.
    pub fn to_representation(&self) -> (r: SafeRepresentation)
        ensures
            r.open_duration == self.open_duration,
            r.unlocks_left is None,
            r.nonce@ == self.nonce@,
            r.secrets@ == self.secrets@,
    {
        SafeRepresentation {
            open_duration: self.open_duration,
            unlocks_left: None,
            nonce: self.nonce.clone(),
            secrets: self.secrets.clone(),
        }
    }
}

} // verus!
