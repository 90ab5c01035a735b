//! Resting orders.

use vstd::prelude::*;
use crate::key::key_price_data;

verus! {

/// Identifier of an account: 32 bytes, held as two 128-bit halves.
#[derive(Clone, Copy, Debug, PartialEq, Eq, Structural)]
pub struct AccountId {
    pub hi: u128,
    pub lo: u128,
}

/// A resting order.
#[derive(Clone, Copy, Debug, PartialEq, Eq, Structural)]
pub struct LeafNode {
    /// Index of the owner's open-order slot that records this order.
    pub owner_slot: u8,
    /// Seconds after `timestamp` at which the order expires; 0 means never.
    pub time_in_force: u16,
    /// The order key: price word above the sequence word.
    pub key: u128,
    /// The owning account.
    pub owner: AccountId,
    /// Base lots that remain to be matched.
    pub quantity: i64,
    /// Time at which the order was placed.
    pub timestamp: u64,
    /// For a pegged order, the price beyond which it does not match.
    pub peg_limit: Option<i64>,
    /// Identifier chosen by the owner.
    pub client_order_id: u64,
}

impl LeafNode {
    pub open spec fn spec_price_data(&self) -> u64 {
        key_price_data(self.key) as u64
    }

    /// The order's time in force has run out at `now_ts`.
    pub open spec fn spec_is_expired(&self, now_ts: u64) -> bool {
        self.time_in_force > 0 && now_ts >= self.timestamp + self.time_in_force
    }

    /// First second at which the order is expired; `u64::MAX` if never.
    pub open spec fn spec_expiry(&self) -> u64 {
        if self.time_in_force == 0 || self.timestamp + self.time_in_force > u64::MAX {
            u64::MAX
        } else {
            (self.timestamp + self.time_in_force) as u64
        }
    }

    /// The same order with another remaining quantity.
    pub open spec fn with_quantity(self, quantity: i64) -> LeafNode {
        LeafNode { quantity, ..self }
    }

    #[allow(clippy::too_many_arguments)]
    pub fn new(
        owner_slot: u8,
        key: u128,
        owner: AccountId,
        quantity: i64,
        timestamp: u64,
        time_in_force: u16,
        peg_limit: Option<i64>,
        client_order_id: u64,
    ) -> (node: LeafNode)
        ensures
            node == (LeafNode {
                owner_slot,
                time_in_force,
                key,
                owner,
                quantity,
                timestamp,
                peg_limit,
                client_order_id,
            }),
    {
        LeafNode {
            owner_slot,
            time_in_force,
            key,
            owner,
            quantity,
            timestamp,
            peg_limit,
            client_order_id,
        }
    }

    /// The price word of the order's key.
    #[verifier::when_used_as_spec(spec_price_data)]
    pub fn price_data(&self) -> (r: u64)
        ensures
            r == self.spec_price_data(),
            r == key_price_data(self.key),
    {
        let r: u64 = (self.key >> 64) as u64;
        proof {
            let k = self.key;
            assert(k >> 64 == k / 0x1_0000_0000_0000_0000u128) by (bit_vector);
            assert(k >> 64 <= 0xffff_ffff_ffff_ffffu128) by (bit_vector);
        }
        r
    }

    #[verifier::when_used_as_spec(spec_is_expired)]
    pub fn is_expired(&self, now_ts: u64) -> (r: bool)
        ensures
            r == self.spec_is_expired(now_ts),
    {
        self.time_in_force > 0 && now_ts >= self.timestamp && now_ts - self.timestamp
            >= self.time_in_force as u64
    }

    #[verifier::when_used_as_spec(spec_expiry)]
    pub fn expiry(&self) -> (r: u64)
        ensures
            r == self.spec_expiry(),
    {
        if self.time_in_force == 0 {
            u64::MAX
        } else {
            self.timestamp.saturating_add(self.time_in_force as u64)
        }
    }
}

} // verus!
