//! Order keys: side, price and sequence number in one number that orders the
//! resting orders of a collection.

use vstd::prelude::*;
use crate::error::Error;
use crate::side::Side;

verus! {

/// Two to the power 64: the weight of the price word inside an order key.
pub open spec fn key_radix() -> int {
    0x1_0000_0000_0000_0000
}

/// Offset that maps the signed peg offsets onto the unsigned price word so
/// that the order of the offsets is kept.
pub open spec fn peg_bias() -> int {
    0x8000_0000_0000_0000
}

/// The low word of an order key: the sequence number for an ask, its
/// complement for a bid, so that among bids of one price the earlier order has
/// the larger key.
pub open spec fn key_low_word(side: Side, seq_num: u64) -> int {
    match side {
        Side::Bid => u64::MAX - seq_num,
        Side::Ask => seq_num as int,
    }
}

/// The key of an order: the price word above the low word.
pub open spec fn node_key(side: Side, price_data: u64, seq_num: u64) -> int {
    price_data * key_radix() + key_low_word(side, seq_num)
}

/// The price word of a key.
pub open spec fn key_price_data(key: u128) -> int {
    key as int / key_radix()
}

/// The sequence number that a key on `side` was made from.
pub open spec fn key_seq_num(side: Side, key: u128) -> int {
    match side {
        Side::Bid => u64::MAX - (key as int % key_radix()),
        Side::Ask => key as int % key_radix(),
    }
}

/// The price word of a key is the one it was made from, and so is the
/// sequence number.
pub proof fn lemma_node_key_parts(side: Side, price_data: u64, seq_num: u64)
    ensures
        0 <= node_key(side, price_data, seq_num) <= u128::MAX,
        key_price_data(node_key(side, price_data, seq_num) as u128) == price_data,
        key_seq_num(side, node_key(side, price_data, seq_num) as u128) == seq_num,
{
    let low = key_low_word(side, seq_num);
    let k = node_key(side, price_data, seq_num);
    assert(0 <= low < key_radix());
    assert(k / key_radix() == price_data && k % key_radix() == low) by (nonlinear_arith)
        requires
            k == price_data * key_radix() + low,
            0 <= low < key_radix(),
            key_radix() > 0,
    ;
    assert(price_data * key_radix() <= 0xffff_ffff_ffff_ffff * key_radix()) by (nonlinear_arith)
        requires
            price_data <= 0xffff_ffff_ffff_ffff,
            key_radix() > 0,
    ;
}

/// Builds the key of an order from its side, price word and sequence number.
pub fn new_node_key(side: Side, price_data: u64, seq_num: u64) -> (key: u128)
    ensures
        key == node_key(side, price_data, seq_num),
        key_price_data(key) == price_data,
        key_seq_num(side, key) == seq_num,
{
    let low: u64 = match side {
        Side::Bid => !seq_num,
        Side::Ask => seq_num,
    };
    let key: u128 = ((price_data as u128) << 64) | (low as u128);
    proof {
        assert(!seq_num == 0xffff_ffff_ffff_ffffu64 - seq_num) by (bit_vector);
        assert(((price_data as u128) << 64) | (low as u128) == price_data as u128
            * 0x1_0000_0000_0000_0000u128 + low as u128) by (bit_vector);
        lemma_node_key_parts(side, price_data, seq_num);
    }
    key
}

/// The price word of an oracle-pegged order: its offset moved by the bias.
pub fn oracle_pegged_price_data(price_offset_lots: i64) -> (price_data: u64)
    ensures
        price_data == price_offset_lots + peg_bias(),
{
    if price_offset_lots >= 0 {
        price_offset_lots as u64 + 0x8000_0000_0000_0000u64
    } else {
        (price_offset_lots + i64::MAX + 1) as u64
    }
}

/// The peg offset held in a price word.
pub fn oracle_pegged_price_offset(price_data: u64) -> (price_offset_lots: i64)
    ensures
        price_offset_lots == price_data - peg_bias(),
{
    if price_data >= 0x8000_0000_0000_0000u64 {
        (price_data - 0x8000_0000_0000_0000u64) as i64
    } else {
        (price_data as i64 - i64::MAX) - 1
    }
}

/// The price word of a fixed-price order; a price below one lot is refused.
pub fn fixed_price_data(price_lots: i64) -> (r: Result<u64, Error>)
    ensures
        price_lots >= 1 ==> r == Ok::<u64, Error>(price_lots as u64),
        price_lots < 1 ==> r == Err::<u64, Error>(Error::InvalidPrice),
{
    if price_lots >= 1 {
        Ok(price_lots as u64)
    } else {
        Err(Error::InvalidPrice)
    }
}

/// The price in lots held in the price word of a fixed-price order.
pub fn fixed_price_lots(price_data: u64) -> (price_lots: i64)
    requires
        price_data <= i64::MAX,
    ensures
        price_lots == price_data,
{
    price_data as i64
}

} // verus!
