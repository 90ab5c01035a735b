use perp_orderbook::error::Error;
use perp_orderbook::key::{
    fixed_price_data, fixed_price_lots, new_node_key, oracle_pegged_price_data,
    oracle_pegged_price_offset,
};
use perp_orderbook::node::{AccountId, LeafNode};
use perp_orderbook::side::{BookSideOrderTree, Side, SideAndOrderTree};

#[test]
fn key_holds_price_above_sequence() {
    assert_eq!(new_node_key(Side::Ask, 100, 7), (100u128 << 64) | 7);
    assert_eq!(new_node_key(Side::Bid, 100, 7), (100u128 << 64) | (u64::MAX - 7) as u128);
    assert_eq!(new_node_key(Side::Ask, u64::MAX, u64::MAX), u128::MAX);
    assert_eq!(new_node_key(Side::Bid, 0, u64::MAX), 0);
}

#[test]
fn earlier_bid_has_the_larger_key_at_equal_price() {
    assert!(new_node_key(Side::Bid, 100, 1) > new_node_key(Side::Bid, 100, 2));
    assert!(new_node_key(Side::Bid, 101, 2) > new_node_key(Side::Bid, 100, 1));
    assert!(new_node_key(Side::Ask, 100, 1) < new_node_key(Side::Ask, 100, 2));
    assert!(new_node_key(Side::Ask, 99, 2) < new_node_key(Side::Ask, 100, 1));
}

#[test]
fn peg_offsets_keep_their_order_as_price_words() {
    assert_eq!(oracle_pegged_price_data(0), 1 << 63);
    assert_eq!(oracle_pegged_price_data(i64::MIN), 0);
    assert_eq!(oracle_pegged_price_data(i64::MAX), u64::MAX);
    assert_eq!(oracle_pegged_price_data(-1), (1 << 63) - 1);
    assert_eq!(oracle_pegged_price_data(5), (1 << 63) + 5);
    for offset in [i64::MIN, -77, -1, 0, 1, 12345, i64::MAX] {
        assert_eq!(oracle_pegged_price_offset(oracle_pegged_price_data(offset)), offset);
    }
}

#[test]
fn fixed_price_words_are_prices_of_at_least_one_lot() {
    assert_eq!(fixed_price_data(1), Ok(1));
    assert_eq!(fixed_price_data(i64::MAX), Ok(i64::MAX as u64));
    assert_eq!(fixed_price_data(0), Err(Error::InvalidPrice));
    assert_eq!(fixed_price_data(-5), Err(Error::InvalidPrice));
    assert_eq!(fixed_price_lots(42), 42);
}

#[test]
fn resting_order_reads_its_key_and_expiry() {
    let node = LeafNode::new(
        3,
        new_node_key(Side::Bid, 250, 9),
        AccountId { hi: 1, lo: 2 },
        4,
        1000,
        60,
        Some(300),
        77,
    );
    assert_eq!(node.price_data(), 250);
    assert_eq!(node.owner_slot, 3);
    assert_eq!(node.peg_limit, Some(300));
    assert_eq!(node.client_order_id, 77);
    assert_eq!(node.expiry(), 1060);
    assert!(!node.is_expired(1059));
    assert!(node.is_expired(1060));
    let mut forever = node;
    forever.time_in_force = 0;
    assert!(!forever.is_expired(u64::MAX));
    let mut late = node;
    late.timestamp = u64::MAX - 10;
    assert_eq!(late.expiry(), u64::MAX);
    assert!(!late.is_expired(u64::MAX));
}

#[test]
fn sides_and_collections() {
    assert_eq!(Side::Bid.invert_side(), Side::Ask);
    assert_eq!(Side::Ask.invert_side(), Side::Bid);
    assert!(Side::Bid.is_price_better(11, 10));
    assert!(!Side::Bid.is_price_better(10, 10));
    assert!(Side::Ask.is_price_better(9, 10));
    assert!(!Side::Ask.is_price_better(10, 10));
    assert!(Side::Bid.is_price_data_better(11, 10));
    assert!(Side::Ask.is_price_data_better(9, 10));
    assert!(Side::Bid.is_price_within_limit(10, 10));
    assert!(!Side::Bid.is_price_within_limit(11, 10));
    assert!(Side::Ask.is_price_within_limit(10, 10));
    assert!(!Side::Ask.is_price_within_limit(9, 10));
    assert_eq!(BookSideOrderTree::Fixed.other_tree(), BookSideOrderTree::OraclePegged);
    for side in [Side::Bid, Side::Ask] {
        for tree in [BookSideOrderTree::Fixed, BookSideOrderTree::OraclePegged] {
            let both = SideAndOrderTree::new(side, tree);
            assert_eq!(both.side(), side);
            assert_eq!(both.order_tree(), tree);
        }
    }
    assert_eq!(
        SideAndOrderTree::new(Side::Ask, BookSideOrderTree::OraclePegged),
        SideAndOrderTree::AskOraclePegged
    );
}
