use perp_orderbook::bookside::BookSide;
use perp_orderbook::error::Error;
use perp_orderbook::iter::{BookSideIterItem, OrderState};
use perp_orderbook::key::{fixed_price_data, new_node_key, oracle_pegged_price_data};
use perp_orderbook::node::{AccountId, LeafNode};
use perp_orderbook::placement::has_room_for;
use perp_orderbook::side::{BookSideOrderTree, Side};

fn leaf(key: u128, quantity: i64, timestamp: u64, tif: u16) -> LeafNode {
    LeafNode::new(0, key, AccountId { hi: 1, lo: 2 }, quantity, timestamp, tif, None, 0)
}

fn fixed(side: Side, price: i64, seq: u64) -> LeafNode {
    leaf(new_node_key(side, fixed_price_data(price).unwrap(), seq), 1, 0, 0)
}

fn pegged(side: Side, offset: i64, seq: u64, peg_limit: Option<i64>) -> LeafNode {
    let mut node = leaf(new_node_key(side, oracle_pegged_price_data(offset), seq), 1, 0, 0);
    node.peg_limit = peg_limit;
    node
}

fn traverse(book: &BookSide, now_ts: u64, oracle: i64) -> Vec<BookSideIterItem> {
    let mut it = book.iter_all_including_invalid(now_ts, oracle);
    let mut items = Vec::new();
    while let Some(item) = it.next(book) {
        items.push(item);
    }
    items
}

#[test]
fn bids_are_traversed_highest_price_first_then_oldest() {
    let mut book = BookSide::new(Side::Bid, 10);
    for (price, seq) in [(100, 3), (101, 4), (100, 1), (99, 2), (101, 5)] {
        book.insert_leaf(BookSideOrderTree::Fixed, &fixed(Side::Bid, price, seq)).unwrap();
    }
    let order: Vec<(i64, u128)> = traverse(&book, 0, 100)
        .iter()
        .map(|i| (i.price_lots, new_node_key(Side::Bid, i.price_lots as u64, 0) - i.node.key))
        .collect();
    assert_eq!(order, vec![(101, 4), (101, 5), (100, 1), (100, 3), (99, 2)]);
}

#[test]
fn asks_are_traversed_lowest_price_first_then_oldest() {
    let mut book = BookSide::new(Side::Ask, 10);
    for (price, seq) in [(100, 3), (101, 4), (100, 1), (99, 2), (101, 5)] {
        book.insert_leaf(BookSideOrderTree::Fixed, &fixed(Side::Ask, price, seq)).unwrap();
    }
    let order: Vec<(i64, u128)> = traverse(&book, 0, 100)
        .iter()
        .map(|i| (i.price_lots, i.node.key & 0xffff_ffff_ffff_ffff))
        .collect();
    assert_eq!(order, vec![(99, 2), (100, 1), (100, 3), (101, 4), (101, 5)]);
}

#[test]
fn fixed_and_pegged_orders_are_merged_by_price_and_time() {
    let mut book = BookSide::new(Side::Ask, 10);
    book.insert_leaf(BookSideOrderTree::Fixed, &fixed(Side::Ask, 100, 5)).unwrap();
    book.insert_leaf(BookSideOrderTree::Fixed, &fixed(Side::Ask, 102, 1)).unwrap();
    book.insert_leaf(BookSideOrderTree::OraclePegged, &pegged(Side::Ask, 0, 4, None)).unwrap();
    book.insert_leaf(BookSideOrderTree::OraclePegged, &pegged(Side::Ask, 2, 2, None)).unwrap();
    book.insert_leaf(BookSideOrderTree::OraclePegged, &pegged(Side::Ask, -1, 3, None)).unwrap();
    let order: Vec<(BookSideOrderTree, i64, u128)> = traverse(&book, 0, 100)
        .iter()
        .map(|i| (i.handle.order_tree, i.price_lots, i.node.key & 0xffff_ffff_ffff_ffff))
        .collect();
    assert_eq!(
        order,
        vec![
            (BookSideOrderTree::OraclePegged, 99, 3),
            (BookSideOrderTree::OraclePegged, 100, 4),
            (BookSideOrderTree::Fixed, 100, 5),
            (BookSideOrderTree::Fixed, 102, 1),
            (BookSideOrderTree::OraclePegged, 102, 2),
        ]
    );
    // with another oracle price the pegged orders move
    let prices: Vec<i64> = traverse(&book, 0, 103).iter().map(|i| i.price_lots).collect();
    assert_eq!(prices, vec![100, 102, 102, 103, 105]);
}

#[test]
fn items_are_tagged_invalid_when_expired_or_unpriceable() {
    let mut book = BookSide::new(Side::Ask, 10);
    book.insert_leaf(BookSideOrderTree::Fixed, &leaf(new_node_key(Side::Ask, 100, 1), 1, 50, 10))
        .unwrap();
    book.insert_leaf(BookSideOrderTree::OraclePegged, &pegged(Side::Ask, -100, 2, None)).unwrap();
    book.insert_leaf(BookSideOrderTree::OraclePegged, &pegged(Side::Ask, 5, 3, Some(104))).unwrap();
    let states = |now, oracle| -> Vec<(i64, OrderState)> {
        traverse(&book, now, oracle).iter().map(|i| (i.price_lots, i.state)).collect()
    };
    assert_eq!(
        states(59, 100),
        vec![
            (0, OrderState::Invalid),
            (100, OrderState::Valid),
            (105, OrderState::Valid),
        ]
    );
    assert_eq!(
        states(60, 101),
        vec![
            (1, OrderState::Valid),
            (100, OrderState::Invalid),
            (106, OrderState::Valid),
        ]
    );
    // an ask pegged below its limit is not matched
    assert_eq!(states(0, 98)[2], (103, OrderState::Invalid));
    assert_eq!(states(0, 99)[2], (104, OrderState::Valid));
    // a pegged price that leaves the range of prices is held at the bound
    assert_eq!(states(0, i64::MAX)[2], (i64::MAX, OrderState::Invalid));
    assert_eq!(states(0, i64::MIN + 50)[0], (i64::MIN, OrderState::Invalid));
}

#[test]
fn insert_refuses_duplicates_malformed_orders_and_overflow() {
    let mut book = BookSide::new(Side::Bid, 2);
    let a = fixed(Side::Bid, 10, 1);
    assert_eq!(book.insert_leaf(BookSideOrderTree::Fixed, &a), Ok(0));
    assert_eq!(book.insert_leaf(BookSideOrderTree::Fixed, &a), Err(Error::InvariantViolation));
    // the same key may stand in the other collection
    assert_eq!(book.insert_leaf(BookSideOrderTree::OraclePegged, &a), Ok(0));
    assert!(book.is_full());
    assert_eq!(
        book.insert_leaf(BookSideOrderTree::Fixed, &fixed(Side::Bid, 11, 2)),
        Err(Error::CapacityExceeded)
    );
    assert_eq!(book.len(), 2);

    let mut book = BookSide::new(Side::Bid, 2);
    let mut empty = fixed(Side::Bid, 10, 1);
    empty.quantity = 0;
    assert_eq!(book.insert_leaf(BookSideOrderTree::Fixed, &empty), Err(Error::InvariantViolation));
    let no_price = leaf(new_node_key(Side::Bid, 0, 1), 1, 0, 0);
    assert_eq!(
        book.insert_leaf(BookSideOrderTree::Fixed, &no_price),
        Err(Error::InvariantViolation),
    );
    assert_eq!(book.insert_leaf(BookSideOrderTree::OraclePegged, &no_price), Ok(0));
    assert_eq!(book.len(), 1);
}

#[test]
fn insert_returns_the_place_in_priority_order() {
    let mut book = BookSide::new(Side::Bid, 10);
    assert_eq!(book.insert_leaf(BookSideOrderTree::Fixed, &fixed(Side::Bid, 10, 1)), Ok(0));
    assert_eq!(book.insert_leaf(BookSideOrderTree::Fixed, &fixed(Side::Bid, 12, 2)), Ok(0));
    assert_eq!(book.insert_leaf(BookSideOrderTree::Fixed, &fixed(Side::Bid, 11, 3)), Ok(1));
    assert_eq!(book.insert_leaf(BookSideOrderTree::Fixed, &fixed(Side::Bid, 11, 4)), Ok(2));
    assert_eq!(book.insert_leaf(BookSideOrderTree::Fixed, &fixed(Side::Bid, 9, 5)), Ok(4));
}

#[test]
fn remove_by_key_returns_the_order_or_nothing() {
    let mut book = BookSide::new(Side::Ask, 10);
    let a = fixed(Side::Ask, 10, 1);
    let b = fixed(Side::Ask, 11, 2);
    book.insert_leaf(BookSideOrderTree::Fixed, &a).unwrap();
    book.insert_leaf(BookSideOrderTree::Fixed, &b).unwrap();
    assert_eq!(book.remove_by_key(BookSideOrderTree::OraclePegged, a.key), None);
    assert_eq!(book.remove_by_key(BookSideOrderTree::Fixed, 12345), None);
    assert_eq!(book.len(), 2);
    assert_eq!(book.remove_by_key(BookSideOrderTree::Fixed, a.key), Some(a));
    assert_eq!(book.remove_by_key(BookSideOrderTree::Fixed, a.key), None);
    assert_eq!(book.len(), 1);
    assert_eq!(book.node_at(BookSideOrderTree::Fixed, 0), Some(b));
    assert!(book.contains_key(BookSideOrderTree::Fixed, b.key));
    assert!(!book.contains_key(BookSideOrderTree::Fixed, a.key));
}

#[test]
fn remove_one_expired_takes_the_earliest_expiry_of_the_collection() {
    let mut book = BookSide::new(Side::Ask, 10);
    let never = leaf(new_node_key(Side::Ask, 10, 1), 1, 0, 0);
    let late = leaf(new_node_key(Side::Ask, 11, 2), 1, 100, 50);
    let early = leaf(new_node_key(Side::Ask, 12, 3), 1, 100, 20);
    let other = leaf(new_node_key(Side::Ask, oracle_pegged_price_data(0), 4), 1, 0, 10);
    for n in [&never, &late, &early] {
        book.insert_leaf(BookSideOrderTree::Fixed, n).unwrap();
    }
    book.insert_leaf(BookSideOrderTree::OraclePegged, &other).unwrap();
    assert_eq!(early.expiry(), 120);
    assert_eq!(never.expiry(), u64::MAX);
    assert_eq!(book.remove_one_expired(BookSideOrderTree::Fixed, 5), None);
    assert_eq!(book.len(), 4);
    // only the pegged order is expired: the fixed collection gives nothing
    assert_eq!(book.remove_one_expired(BookSideOrderTree::Fixed, 119), None);
    assert_eq!(book.remove_one_expired(BookSideOrderTree::OraclePegged, 119), Some(other));
    assert_eq!(book.remove_one_expired(BookSideOrderTree::OraclePegged, 119), None);
    assert_eq!(book.remove_one_expired(BookSideOrderTree::Fixed, 200), Some(early));
    assert_eq!(book.remove_one_expired(BookSideOrderTree::Fixed, 200), Some(late));
    assert_eq!(book.remove_one_expired(BookSideOrderTree::Fixed, u64::MAX), None);
    assert_eq!(book.len(), 1);
}

#[test]
fn worst_is_the_last_valid_order() {
    let mut book = BookSide::new(Side::Bid, 10);
    assert_eq!(book.remove_worst(0, 100), None);
    book.insert_leaf(BookSideOrderTree::Fixed, &fixed(Side::Bid, 90, 1)).unwrap();
    book.insert_leaf(BookSideOrderTree::Fixed, &leaf(new_node_key(Side::Bid, 80, 2), 3, 0, 10))
        .unwrap();
    book.insert_leaf(BookSideOrderTree::OraclePegged, &pegged(Side::Bid, -15, 3, None)).unwrap();
    assert_eq!(book.best_price(0, 100), Some(90));
    assert_eq!(book.worst(0, 100).unwrap().price_lots, 80);
    // once the bid at 80 has expired the pegged bid at 85 is the worst
    let worst = book.worst(10, 100).unwrap();
    assert_eq!(worst.price_lots, 85);
    assert_eq!(worst.handle.order_tree, BookSideOrderTree::OraclePegged);
    let (node, price) = book.remove_worst(10, 100).unwrap();
    assert_eq!(price, 85);
    assert_eq!(node.key, new_node_key(Side::Bid, oracle_pegged_price_data(-15), 3));
    assert_eq!(book.tree_len(BookSideOrderTree::OraclePegged), 0);
    assert_eq!(book.len(), 2);
    assert_eq!(book.remove_worst(10, 100).unwrap().1, 90);
    // only an expired order is left: nothing is valid
    assert_eq!(book.remove_worst(10, 100), None);
    assert_eq!(book.len(), 1);
    assert_eq!(book.best_price(10, 100), None);
}

#[test]
fn store_reports_its_size() {
    let mut book = BookSide::new(Side::Ask, 1);
    assert_eq!(book.side(), Side::Ask);
    assert_eq!(book.capacity(), 1);
    assert!(book.is_empty());
    assert!(!book.is_full());
    book.insert_leaf(BookSideOrderTree::Fixed, &fixed(Side::Ask, 5, 1)).unwrap();
    assert!(!book.is_empty());
    assert!(book.is_full());
    assert_eq!(book.node_at(BookSideOrderTree::Fixed, 1), None);
    assert_eq!(
        book.position_of_key(BookSideOrderTree::Fixed, new_node_key(Side::Ask, 5, 1)),
        Some(0),
    );
    assert_eq!(book.position_of_key(BookSideOrderTree::Fixed, 1), None);
    let zero = BookSide::new(Side::Bid, 0);
    assert!(zero.is_full());
    assert!(!book.has_expired(BookSideOrderTree::Fixed, u64::MAX));
    let mut marked = BookSide::new(Side::Bid, 2);
    marked.set_side(Side::Ask);
    assert_eq!(marked.side(), Side::Ask);
    assert_eq!(marked.capacity(), 2);
    assert!(marked.is_empty());
}

#[test]
fn room_is_decided_without_changing_the_side() {
    let mut book = BookSide::new(Side::Bid, 2);
    assert!(has_room_for(&book, BookSideOrderTree::Fixed, 1, 0, 100));
    book.insert_leaf(BookSideOrderTree::Fixed, &fixed(Side::Bid, 10, 1)).unwrap();
    book.insert_leaf(BookSideOrderTree::Fixed, &leaf(new_node_key(Side::Bid, 12, 2), 1, 0, 5))
        .unwrap();
    // full: only a price that beats the worst bid at 10 finds room
    assert!(!has_room_for(&book, BookSideOrderTree::Fixed, 10, 0, 100));
    assert!(!has_room_for(&book, BookSideOrderTree::Fixed, 9, 0, 100));
    assert!(has_room_for(&book, BookSideOrderTree::Fixed, 11, 0, 100));
    assert!(!has_room_for(&book, BookSideOrderTree::OraclePegged, 10, 0, 100));
    // once the bid at 12 has expired it gives way to any fixed order
    assert!(has_room_for(&book, BookSideOrderTree::Fixed, 1, 5, 100));
    // but not to a pegged one: its collection holds no expired order
    assert!(!has_room_for(&book, BookSideOrderTree::OraclePegged, 10, 5, 100));
    assert_eq!(book.len(), 2);
    let empty = BookSide::new(Side::Bid, 0);
    assert!(!has_room_for(&empty, BookSideOrderTree::Fixed, 10, 0, 100));
}
