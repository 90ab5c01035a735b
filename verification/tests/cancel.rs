use perp_orderbook::account::{Account, PerpOpenOrder, FREE_ORDER_SLOT};
use perp_orderbook::book::Orderbook;
use perp_orderbook::bookside::BookSide;
use perp_orderbook::error::Error;
use perp_orderbook::event::EventQueue;
use perp_orderbook::fixed_point::I80F48;
use perp_orderbook::key::new_node_key;
use perp_orderbook::liquidation::{
    decide_force_cancel, perp_liq_force_cancel_orders, ForceCancel, HealthCheck,
};
use perp_orderbook::market::PerpMarket;
use perp_orderbook::node::{AccountId, LeafNode};
use perp_orderbook::order::{Order, OrderParams, PostOrderType};
use perp_orderbook::side::{BookSideOrderTree, Side, SideAndOrderTree};

const ONE: i128 = 1 << 48;

fn market() -> PerpMarket {
    PerpMarket {
        perp_market_index: 0,
        base_lot_size: 1,
        quote_lot_size: 1,
        maker_fee: I80F48::from_bits(0),
        taker_fee: I80F48::from_bits(0),
        fee_penalty: I80F48::from_bits(0),
        fees_accrued: I80F48::from_bits(0),
        seq_num: 0,
        price_band_upper: I80F48::from_bits(2 * ONE),
        price_band_lower: I80F48::from_bits(ONE / 2),
    }
}

fn pk(n: u128) -> AccountId {
    AccountId { hi: 0, lo: n }
}

fn limit_order(side: Side, base: i64, price: i64) -> Order {
    Order {
        side,
        max_base_lots: base,
        max_quote_lots: i64::MAX,
        client_order_id: 7,
        time_in_force: 0,
        params: OrderParams::Fixed { price_lots: price, order_type: PostOrderType::Limit },
    }
}

struct World {
    book: Orderbook,
    market: PerpMarket,
    queue: EventQueue,
    account: Account,
}

/// Bids at 90, 91, 92 and asks at 110, 111 of one account.
fn world() -> World {
    let mut w = World {
        book: Orderbook { bids: BookSide::new(Side::Bid, 8), asks: BookSide::new(Side::Ask, 8) },
        market: market(),
        queue: EventQueue::new(64),
        account: Account::new(1, 8),
    };
    w.account.perp_positions[0].market_index = 0;
    for (side, price) in
        [(Side::Bid, 90), (Side::Ask, 110), (Side::Bid, 91), (Side::Ask, 111), (Side::Bid, 92)]
    {
        let r = w.book.new_order(
            limit_order(side, 2, price),
            &mut w.market,
            &mut w.queue,
            I80F48::from_num(100),
            &mut w.account,
            &pk(1),
            1000,
            10,
        );
        assert!(matches!(r, Ok(Some(_))));
    }
    w
}

fn slots(account: &Account) -> Vec<PerpOpenOrder> {
    (0..account.perp_oo_count()).map(|i| account.perp_order_by_raw_index(i).unwrap()).collect()
}

fn bid_keys(book: &Orderbook) -> Vec<u128> {
    (0..book.bids.len())
        .map(|i| book.bids.node_at(BookSideOrderTree::Fixed, i).unwrap().key)
        .collect()
}

#[test]
fn cancel_removes_the_order_and_frees_the_slot() {
    let mut w = world();
    let id = new_node_key(Side::Bid, 91, 3);
    let r = w.book.cancel_order(&mut w.account, id, SideAndOrderTree::BidFixed, Some(pk(1)));
    let leaf: LeafNode = r.unwrap();
    assert_eq!(leaf.key, id);
    assert_eq!(leaf.quantity, 2);
    assert_eq!(leaf.owner_slot, 2);
    assert_eq!(w.book.bids.len(), 2);
    assert!(!w.book.bids.contains_key(BookSideOrderTree::Fixed, id));
    assert_eq!(w.account.perp_open_orders[2], PerpOpenOrder::free());
    assert_eq!(w.account.perp_open_orders[2].market, FREE_ORDER_SLOT);
    assert_eq!(w.account.perp_positions[0].bids_base_lots, 4);
    assert_eq!(w.account.perp_positions[0].asks_base_lots, 4);
    // the freed slot is the next to be used
    assert_eq!(w.account.perp_next_order_slot(), Ok(2));
}

#[test]
fn cancel_of_unknown_key_changes_nothing() {
    let mut w = world();
    let keys = bid_keys(&w.book);
    let before = slots(&w.account);
    let position = w.account.perp_positions[0];
    for (id, place) in [
        (12345u128, SideAndOrderTree::BidFixed),
        // right key, wrong side
        (new_node_key(Side::Bid, 91, 3), SideAndOrderTree::AskFixed),
        // right key, wrong collection
        (new_node_key(Side::Bid, 91, 3), SideAndOrderTree::BidOraclePegged),
    ] {
        let r = w.book.cancel_order(&mut w.account, id, place, None);
        assert_eq!(r, Err(Error::OrderNotFound));
        assert_eq!(bid_keys(&w.book), keys);
        assert_eq!(w.book.asks.len(), 2);
        assert_eq!(slots(&w.account), before);
        assert_eq!(w.account.perp_positions[0], position);
    }
}

#[test]
fn cancel_twice_reports_not_found_the_second_time() {
    let mut w = world();
    let id = new_node_key(Side::Ask, 110, 2);
    assert!(w.book.cancel_order(&mut w.account, id, SideAndOrderTree::AskFixed, None).is_ok());
    let keys = bid_keys(&w.book);
    let before = slots(&w.account);
    let r = w.book.cancel_order(&mut w.account, id, SideAndOrderTree::AskFixed, None);
    assert_eq!(r, Err(Error::OrderNotFound));
    assert_eq!(bid_keys(&w.book), keys);
    assert_eq!(w.book.asks.len(), 1);
    assert_eq!(slots(&w.account), before);
}

#[test]
fn cancel_checks_the_expected_owner() {
    let mut w = world();
    let id = new_node_key(Side::Bid, 92, 5);
    let r = w.book.cancel_order(&mut w.account, id, SideAndOrderTree::BidFixed, Some(pk(2)));
    assert_eq!(r, Err(Error::AuthorizationMismatch));
    assert_eq!(w.book.bids.len(), 3);
    assert_eq!(w.account.perp_open_orders[4].id, id);
    assert_eq!(w.account.perp_positions[0].bids_base_lots, 6);
}

#[test]
fn cancel_fails_when_the_slot_is_not_live() {
    let mut w = world();
    let id = new_node_key(Side::Bid, 92, 5);
    let mut stranger = Account::new(1, 8);
    stranger.perp_positions[0].market_index = 0;
    let r = w.book.cancel_order(&mut stranger, id, SideAndOrderTree::BidFixed, None);
    assert_eq!(r, Err(Error::InvariantViolation));
    assert_eq!(w.book.bids.len(), 3);

    let mut lost = Account::new(1, 8);
    lost.perp_open_orders[4].market = 5;
    let r = w.book.cancel_order(&mut lost, id, SideAndOrderTree::BidFixed, None);
    assert_eq!(r, Err(Error::PositionNotFound));
    assert_eq!(w.book.bids.len(), 3);
}

#[test]
fn cancel_all_cancels_every_order_of_the_market() {
    let mut w = world();
    assert_eq!(w.book.cancel_all_orders(&mut w.account, &mut w.market, 10, None), Ok(()));
    assert_eq!(w.book.bids.len(), 0);
    assert_eq!(w.book.asks.len(), 0);
    assert!(slots(&w.account).iter().all(|s| *s == PerpOpenOrder::free()));
    assert_eq!(w.account.perp_positions[0].bids_base_lots, 0);
    assert_eq!(w.account.perp_positions[0].asks_base_lots, 0);
}

#[test]
fn cancel_all_stops_at_the_limit() {
    let mut w = world();
    assert_eq!(w.book.cancel_all_orders(&mut w.account, &mut w.market, 2, None), Ok(()));
    // the slots are gone through in order: the bid at 90 and the ask at 110 went
    assert_eq!(w.book.bids.len(), 2);
    assert_eq!(w.book.asks.len(), 1);
    assert_eq!(w.account.perp_open_orders[0].market, FREE_ORDER_SLOT);
    assert_eq!(w.account.perp_open_orders[1].market, FREE_ORDER_SLOT);
    assert_eq!(w.account.perp_open_orders[2].market, 0);

    let mut w = world();
    assert_eq!(w.book.cancel_all_orders(&mut w.account, &mut w.market, 0, None), Ok(()));
    assert_eq!(w.book.bids.len(), 3);
    assert_eq!(w.book.asks.len(), 2);
}

#[test]
fn cancel_all_filters_by_side_and_market() {
    let mut w = world();
    assert_eq!(
        w.book.cancel_all_orders(&mut w.account, &mut w.market, 10, Some(Side::Ask)),
        Ok(()),
    );
    assert_eq!(w.book.bids.len(), 3);
    assert_eq!(w.book.asks.len(), 0);
    assert_eq!(w.account.perp_positions[0].asks_base_lots, 0);
    assert_eq!(w.account.perp_positions[0].bids_base_lots, 6);

    let mut other = market();
    other.perp_market_index = 1;
    assert_eq!(w.book.cancel_all_orders(&mut w.account, &mut other, 10, None), Ok(()));
    assert_eq!(w.book.bids.len(), 3);
}

#[test]
fn cancel_all_passes_over_orders_that_left_the_book() {
    let mut w = world();
    // the bid at 91 was filled: it is off the book while its slot is still taken
    let gone = new_node_key(Side::Bid, 91, 3);
    assert!(w.book.bids.remove_by_key(BookSideOrderTree::Fixed, gone).is_some());
    assert_eq!(w.book.cancel_all_orders(&mut w.account, &mut w.market, 3, None), Ok(()));
    // three slots were dealt with, the one of the missing order among them
    assert_eq!(w.account.perp_open_orders[0].market, FREE_ORDER_SLOT);
    assert_eq!(w.account.perp_open_orders[1].market, FREE_ORDER_SLOT);
    assert_eq!(w.account.perp_open_orders[2].id, gone);
    assert_eq!(w.account.perp_open_orders[3].market, 0);
    assert_eq!(w.book.bids.len(), 1);
    assert_eq!(w.book.asks.len(), 1);
}

#[test]
fn cancel_all_halts_on_other_errors() {
    let mut w = world();
    // the second order's slot records a market in which the account has no position
    w.account.perp_positions[0].market_index = FREE_ORDER_SLOT;
    let r = w.book.cancel_all_orders(&mut w.account, &mut w.market, 10, None);
    assert_eq!(r, Err(Error::PositionNotFound));
    assert_eq!(w.book.bids.len(), 3);
    assert_eq!(w.book.asks.len(), 2);
}

#[test]
fn forced_cancellation_follows_the_health_check() {
    assert_eq!(decide_force_cancel(true, HealthCheck::Liquidatable), ForceCancel::Proceed);
    assert_eq!(decide_force_cancel(true, HealthCheck::NotLiquidatable), ForceCancel::Skip);
    assert_eq!(decide_force_cancel(true, HealthCheck::HealthNotNegative), ForceCancel::Fail);
    for health in
        [HealthCheck::Liquidatable, HealthCheck::NotLiquidatable, HealthCheck::HealthNotNegative]
    {
        assert_eq!(decide_force_cancel(false, health), ForceCancel::Proceed);
    }

    let mut w = world();
    let r = perp_liq_force_cancel_orders(
        &mut w.book,
        &mut w.account,
        &mut w.market,
        10,
        true,
        HealthCheck::NotLiquidatable,
    );
    assert_eq!(r, Ok(false));
    assert_eq!(w.book.bids.len(), 3);
    let r = perp_liq_force_cancel_orders(
        &mut w.book,
        &mut w.account,
        &mut w.market,
        10,
        true,
        HealthCheck::HealthNotNegative,
    );
    assert_eq!(r, Err(Error::HealthMustBeNegative));
    assert_eq!(w.book.bids.len(), 3);
    let r = perp_liq_force_cancel_orders(
        &mut w.book,
        &mut w.account,
        &mut w.market,
        2,
        true,
        HealthCheck::Liquidatable,
    );
    assert_eq!(r, Ok(true));
    assert_eq!(w.book.bids.len() + w.book.asks.len(), 3);
    let r = perp_liq_force_cancel_orders(
        &mut w.book,
        &mut w.account,
        &mut w.market,
        10,
        false,
        HealthCheck::HealthNotNegative,
    );
    assert_eq!(r, Ok(true));
    assert_eq!(w.book.bids.len() + w.book.asks.len(), 0);
}

#[test]
fn init_sets_the_sides_and_keeps_every_order() {
    let mut book =
        Orderbook { bids: BookSide::new(Side::Ask, 3), asks: BookSide::new(Side::Ask, 5) };
    book.init();
    assert_eq!(book.bids.side(), Side::Bid);
    assert_eq!(book.asks.side(), Side::Ask);
    assert_eq!(book.bids.capacity(), 3);
    assert_eq!(book.asks.capacity(), 5);
    assert_eq!(book.bookside(Side::Bid).side(), Side::Bid);
    assert_eq!(book.bookside_mut(Side::Ask).side(), Side::Ask);
    let mut w = world();
    let bids = bid_keys(&w.book);
    let asks: Vec<LeafNode> =
        (0..2).map(|i| w.book.asks.node_at(BookSideOrderTree::Fixed, i).unwrap()).collect();
    let open_orders = slots(&w.account);
    w.book.init();
    w.book.init();
    assert_eq!(bid_keys(&w.book), bids);
    assert_eq!(w.book.asks.len(), 2);
    for (i, ask) in asks.iter().enumerate() {
        assert_eq!(w.book.asks.node_at(BookSideOrderTree::Fixed, i), Some(*ask));
    }
    assert_eq!(slots(&w.account), open_orders);
    assert_eq!(w.queue.len(), 0);
    // the book works as before
    let id = new_node_key(Side::Bid, 92, 5);
    assert!(w.book.cancel_order(&mut w.account, id, SideAndOrderTree::BidFixed, None).is_ok());
}

#[test]
fn funding_reads_best_bid_and_ask() {
    let w = world();
    let inputs = perp_orderbook::funding::perp_update_funding(
        &w.book,
        &w.market,
        I80F48::from_num(100),
        1000,
    )
    .unwrap();
    assert_eq!(inputs.oracle_price_lots, 100);
    assert_eq!(inputs.best_bid, Some(92));
    assert_eq!(inputs.best_ask, Some(110));
    let empty = Orderbook { bids: BookSide::new(Side::Bid, 1), asks: BookSide::new(Side::Ask, 1) };
    let inputs =
        perp_orderbook::funding::perp_update_funding(&empty, &w.market, I80F48::from_num(7), 0)
            .unwrap();
    assert_eq!((inputs.oracle_price_lots, inputs.best_bid, inputs.best_ask), (7, None, None));
    let mut broken = w.market;
    broken.quote_lot_size = 0;
    assert_eq!(
        perp_orderbook::funding::perp_update_funding(&w.book, &broken, I80F48::from_num(100), 0),
        Err(Error::MathOverflow)
    );
}
