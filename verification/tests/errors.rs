use perp_orderbook::account::Account;
use perp_orderbook::book::Orderbook;
use perp_orderbook::bookside::BookSide;
use perp_orderbook::error::Error;
use perp_orderbook::event::{AnyEvent, EventQueue, OutEvent};
use perp_orderbook::fixed_point::I80F48;
use perp_orderbook::key::new_node_key;
use perp_orderbook::market::PerpMarket;
use perp_orderbook::node::{AccountId, LeafNode};
use perp_orderbook::order::{Order, OrderParams, PostOrderType};
use perp_orderbook::side::{BookSideOrderTree, Side};

const ONE: i128 = 1 << 48;

fn market() -> PerpMarket {
    PerpMarket {
        perp_market_index: 0,
        base_lot_size: 1,
        quote_lot_size: 1,
        maker_fee: I80F48::from_bits(-ONE / 8),
        taker_fee: I80F48::from_bits(ONE / 4),
        fee_penalty: I80F48::from_num(3),
        fees_accrued: I80F48::from_bits(0),
        seq_num: 0,
        price_band_upper: I80F48::from_bits(2 * ONE),
        price_band_lower: I80F48::from_bits(ONE / 2),
    }
}

fn account() -> Account {
    let mut account = Account::new(1, 2);
    account.perp_positions[0].market_index = 0;
    account
}

fn pk(n: u128) -> AccountId {
    AccountId { hi: 0, lo: n }
}

fn limit_order(side: Side, base: i64, price: i64) -> Order {
    Order {
        side,
        max_base_lots: base,
        max_quote_lots: i64::MAX,
        client_order_id: 7,
        time_in_force: 0,
        params: OrderParams::Fixed { price_lots: price, order_type: PostOrderType::Limit },
    }
}

struct World {
    book: Orderbook,
    market: PerpMarket,
    queue: EventQueue,
    maker: Account,
    taker: Account,
}

/// One ask of 5 lots at 99 rests.
fn world() -> World {
    let mut w = World {
        book: Orderbook { bids: BookSide::new(Side::Bid, 4), asks: BookSide::new(Side::Ask, 4) },
        market: market(),
        queue: EventQueue::new(32),
        maker: account(),
        taker: account(),
    };
    let r = w.book.new_order(
        limit_order(Side::Ask, 5, 99),
        &mut w.market,
        &mut w.queue,
        I80F48::from_num(100),
        &mut w.maker,
        &pk(1),
        1000,
        10,
    );
    assert!(matches!(r, Ok(Some(_))));
    w
}

fn place(w: &mut World, order: Order, limit: u8) -> Result<Option<u128>, Error> {
    w.book.new_order(
        order,
        &mut w.market,
        &mut w.queue,
        I80F48::from_num(100),
        &mut w.taker,
        &pk(2),
        1001,
        limit,
    )
}

fn assert_untouched(w: &World) {
    assert_eq!(w.book.asks.len(), 1);
    assert_eq!(w.book.asks.node_at(BookSideOrderTree::Fixed, 0).unwrap().quantity, 5);
    assert_eq!(w.book.bids.len(), 0);
    assert_eq!(w.queue.len(), 0);
    assert_eq!(w.queue.seq_num(), 0);
    assert_eq!(w.market.seq_num, 1);
    assert_eq!(w.market.fees_accrued, I80F48::from_bits(0));
    assert_eq!(w.taker.buyback_fees_accrued, 0);
    assert_eq!(w.taker.perp_positions[0].taker_base_lots, 0);
    assert_eq!(w.taker.perp_positions[0].quote_position_native, I80F48::from_bits(0));
}

#[test]
fn negative_quantity_is_an_invariant_violation() {
    let mut w = world();
    assert_eq!(place(&mut w, limit_order(Side::Bid, -1, 100), 10), Err(Error::InvariantViolation));
    let mut order = limit_order(Side::Bid, 1, 100);
    order.max_quote_lots = -1;
    assert_eq!(place(&mut w, order, 10), Err(Error::InvariantViolation));
    assert_untouched(&w);
}

#[test]
fn order_is_refused_when_the_event_queue_lacks_room() {
    let mut w = world();
    // limit 10 needs room for 10 fills, 5 expired orders and 1 placement event
    w.queue = EventQueue::new(15);
    assert_eq!(place(&mut w, limit_order(Side::Bid, 8, 100), 10), Err(Error::EventQueueFull));
    assert_untouched(&w);
    w.queue = EventQueue::new(16);
    assert!(matches!(place(&mut w, limit_order(Side::Bid, 8, 100), 10), Ok(Some(_))));
    assert_eq!(w.queue.len(), 1);
}

#[test]
fn exhausted_sequence_counter_is_an_overflow() {
    let mut w = world();
    w.market.seq_num = u64::MAX;
    assert_eq!(place(&mut w, limit_order(Side::Bid, 8, 100), 10), Err(Error::MathOverflow));
    assert_eq!(w.market.seq_num, u64::MAX);
    assert_eq!(w.book.asks.len(), 1);
    assert_eq!(w.queue.len(), 0);
}

#[test]
fn price_below_one_lot_is_invalid() {
    let mut w = world();
    assert_eq!(place(&mut w, limit_order(Side::Bid, 8, 0), 10), Err(Error::InvalidPrice));
    let ioc = |price_lots| Order {
        params: OrderParams::ImmediateOrCancel { price_lots },
        ..limit_order(Side::Bid, 8, 1)
    };
    assert_eq!(place(&mut w, ioc(-3), 10), Err(Error::InvalidPrice));
    let pegged = |price_offset_lots| Order {
        params: OrderParams::OraclePegged {
            price_offset_lots,
            order_type: PostOrderType::Limit,
            peg_limit: None,
        },
        ..limit_order(Side::Bid, 8, 1)
    };
    assert_eq!(place(&mut w, pegged(-100), 10), Err(Error::InvalidPrice));
    assert_eq!(place(&mut w, pegged(i64::MAX), 10), Err(Error::InvalidPrice));
    assert_eq!(place(&mut w, pegged(i64::MIN), 10), Err(Error::InvalidPrice));
    assert_untouched(&w);
    assert_eq!(limit_order(Side::Bid, 8, 7).price(100), Ok((7, 7)));
    assert_eq!(pegged(-99).price(100), Ok((1, (1 << 63) - 99)));
    let market_bid = Order { params: OrderParams::Market, ..limit_order(Side::Bid, 8, 1) };
    assert_eq!(market_bid.price(100), Ok((i64::MAX, i64::MAX as u64)));
    let market_ask = Order { params: OrderParams::Market, ..limit_order(Side::Ask, 8, 1) };
    assert_eq!(market_ask.price(100), Ok((1, 1)));
}

#[test]
fn account_without_position_is_refused() {
    let mut w = world();
    w.taker.perp_positions[0].market_index = 4;
    assert_eq!(place(&mut w, limit_order(Side::Bid, 8, 100), 10), Err(Error::PositionNotFound));
    assert_eq!(w.book.asks.len(), 1);
    assert_eq!(w.queue.len(), 0);
    assert_eq!(w.market.seq_num, 1);
}

#[test]
fn account_without_free_slot_cannot_rest_but_can_take() {
    let mut w = world();
    w.taker.perp_open_orders[0].market = 0;
    w.taker.perp_open_orders[1].market = 0;
    assert_eq!(place(&mut w, limit_order(Side::Bid, 8, 100), 10), Err(Error::NoFreeOrderSlot));
    assert_untouched(&w);
    // an order that is matched completely needs no slot
    assert_eq!(place(&mut w, limit_order(Side::Bid, 5, 100), 10), Ok(None));
    assert_eq!(w.book.asks.len(), 0);
}

#[test]
fn full_side_with_tied_price_fails_on_capacity_before_the_slot_is_asked_for() {
    let mut w = world();
    w.book.bids = BookSide::new(Side::Bid, 1);
    let rests = LeafNode::new(0, new_node_key(Side::Bid, 10, 1), pk(9), 3, 1000, 0, None, 0);
    assert_eq!(w.book.bids.insert_leaf(BookSideOrderTree::Fixed, &rests), Ok(0));
    w.taker.perp_open_orders[0].market = 0;
    w.taker.perp_open_orders[1].market = 0;
    assert_eq!(w.taker.perp_next_order_slot(), Err(Error::NoFreeOrderSlot));
    assert_eq!(place(&mut w, limit_order(Side::Bid, 4, 10), 10), Err(Error::CapacityExceeded));
    assert_eq!(w.book.bids.len(), 1);
    assert_eq!(w.book.bids.node_at(BookSideOrderTree::Fixed, 0), Some(rests));
    assert_eq!(w.queue.len(), 0);
    assert_eq!(w.taker.perp_positions[0].bids_base_lots, 0);
    // a better price finds room, and only then the missing slot is in the way
    assert_eq!(place(&mut w, limit_order(Side::Bid, 4, 11), 10), Err(Error::NoFreeOrderSlot));
    assert_eq!(w.book.bids.node_at(BookSideOrderTree::Fixed, 0), Some(rests));
    assert_eq!(w.queue.len(), 0);
}

#[test]
fn capacity_error_without_a_free_slot_keeps_what_matching_did() {
    let mut w = world();
    w.book.bids = BookSide::new(Side::Bid, 1);
    let rests = LeafNode::new(0, new_node_key(Side::Bid, 100, 1), pk(9), 3, 1000, 0, None, 0);
    assert_eq!(w.book.bids.insert_leaf(BookSideOrderTree::Fixed, &rests), Ok(0));
    w.taker.perp_open_orders[0].market = 0;
    w.taker.perp_open_orders[1].market = 0;
    // takes the ask of 5 lots at 99; the remainder ties with the resting bid
    assert_eq!(place(&mut w, limit_order(Side::Bid, 8, 100), 10), Err(Error::CapacityExceeded));
    assert_eq!(w.book.asks.len(), 0);
    assert_eq!(w.queue.len(), 1);
    assert!(matches!(w.queue.get(0), Some(AnyEvent::Fill(_))));
    assert_eq!(w.market.seq_num, 2);
    assert_eq!(w.taker.perp_positions[0].taker_base_lots, 5);
    assert_eq!(w.taker.perp_positions[0].taker_quote_lots, -495);
    assert_eq!(w.book.bids.node_at(BookSideOrderTree::Fixed, 0), Some(rests));
    assert_eq!(w.taker.perp_positions[0].bids_base_lots, 0);
}

#[test]
fn unusable_oracle_price_is_an_overflow() {
    let mut w = world();
    w.market.quote_lot_size = 0;
    assert_eq!(place(&mut w, limit_order(Side::Bid, 8, 100), 10), Err(Error::MathOverflow));
    w.market.quote_lot_size = 1;
    w.market.base_lot_size = i64::MAX;
    let r = w.book.new_order(
        limit_order(Side::Bid, 8, 100),
        &mut w.market,
        &mut w.queue,
        I80F48::from_bits(i128::MAX),
        &mut w.taker,
        &pk(2),
        1001,
        10,
    );
    assert_eq!(r, Err(Error::MathOverflow));
    assert_eq!(w.market.seq_num, 1);
}

#[test]
fn negative_taker_fee_aborts_the_whole_call() {
    let mut w = world();
    w.market.taker_fee = I80F48::from_bits(-ONE / 4);
    assert_eq!(place(&mut w, limit_order(Side::Bid, 8, 100), 10), Err(Error::InvariantViolation));
    assert_untouched(&w);
    // nothing is matched at this price, so no fee is due
    assert!(matches!(place(&mut w, limit_order(Side::Bid, 8, 98), 10), Ok(Some(_))));
}

#[test]
fn fees_are_charged_on_what_was_matched() {
    let mut w = world();
    assert!(matches!(place(&mut w, limit_order(Side::Bid, 8, 100), 10), Ok(Some(_))));
    // 5 lots at 99 are 495 quote units: the taker pays a quarter, the maker gets an eighth
    let taker_fee = I80F48::from_bits(495 * ONE / 4);
    let maker_fee = I80F48::from_bits(-495 * ONE / 8);
    assert_eq!(w.taker.perp_positions[0].quote_position_native.bits, -taker_fee.bits);
    assert_eq!(w.market.fees_accrued.bits, taker_fee.bits + maker_fee.bits);
    assert_eq!(w.taker.perp_positions[0].taker_volume, 123);
    assert_eq!(w.taker.buyback_fees_accrued, 61);
    match w.queue.get(0).unwrap() {
        AnyEvent::Fill(fill) => {
            assert_eq!(fill.maker_fee, w.market.maker_fee);
            assert_eq!(fill.taker_fee, w.market.taker_fee);
            assert_eq!(fill.taker_client_order_id, 7);
        },
        AnyEvent::Out(_) => panic!("expected a fill"),
    }
}

#[test]
fn immediate_or_cancel_pays_the_penalty_even_without_a_match() {
    let mut w = world();
    let ioc = Order {
        params: OrderParams::ImmediateOrCancel { price_lots: 50 },
        ..limit_order(Side::Bid, 8, 1)
    };
    assert!(ioc.needs_penalty_fee());
    assert_eq!(ioc.post_target(), None);
    assert_eq!(place(&mut w, ioc, 10), Ok(None));
    assert_eq!(w.queue.len(), 0);
    assert_eq!(w.book.bids.len(), 0);
    assert_eq!(w.market.fees_accrued, I80F48::from_num(3));
    assert_eq!(w.taker.buyback_fees_accrued, 3);
    assert_eq!(w.taker.perp_positions[0].quote_position_native, I80F48::from_num(-3));
    assert_eq!(w.market.seq_num, 2);
    // a market order never rests either, and pays the same
    let market_ask = Order { params: OrderParams::Market, ..limit_order(Side::Ask, 8, 1) };
    assert!(market_ask.needs_penalty_fee());
    assert_eq!(place(&mut w, market_ask, 10), Ok(None));
    assert_eq!(w.market.fees_accrued, I80F48::from_num(6));
    assert_eq!(w.taker.buyback_fees_accrued, 6);
    // an order that may rest does not
    assert!(!limit_order(Side::Bid, 8, 1).needs_penalty_fee());
    assert!(matches!(place(&mut w, limit_order(Side::Bid, 8, 60), 10), Ok(Some(_))));
    assert_eq!(w.market.fees_accrued, I80F48::from_num(6));
}

#[test]
fn capacity_error_keeps_what_matching_did() {
    let mut w = world();
    w.book.bids = BookSide::new(Side::Bid, 0);
    assert_eq!(place(&mut w, limit_order(Side::Bid, 8, 100), 10), Err(Error::CapacityExceeded));
    assert_eq!(w.book.asks.len(), 0);
    assert_eq!(w.queue.len(), 1);
    assert_eq!(w.market.seq_num, 2);
    assert_eq!(w.taker.perp_positions[0].taker_base_lots, 5);
    assert_eq!(w.taker.perp_positions[0].bids_base_lots, 0);
    assert_eq!(w.taker.perp_open_orders[0].market, 0xffff);
}

#[test]
fn event_queue_numbers_its_events() {
    let owner = pk(1);
    let out = |seq_num| AnyEvent::Out(OutEvent::new(Side::Bid, 0, 5, seq_num, owner, 1));
    let mut queue = EventQueue::new(2);
    assert!(queue.is_empty());
    assert_eq!(queue.capacity(), 2);
    assert!(queue.has_room(2));
    assert!(!queue.has_room(3));
    // an event must carry the queue's next number
    assert_eq!(queue.push_back(out(1)), Err(out(1)));
    assert_eq!(queue.push_back(out(0)), Ok(()));
    assert_eq!(queue.push_back(out(0)), Err(out(0)));
    assert_eq!(queue.push_back(out(1)), Ok(()));
    assert!(queue.is_full());
    assert_eq!(queue.push_back(out(2)), Err(out(2)));
    assert_eq!(queue.seq_num(), 2);
    assert_eq!(queue.len(), 2);
    assert_eq!(queue.get(1).unwrap().seq_num(), 1);
    assert_eq!(queue.get(2), None);
    // settled events leave at the front and make room
    assert_eq!(queue.pop_front(), Some(out(0)));
    assert_eq!(queue.push_back(out(2)), Ok(()));
    assert_eq!(queue.pop_front(), Some(out(1)));
    assert_eq!(queue.pop_front(), Some(out(2)));
    assert_eq!(queue.pop_front(), None);
    assert_eq!(queue.seq_num(), 3);
}

#[test]
fn account_registers_and_releases_orders() {
    let mut account = Account::new(2, 2);
    account.perp_positions[1].market_index = 6;
    let node = LeafNode::new(1, 99, pk(1), 4, 0, 0, None, 5);
    assert_eq!(
        account.add_perp_order(6, Side::Ask, BookSideOrderTree::OraclePegged, &node, 5),
        Ok(())
    );
    assert_eq!(account.perp_positions[1].asks_base_lots, 4);
    assert_eq!(account.perp_open_orders[1].id, 99);
    assert_eq!(account.perp_position_index(6), Ok(1));
    assert_eq!(account.perp_position(6).unwrap().asks_base_lots, 4);
    assert_eq!(account.perp_position_index(7), Err(Error::PositionNotFound));
    assert_eq!(account.perp_position_index(0xffff), Err(Error::PositionNotFound));
    assert_eq!(
        account.add_perp_order(7, Side::Ask, BookSideOrderTree::Fixed, &node, 5),
        Err(Error::PositionNotFound)
    );
    let far = LeafNode::new(2, 99, pk(1), 4, 0, 0, None, 5);
    assert_eq!(
        account.add_perp_order(6, Side::Ask, BookSideOrderTree::Fixed, &far, 5),
        Err(Error::InvariantViolation)
    );
    let huge = LeafNode::new(0, 99, pk(1), i64::MAX, 0, 0, None, 5);
    assert_eq!(
        account.add_perp_order(6, Side::Ask, BookSideOrderTree::Fixed, &huge, 5),
        Err(Error::MathOverflow)
    );
    assert_eq!(account.perp_positions[1].asks_base_lots, 4);
    assert_eq!(account.remove_perp_order(0, 4), Err(Error::InvariantViolation));
    assert_eq!(account.remove_perp_order(2, 4), Err(Error::InvariantViolation));
    assert_eq!(account.remove_perp_order(1, 3), Ok(()));
    assert_eq!(account.perp_positions[1].asks_base_lots, 1);
    assert_eq!(account.perp_next_order_slot(), Ok(0));
    account.accrue_buyback_fees(5);
    account.accrue_buyback_fees(u64::MAX);
    assert_eq!(account.buyback_fees_accrued, u64::MAX);
}

#[test]
fn position_records_trades_and_fees() {
    let mut account = account();
    let position = &mut account.perp_positions[0];
    assert_eq!(position.add_taker_trade(Side::Bid, 5, 500), Ok(()));
    assert_eq!((position.taker_base_lots, position.taker_quote_lots), (5, -500));
    assert_eq!(position.add_taker_trade(Side::Ask, 7, 700), Ok(()));
    assert_eq!((position.taker_base_lots, position.taker_quote_lots), (-2, 200));
    assert_eq!(position.add_taker_trade(Side::Ask, 1, i64::MAX), Err(Error::MathOverflow));
    assert_eq!((position.taker_base_lots, position.taker_quote_lots), (-2, 200));
    assert_eq!(position.record_trading_fee(I80F48::from_num(4)), Ok(()));
    assert_eq!(position.quote_position_native, I80F48::from_num(-4));
    assert_eq!(
        position.record_trading_fee(I80F48::from_bits(i128::MAX)),
        Err(Error::MathOverflow)
    );
    assert!(position.is_active_for_market(0));
    assert!(!position.is_active_for_market(1));
    account.perp_position_mut(0).unwrap().taker_volume = 9;
    assert_eq!(account.perp_positions[0].taker_volume, 9);
    assert_eq!(account.perp_position_mut(3).err(), Some(Error::PositionNotFound));
}

#[test]
fn market_converts_prices() {
    let mut m = market();
    m.base_lot_size = 100;
    m.quote_lot_size = 10;
    // one lot of price is 10 quote units for 100 base units
    assert_eq!(m.native_price_to_lot(I80F48::from_bits(ONE / 10 + 1)), Some(1));
    assert_eq!(m.native_price_to_lot(I80F48::from_bits(ONE / 10 - 1)), Some(0));
    assert_eq!(m.native_price_to_lot(I80F48::from_num(25)), Some(250));
    assert_eq!(m.lot_to_native_price(250), Some(I80F48::from_num(25)));
    assert_eq!(m.lot_to_native_price(5), Some(I80F48::from_bits(ONE / 2)));
    let oracle = I80F48::from_num(10);
    assert_eq!(m.inside_price_limit(Side::Bid, I80F48::from_num(20), oracle), Some(true));
    assert_eq!(
        m.inside_price_limit(Side::Bid, I80F48::from_bits(20 * ONE + 1), oracle),
        Some(false),
    );
    assert_eq!(m.inside_price_limit(Side::Ask, I80F48::from_num(5), oracle), Some(true));
    assert_eq!(
        m.inside_price_limit(Side::Ask, I80F48::from_bits(5 * ONE - 1), oracle),
        Some(false),
    );
    assert_eq!(m.inside_price_limit(Side::Bid, oracle, I80F48::from_bits(i128::MAX)), None);
    assert_eq!(m.may_rest(Side::Bid, 200, oracle), Some(true));
    assert_eq!(m.may_rest(Side::Bid, 201, oracle), Some(false));
    m.base_lot_size = 0;
    assert_eq!(m.may_rest(Side::Bid, 200, oracle), None);
    let mut m = market();
    assert_eq!(m.gen_order_id(Side::Ask, 5), (5u128 << 64) | 1);
    assert_eq!(m.gen_order_id(Side::Ask, 5), (5u128 << 64) | 2);
    assert_eq!(m.seq_num, 2);
}
