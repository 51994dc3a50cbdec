use exchange_core::half_book::HalfBook;
use exchange_core::matching::{match_against, Step, Taker};
use exchange_core::models::{OrderSide, SelfTradePolicy};
use exchange_core::price_level::{PriceLevel, RestingOrder};

fn resting(id: u128, account: u128, quantity: u64, filled: u64, sequence: u64) -> RestingOrder {
    RestingOrder { id, account, quantity, filled, sequence }
}

fn recomputed(level: &PriceLevel) -> u128 {
    let mut sum: u128 = 0;
    for i in 0..level.len() {
        let o = level.get(i);
        sum += (o.quantity - o.filled) as u128;
    }
    sum
}

#[test]
fn level_push_peek_pop_keep_fifo_and_aggregate() {
    let mut level = PriceLevel::new(100);
    assert!(level.is_empty());
    assert_eq!(level.peek(), None);
    assert_eq!(level.pop(), None);
    level.push(resting(1, 1, 10, 0, 1));
    level.push(resting(2, 1, 20, 5, 2));
    level.push(resting(3, 2, 7, 0, 3));
    assert_eq!(level.price(), 100);
    assert_eq!(level.len(), 3);
    assert_eq!(level.total_quantity(), 32);
    assert_eq!(level.total_quantity(), recomputed(&level));
    assert_eq!(level.peek(), Some(resting(1, 1, 10, 0, 1)));
    assert_eq!(level.len(), 3);
    assert_eq!(level.pop(), Some(resting(1, 1, 10, 0, 1)));
    assert_eq!(level.total_quantity(), 22);
    assert_eq!(level.peek(), Some(resting(2, 1, 20, 5, 2)));
    assert_eq!(level.total_quantity(), recomputed(&level));
}

#[test]
fn level_remove_by_id_strikes_mid_queue() {
    let mut level = PriceLevel::new(100);
    level.push(resting(1, 1, 10, 0, 1));
    level.push(resting(2, 1, 20, 5, 2));
    level.push(resting(3, 2, 7, 0, 3));
    assert_eq!(level.position_of(2), Some(1));
    assert_eq!(level.position_of(9), None);
    assert_eq!(level.remove_by_id(9), None);
    assert_eq!(level.len(), 3);
    assert_eq!(level.remove_by_id(2), Some(resting(2, 1, 20, 5, 2)));
    assert_eq!(level.len(), 2);
    assert_eq!(level.get(0).id, 1);
    assert_eq!(level.get(1).id, 3);
    assert_eq!(level.total_quantity(), 17);
    assert_eq!(level.total_quantity(), recomputed(&level));
}

#[test]
fn level_apply_fill_partial_then_full() {
    let mut level = PriceLevel::new(100);
    level.push(resting(1, 1, 10, 0, 1));
    level.push(resting(2, 1, 20, 0, 2));
    let head = level.apply_fill(4);
    assert_eq!(head, resting(1, 1, 10, 0, 1));
    assert_eq!(level.peek(), Some(resting(1, 1, 10, 4, 1)));
    assert_eq!(level.total_quantity(), 26);
    assert_eq!(level.len(), 2);
    let head = level.apply_fill(6);
    assert_eq!(head, resting(1, 1, 10, 4, 1));
    assert_eq!(level.len(), 1);
    assert_eq!(level.peek(), Some(resting(2, 1, 20, 0, 2)));
    assert_eq!(level.total_quantity(), 20);
    assert_eq!(level.total_quantity(), recomputed(&level));
}

#[test]
fn level_reduce_quantity_keeps_place() {
    let mut level = PriceLevel::new(100);
    level.push(resting(1, 1, 10, 2, 1));
    level.push(resting(2, 1, 20, 0, 2));
    level.reduce_quantity(0, 5);
    assert_eq!(level.get(0), resting(1, 1, 5, 2, 1));
    assert_eq!(level.total_quantity(), 23);
    assert_eq!(resting(1, 1, 5, 2, 1).remaining(), 3);
    let copy = level.snapshot();
    assert_eq!(copy.len(), 2);
    assert_eq!(copy.total_quantity(), 23);
    assert_eq!(copy.get(1), resting(2, 1, 20, 0, 2));
}

#[test]
fn bids_are_best_at_the_highest_price() {
    let mut bids = HalfBook::new(OrderSide::Buy);
    assert!(bids.is_empty());
    assert_eq!(bids.best_price(), None);
    assert_eq!(bids.best_head(), None);
    bids.insert(100, resting(1, 1, 10, 0, 1));
    bids.insert(102, resting(2, 1, 10, 0, 2));
    bids.insert(101, resting(3, 1, 10, 0, 3));
    bids.insert(102, resting(4, 1, 5, 0, 4));
    assert_eq!(bids.side(), OrderSide::Buy);
    assert_eq!(bids.level_count(), 3);
    assert_eq!(bids.best_price(), Some(102));
    assert_eq!(bids.best_head(), Some(resting(2, 1, 10, 0, 2)));
    assert_eq!(bids.level_at(0).price(), 102);
    assert_eq!(bids.level_at(1).price(), 101);
    assert_eq!(bids.level_at(2).price(), 100);
    assert_eq!(bids.level_at(0).len(), 2);
    assert_eq!(bids.level_at(0).total_quantity(), 15);
    assert_eq!(bids.order_count(), 4);
    assert!(bids.level(101).is_some());
    assert!(bids.level(103).is_none());
    assert_eq!(bids.level(102).unwrap().len(), 2);
}

#[test]
fn asks_are_best_at_the_lowest_price() {
    let mut asks = HalfBook::new(OrderSide::Sell);
    asks.insert(100, resting(1, 1, 10, 0, 1));
    asks.insert(98, resting(2, 1, 10, 0, 2));
    asks.insert(99, resting(3, 1, 10, 0, 3));
    assert_eq!(asks.best_price(), Some(98));
    assert_eq!(asks.level_at(1).price(), 99);
    assert_eq!(asks.level_at(2).price(), 100);
}

#[test]
fn a_level_goes_when_its_last_order_goes() {
    let mut asks = HalfBook::new(OrderSide::Sell);
    asks.insert(100, resting(1, 1, 10, 0, 1));
    asks.insert(101, resting(2, 1, 10, 0, 2));
    assert_eq!(asks.fill_best(4), resting(1, 1, 10, 0, 1));
    assert_eq!(asks.level_count(), 2);
    assert_eq!(asks.best_head(), Some(resting(1, 1, 10, 4, 1)));
    assert_eq!(asks.fill_best(6), resting(1, 1, 10, 4, 1));
    assert_eq!(asks.level_count(), 1);
    assert_eq!(asks.best_price(), Some(101));
    assert_eq!(asks.pop_best(), resting(2, 1, 10, 0, 2));
    assert!(asks.is_empty());
}

#[test]
fn remove_find_and_reduce_by_price_and_id() {
    let mut bids = HalfBook::new(OrderSide::Buy);
    bids.insert(100, resting(1, 1, 10, 0, 1));
    bids.insert(100, resting(2, 1, 20, 0, 2));
    bids.insert(99, resting(3, 1, 30, 0, 3));
    assert_eq!(bids.find(100, 2), Some(resting(2, 1, 20, 0, 2)));
    assert_eq!(bids.find(99, 2), None);
    assert_eq!(bids.find(98, 3), None);
    bids.reduce(100, 2, 15);
    assert_eq!(bids.find(100, 2), Some(resting(2, 1, 15, 0, 2)));
    assert_eq!(bids.level_at(0).get(1).id, 2);
    assert_eq!(bids.remove(100, 7), None);
    assert_eq!(bids.remove(101, 1), None);
    assert_eq!(bids.remove(100, 1), Some(resting(1, 1, 10, 0, 1)));
    assert_eq!(bids.level_count(), 2);
    assert_eq!(bids.remove(99, 3), Some(resting(3, 1, 30, 0, 3)));
    assert_eq!(bids.level_count(), 1);
    assert_eq!(bids.best_price(), Some(100));
    bids.drop_level_if_empty(100);
    assert_eq!(bids.level_count(), 1);
    let copy = bids.snapshot();
    assert_eq!(copy.level_count(), 1);
    assert_eq!(copy.best_head(), Some(resting(2, 1, 15, 0, 2)));
}

fn taker(account: u128, side: OrderSide, limit: Option<u64>, policy: SelfTradePolicy) -> Taker {
    Taker { id: 900, account, side, limit, policy }
}

fn three_asks() -> HalfBook {
    let mut asks = HalfBook::new(OrderSide::Sell);
    asks.insert(100, resting(1, 11, 10, 0, 1));
    asks.insert(100, resting(2, 12, 10, 0, 2));
    asks.insert(101, resting(3, 13, 10, 0, 3));
    asks
}

#[test]
fn crossing_takes_orders_in_price_time_priority() {
    let mut asks = three_asks();
    let out =
        match_against(&mut asks, &taker(50, OrderSide::Buy, Some(101), SelfTradePolicy::Allow), 25);
    assert_eq!(out.remaining, 0);
    assert!(!out.stopped);
    assert_eq!(
        out.steps,
        vec![
            Step::Fill { maker: resting(1, 11, 10, 0, 1), price: 100, quantity: 10 },
            Step::Fill { maker: resting(2, 12, 10, 0, 2), price: 100, quantity: 10 },
            Step::Fill { maker: resting(3, 13, 10, 0, 3), price: 101, quantity: 5 },
        ]
    );
    assert_eq!(asks.level_count(), 1);
    assert_eq!(asks.best_head(), Some(resting(3, 13, 10, 5, 3)));
}

#[test]
fn crossing_conserves_quantity() {
    let mut asks = three_asks();
    let open_before: u128 = 30;
    let out =
        match_against(&mut asks, &taker(50, OrderSide::Buy, Some(100), SelfTradePolicy::Allow), 25);
    let traded: u64 = out
        .steps
        .iter()
        .map(|s| match s {
            Step::Fill { quantity, .. } => *quantity,
            Step::MakerCancelled { .. } => 0,
        })
        .sum();
    assert_eq!(traded, 20);
    assert_eq!(out.remaining, 5);
    assert_eq!(traded + out.remaining, 25);
    let open_after: u128 = asks.level_at(0).total_quantity();
    assert_eq!(open_before - open_after, traded as u128);
    assert_eq!(2 * traded as u128, (25 - out.remaining) as u128 + (open_before - open_after));
}

#[test]
fn crossing_stops_at_the_limit_and_market_has_none() {
    let mut asks = three_asks();
    let out =
        match_against(&mut asks, &taker(50, OrderSide::Buy, Some(99), SelfTradePolicy::Allow), 5);
    assert_eq!(out.steps.len(), 0);
    assert_eq!(out.remaining, 5);
    assert_eq!(asks.order_count(), 3);
    let out = match_against(&mut asks, &taker(50, OrderSide::Buy, None, SelfTradePolicy::Allow), 35);
    assert_eq!(out.steps.len(), 3);
    assert_eq!(out.remaining, 5);
    assert!(asks.is_empty());
}

#[test]
fn sell_crosses_bids_from_the_highest() {
    let mut bids = HalfBook::new(OrderSide::Buy);
    bids.insert(100, resting(1, 11, 10, 0, 1));
    bids.insert(102, resting(2, 12, 10, 0, 2));
    let out =
        match_against(&mut bids, &taker(50, OrderSide::Sell, Some(101), SelfTradePolicy::Allow), 15);
    assert_eq!(
        out.steps,
        vec![Step::Fill { maker: resting(2, 12, 10, 0, 2), price: 102, quantity: 10 }]
    );
    assert_eq!(out.remaining, 5);
    assert_eq!(bids.best_price(), Some(100));
}

#[test]
fn self_trade_allow_trades() {
    let mut asks = three_asks();
    let out =
        match_against(&mut asks, &taker(11, OrderSide::Buy, Some(100), SelfTradePolicy::Allow), 5);
    assert_eq!(out.steps.len(), 1);
    assert_eq!(out.remaining, 0);
}

#[test]
fn self_trade_cancel_taker_stops_and_keeps_the_maker() {
    let mut asks = three_asks();
    let out = match_against(
        &mut asks,
        &taker(12, OrderSide::Buy, Some(101), SelfTradePolicy::CancelTaker),
        25,
    );
    assert_eq!(
        out.steps,
        vec![Step::Fill { maker: resting(1, 11, 10, 0, 1), price: 100, quantity: 10 }]
    );
    assert!(out.stopped);
    assert_eq!(out.remaining, 15);
    assert_eq!(asks.best_head(), Some(resting(2, 12, 10, 0, 2)));
}

#[test]
fn self_trade_cancel_maker_removes_it_and_goes_on() {
    let mut asks = three_asks();
    let out = match_against(
        &mut asks,
        &taker(12, OrderSide::Buy, Some(101), SelfTradePolicy::CancelMaker),
        25,
    );
    assert_eq!(
        out.steps,
        vec![
            Step::Fill { maker: resting(1, 11, 10, 0, 1), price: 100, quantity: 10 },
            Step::MakerCancelled { maker: resting(2, 12, 10, 0, 2), price: 100 },
            Step::Fill { maker: resting(3, 13, 10, 0, 3), price: 101, quantity: 10 },
        ]
    );
    assert!(!out.stopped);
    assert_eq!(out.remaining, 5);
    assert!(asks.is_empty());
}

#[test]
fn self_trade_cancel_both_removes_the_maker_and_stops() {
    let mut asks = three_asks();
    let out = match_against(
        &mut asks,
        &taker(12, OrderSide::Buy, Some(101), SelfTradePolicy::CancelBoth),
        25,
    );
    assert_eq!(
        out.steps,
        vec![
            Step::Fill { maker: resting(1, 11, 10, 0, 1), price: 100, quantity: 10 },
            Step::MakerCancelled { maker: resting(2, 12, 10, 0, 2), price: 100 },
        ]
    );
    assert!(out.stopped);
    assert_eq!(out.remaining, 15);
    assert_eq!(asks.best_head(), Some(resting(3, 13, 10, 0, 3)));
}
