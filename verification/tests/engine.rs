use exchange_core::decimal::Decimal;
use exchange_core::errors::RejectReason;
use exchange_core::events::{CancelReason, Command, Event, Outcome, Response};
use exchange_core::models::{
    Order, OrderSide, OrderStatus, OrderType, SelfTradePolicy, TimeInForce,
};
use exchange_core::services::order_book_service::OrderBookService;
use exchange_core::symbol::{SymbolError, SymbolMeta};

fn meta() -> SymbolMeta {
    SymbolMeta::new(
        Decimal::new(1, 2),
        Decimal::new(1, 3),
        Decimal::new(100, 2),
        Decimal::new(20000, 2),
        Decimal::new(5000, 3),
    )
    .unwrap()
}

fn engine_at(sequence: u64, policy: SelfTradePolicy) -> OrderBookService {
    OrderBookService::new("BTC-USD".to_string(), meta(), policy, sequence)
}

fn engine() -> OrderBookService {
    engine_at(0, SelfTradePolicy::Allow)
}

fn order(id: u128, user: u128, side: OrderSide, kind: OrderType, qty: i128, price: i128) -> Order {
    Order {
        id,
        user_id: user,
        symbol: "BTC-USD".to_string(),
        side,
        quantity: Decimal::new(qty, 3),
        price: Decimal::new(price, 2),
        order_type: kind,
        status: OrderStatus::New,
        filled_quantity: Decimal::zero(),
        created_at: 0,
        updated_at: 0,
    }
}

fn buy(id: u128, user: u128, qty: i128, price: i128) -> Order {
    order(id, user, OrderSide::Buy, OrderType::Limit, qty, price)
}

fn sell(id: u128, user: u128, qty: i128, price: i128) -> Order {
    order(id, user, OrderSide::Sell, OrderType::Limit, qty, price)
}

fn gtc(e: &mut OrderBookService, o: &Order) -> Outcome {
    e.add_order(o, TimeInForce::Gtc, None)
}

fn reason(out: &Outcome) -> RejectReason {
    match &out.response {
        Response::Rejected { reason } => *reason,
        other => panic!("not rejected: {:?}", other),
    }
}

fn sequences(events: &[Event]) -> Vec<u64> {
    events.iter().map(|e| e.sequence()).collect()
}

fn state(event: &Event) -> (u128, OrderStatus, Decimal, u64) {
    match event {
        Event::OrderState { order_id, status, filled_quantity, sequence } => {
            (*order_id, *status, *filled_quantity, *sequence)
        }
        other => panic!("not a state: {:?}", other),
    }
}

#[test]
fn symbol_meta_checks_its_values() {
    let d = |m: i128, s: u32| Decimal::new(m, s);
    let ok = SymbolMeta::new(d(1, 2), d(1, 3), d(1, 2), d(100, 0), d(10, 0)).unwrap();
    assert_eq!(ok.tick_size(), d(1, 2));
    assert_eq!(ok.lot_size(), d(1, 3));
    assert_eq!(ok.min_price(), d(1, 2));
    assert_eq!(ok.max_price(), d(100, 0));
    assert_eq!(ok.max_quantity(), d(10, 0));
    let err = |t, l, lo, hi, q| SymbolMeta::new(t, l, lo, hi, q).unwrap_err();
    assert_eq!(err(d(0, 2), d(1, 3), d(1, 2), d(100, 0), d(10, 0)), SymbolError::InvalidTickSize);
    assert_eq!(err(d(1, 2), d(-1, 3), d(1, 2), d(100, 0), d(10, 0)), SymbolError::InvalidLotSize);
    assert_eq!(
        err(d(1, 2), d(1, 3), d(101, 0), d(100, 0), d(10, 0)),
        SymbolError::InvalidPriceBounds
    );
    assert_eq!(
        err(d(1, 2), d(1, 3), d(-1, 0), d(100, 0), d(10, 0)),
        SymbolError::InvalidPriceBounds
    );
    assert_eq!(
        err(d(1, 2), d(1, 3), d(1, 2), d(100, 0), d(0, 0)),
        SymbolError::InvalidMaxQuantity
    );
    assert_eq!(
        err(d(1, 2), d(1, 3), d(1, 2), d(i128::MAX, 0), d(10, 0)),
        SymbolError::PrecisionOverflow
    );
    assert_eq!(
        err(d(1, 2), d(1, 3), d(1, 2), d(100, 0), d(1 << 63, 0)),
        SymbolError::PrecisionOverflow
    );
}

#[test]
fn symbol_meta_counts_units() {
    let m = meta();
    assert_eq!(m.price_units(&Decimal::new(10000, 2)), Some(10000));
    assert_eq!(m.price_units(&Decimal::new(100, 0)), Some(10000));
    assert_eq!(m.price_units(&Decimal::new(100005, 3)), None);
    assert_eq!(m.price_units(&Decimal::new(100000, 3)), Some(10000));
    assert_eq!(m.quantity_units(&Decimal::new(1, 0)), Some(1000));
    assert_eq!(m.quantity_units(&Decimal::new(15, 4)), None);
    assert_eq!(m.price_decimal(9950), Decimal::new(9950, 2));
    assert_eq!(m.quantity_decimal(400), Decimal::new(400, 3));
    let coarse = SymbolMeta::new(
        Decimal::new(5, 1),
        Decimal::new(25, 2),
        Decimal::new(1, 0),
        Decimal::new(10, 0),
        Decimal::new(100, 0),
    )
    .unwrap();
    assert_eq!(coarse.price_units(&Decimal::new(15, 1)), Some(15));
    assert_eq!(coarse.price_units(&Decimal::new(12, 1)), None);
    assert_eq!(coarse.quantity_units(&Decimal::new(75, 2)), Some(75));
    assert_eq!(coarse.quantity_units(&Decimal::new(80, 2)), None);
}

#[test]
fn zero_quantity_is_rejected() {
    let mut e = engine();
    let out = gtc(&mut e, &buy(1, 1, 0, 10000));
    assert_eq!(reason(&out), RejectReason::InvalidQuantity);
    assert_eq!(out.events.len(), 0);
    assert_eq!(e.sequence(), 0);
    assert_eq!(e.top_of_book().best_bid_price, None);
}

#[test]
fn quantity_off_the_lot_or_above_the_largest_is_rejected() {
    let mut e = engine();
    let off = Order { quantity: Decimal::new(15, 4), ..buy(1, 1, 1, 10000) };
    assert_eq!(reason(&gtc(&mut e, &off)), RejectReason::InvalidQuantity);
    assert_eq!(reason(&gtc(&mut e, &buy(2, 1, 5001, 10000))), RejectReason::InvalidQuantity);
    assert_eq!(reason(&gtc(&mut e, &buy(3, 1, -1, 10000))), RejectReason::InvalidQuantity);
    assert!(matches!(gtc(&mut e, &buy(4, 1, 5000, 10000)).response, Response::Accepted { .. }));
}

#[test]
fn prices_at_the_bounds_are_accepted_and_beyond_rejected() {
    let mut e = engine();
    assert!(matches!(gtc(&mut e, &buy(1, 1, 1, 100)).response, Response::Accepted { .. }));
    assert!(matches!(gtc(&mut e, &sell(2, 1, 1, 20000)).response, Response::Accepted { .. }));
    assert_eq!(reason(&gtc(&mut e, &buy(3, 1, 1, 99))), RejectReason::InvalidPrice);
    assert_eq!(reason(&gtc(&mut e, &sell(4, 1, 1, 20001))), RejectReason::InvalidPrice);
    assert_eq!(reason(&gtc(&mut e, &buy(5, 1, 1, 0))), RejectReason::InvalidPrice);
    assert_eq!(reason(&gtc(&mut e, &buy(6, 1, 1, -100))), RejectReason::InvalidPrice);
    let off_tick = Order { price: Decimal::new(100005, 3), ..buy(7, 1, 1, 10000) };
    assert_eq!(reason(&gtc(&mut e, &off_tick)), RejectReason::InvalidPrice);
    let top = e.top_of_book();
    assert_eq!(top.best_bid_price, Some(Decimal::new(100, 2)));
    assert_eq!(top.best_ask_price, Some(Decimal::new(20000, 2)));
}

#[test]
fn unknown_symbol_and_unsupported_type_are_rejected() {
    let mut e = engine();
    let other = Order { symbol: "ETH-USD".to_string(), ..buy(1, 1, 1, 10000) };
    assert_eq!(reason(&gtc(&mut e, &other)), RejectReason::UnknownSymbol);
    let stop = order(2, 1, OrderSide::Buy, OrderType::Stop, 1, 10000);
    assert_eq!(reason(&gtc(&mut e, &stop)), RejectReason::UnsupportedOrderType);
    let stop_limit = order(3, 1, OrderSide::Buy, OrderType::StopLimit, 1, 10000);
    assert_eq!(reason(&gtc(&mut e, &stop_limit)), RejectReason::UnsupportedOrderType);
    assert_eq!(reason(&e.remove_order(&other)), RejectReason::UnknownSymbol);
}

#[test]
fn buy_at_the_touch_fills() {
    let mut e = engine();
    gtc(&mut e, &sell(1, 1, 1000, 10000));
    let out = gtc(&mut e, &buy(2, 2, 1000, 10000));
    match &out.response {
        Response::Accepted { resting_id, fills } => {
            assert_eq!(*resting_id, None);
            assert_eq!(fills.len(), 1);
            assert_eq!(fills[0].price, Decimal::new(10000, 2));
        }
        other => panic!("unexpected {:?}", other),
    }
    let top = e.top_of_book();
    assert_eq!(top.best_ask_price, None);
    assert_eq!(top.best_bid_price, None);
}

#[test]
fn fok_short_of_one_lot_does_not_fill() {
    let mut e = engine();
    gtc(&mut e, &sell(1, 1, 600, 10000));
    gtc(&mut e, &sell(2, 1, 399, 10100));
    let before = e.sequence();
    let out = e.add_order(&buy(3, 2, 1000, 10100), TimeInForce::Fok, None);
    assert_eq!(reason(&out), RejectReason::TifUnfillable);
    assert_eq!(out.events.len(), 0);
    assert_eq!(e.sequence(), before);
    let depth = e.depth(10);
    assert_eq!(depth.asks.len(), 2);
    assert_eq!(depth.asks[0].quantity, Decimal::new(600, 3));
    assert_eq!(depth.asks[1].quantity, Decimal::new(399, 3));
    assert_eq!(depth.bids.len(), 0);
}

#[test]
fn fok_that_fits_fills_whole() {
    let mut e = engine();
    gtc(&mut e, &sell(1, 1, 600, 10000));
    gtc(&mut e, &sell(2, 1, 400, 10100));
    let out = e.add_order(&buy(3, 2, 1000, 10100), TimeInForce::Fok, None);
    match &out.response {
        Response::Accepted { resting_id, fills } => {
            assert_eq!(*resting_id, None);
            assert_eq!(fills.len(), 2);
            assert_eq!(fills[0].price, Decimal::new(10000, 2));
            assert_eq!(fills[0].quantity, Decimal::new(600, 3));
            assert_eq!(fills[1].price, Decimal::new(10100, 2));
            assert_eq!(fills[1].quantity, Decimal::new(400, 3));
        }
        other => panic!("unexpected {:?}", other),
    }
    assert_eq!(e.depth(10).asks.len(), 0);
}

#[test]
fn ioc_fills_what_it_can_and_never_rests() {
    let mut e = engine();
    gtc(&mut e, &sell(1, 1, 600, 10000));
    let out = e.add_order(&buy(2, 2, 1000, 10000), TimeInForce::Ioc, None);
    match &out.response {
        Response::Accepted { resting_id, fills } => {
            assert_eq!(*resting_id, None);
            assert_eq!(fills.len(), 1);
        }
        other => panic!("unexpected {:?}", other),
    }
    let last = state(out.events.last().unwrap());
    assert_eq!(last.0, 2);
    assert_eq!(last.1, OrderStatus::Cancelled);
    assert_eq!(last.2, Decimal::new(600, 3));
    assert_eq!(e.top_of_book().best_bid_price, None);
}

#[test]
fn market_order_fills_across_levels_and_cancels_the_rest() {
    let mut e = engine();
    gtc(&mut e, &sell(1, 1, 600, 10000));
    gtc(&mut e, &sell(2, 1, 400, 15000));
    let out = gtc(&mut e, &order(3, 2, OrderSide::Buy, OrderType::Market, 2000, 0));
    match &out.response {
        Response::Accepted { resting_id, fills } => {
            assert_eq!(*resting_id, None);
            assert_eq!(fills.len(), 2);
        }
        other => panic!("unexpected {:?}", other),
    }
    let trades: Vec<_> = out
        .events
        .iter()
        .filter_map(|e| match e {
            Event::Trade(t) => Some((t.price, t.quantity)),
            _ => None,
        })
        .collect();
    assert_eq!(
        trades,
        vec![
            (Decimal::new(10000, 2), Decimal::new(600, 3)),
            (Decimal::new(15000, 2), Decimal::new(400, 3)),
        ]
    );
    let last = state(out.events.last().unwrap());
    assert_eq!(last.1, OrderStatus::Cancelled);
    assert_eq!(last.2, Decimal::new(1000, 3));
    assert_eq!(e.depth(10).asks.len(), 0);
    let full = gtc(&mut e, &sell(4, 1, 500, 10000));
    assert!(matches!(full.response, Response::Accepted { .. }));
    let out = gtc(&mut e, &order(5, 2, OrderSide::Buy, OrderType::Market, 500, 0));
    match &out.response {
        Response::Accepted { resting_id, fills } => {
            assert_eq!(*resting_id, None);
            assert_eq!(fills.len(), 1);
        }
        other => panic!("unexpected {:?}", other),
    }
    let none = gtc(&mut e, &order(6, 2, OrderSide::Sell, OrderType::Market, 500, 0));
    match none.response {
        Response::Cancelled { order_id, reason } => {
            assert_eq!(order_id, 6);
            assert_eq!(reason, CancelReason::Unfillable);
        }
        other => panic!("unexpected {:?}", other),
    }
}

#[test]
fn event_sequences_increase_by_one() {
    let mut e = engine_at(41, SelfTradePolicy::Allow);
    let a = gtc(&mut e, &sell(1, 1, 600, 10000));
    assert_eq!(sequences(&a.events), vec![42]);
    let b = gtc(&mut e, &sell(2, 1, 400, 10000));
    assert_eq!(sequences(&b.events), vec![43]);
    let c = gtc(&mut e, &buy(3, 2, 1500, 10000));
    assert_eq!(sequences(&c.events), vec![44, 45, 46, 47, 48]);
    assert_eq!(e.sequence(), 48);
    assert_eq!(state(&c.events[1]), (1, OrderStatus::Filled, Decimal::new(600, 3), 45));
    assert_eq!(state(&c.events[3]), (2, OrderStatus::Filled, Decimal::new(400, 3), 47));
    assert_eq!(state(&c.events[4]), (3, OrderStatus::PartiallyFilled, Decimal::new(1000, 3), 48));
    match &c.events[0] {
        Event::Trade(t) => {
            assert_eq!(t.id, 44);
            assert_eq!(t.executed_at, 44);
            assert_eq!(t.order_id, 1);
            assert_eq!(t.taker_order_id, 3);
            assert_eq!(t.side, OrderSide::Buy);
        }
        other => panic!("unexpected {:?}", other),
    }
    let d = e.remove_order(&buy(3, 2, 1500, 10000));
    assert_eq!(sequences(&d.events), vec![49]);
    assert_eq!(state(&d.events[0]), (3, OrderStatus::Cancelled, Decimal::new(1000, 3), 49));
    assert_eq!(e.depth(1).last_updated, 49);
}

#[test]
fn the_book_is_never_crossed_at_rest() {
    let mut e = engine();
    let orders = [
        buy(1, 1, 1000, 10000),
        sell(2, 2, 500, 10100),
        buy(3, 3, 700, 10100),
        sell(4, 4, 2000, 9900),
        buy(5, 5, 300, 9900),
        sell(6, 6, 100, 10000),
        buy(7, 7, 4000, 12000),
    ];
    for o in orders.iter() {
        gtc(&mut e, o);
        let top = e.top_of_book();
        if let (Some(bid), Some(ask)) = (top.best_bid_price, top.best_ask_price) {
            assert!(bid.lt(&ask), "crossed: {:?} {:?}", bid, ask);
        }
        let depth = e.depth(10);
        for level in depth.bids.iter().chain(depth.asks.iter()) {
            assert!(level.order_count > 0);
            assert!(level.quantity.is_positive());
        }
    }
}

#[test]
fn two_engines_given_the_same_commands_emit_the_same_events() {
    let commands = vec![
        Command::Submit { order: sell(1, 1, 600, 10000), tif: TimeInForce::Gtc, stp: None },
        Command::Submit { order: sell(2, 2, 400, 10100), tif: TimeInForce::Gtc, stp: None },
        Command::Submit { order: buy(3, 3, 800, 10100), tif: TimeInForce::Ioc, stp: None },
        Command::Replace {
            order: sell(2, 2, 400, 10100),
            new_price: Some(Decimal::new(10200, 2)),
            new_quantity: None,
            new_id: 20,
        },
        Command::Cancel { order: sell(20, 2, 200, 10200) },
        Command::Cancel { order: sell(9, 9, 200, 10200) },
    ];
    let run = |commands: &[Command]| {
        let mut e = engine();
        let mut log = Vec::new();
        for c in commands {
            let out = e.process(c);
            log.push(format!("{:?}", out));
        }
        (log, format!("{:?}", e.depth(10)))
    };
    let first = run(&commands);
    let second = run(&commands);
    assert_eq!(first, second);
    let mut whole = engine();
    let mut suffix = Vec::new();
    for (i, c) in commands.iter().enumerate() {
        let out = whole.process(c);
        if i >= 3 {
            suffix.push(format!("{:?}", out));
        }
    }
    let mut replayed = engine();
    for c in &commands[..3] {
        replayed.process(c);
    }
    let mut again = Vec::new();
    for c in &commands[3..] {
        again.push(format!("{:?}", replayed.process(c)));
    }
    assert_eq!(suffix, again);
}

#[test]
fn snapshot_shows_levels_best_first_with_aggregates() {
    let mut e = engine();
    gtc(&mut e, &buy(1, 1, 1000, 10000));
    gtc(&mut e, &buy(2, 1, 500, 10000));
    gtc(&mut e, &buy(3, 1, 200, 9900));
    gtc(&mut e, &sell(4, 2, 300, 10100));
    gtc(&mut e, &sell(5, 2, 300, 10200));
    gtc(&mut e, &sell(6, 3, 100, 10050));
    let book = e.depth(2);
    assert_eq!(book.symbol, "BTC-USD");
    assert_eq!(book.last_updated, 6);
    assert_eq!(book.bids.len(), 2);
    assert_eq!(book.asks.len(), 2);
    assert_eq!(book.bids[0].price, Decimal::new(10000, 2));
    assert_eq!(book.bids[0].quantity, Decimal::new(1500, 3));
    assert_eq!(book.bids[0].order_count, 2);
    assert_eq!(book.bids[0].sequence, 6);
    assert_eq!(book.bids[1].price, Decimal::new(9900, 2));
    assert_eq!(book.asks[0].price, Decimal::new(10050, 2));
    assert_eq!(book.asks[1].price, Decimal::new(10100, 2));
    let ten = e.get_order_book("XBT");
    assert_eq!(ten.symbol, "XBT");
    assert_eq!(ten.asks.len(), 3);
    assert_eq!(ten.bids.len(), 2);
    assert_eq!(e.depth(0).bids.len(), 0);
    let top = e.top_of_book();
    assert_eq!(top.best_bid_size, Some(Decimal::new(1500, 3)));
    assert_eq!(top.best_ask_price, Some(Decimal::new(10050, 2)));
    assert_eq!(top.best_ask_size, Some(Decimal::new(100, 3)));
    assert_eq!(top.sequence, 6);
    assert_eq!(e.symbol(), "BTC-USD");
    assert_eq!(e.meta().tick_size(), Decimal::new(1, 2));
}

#[test]
fn get_order_book_shows_at_most_ten_levels() {
    let mut e = engine();
    for i in 0..12 {
        gtc(&mut e, &sell(i as u128 + 1, 1, 100, 10000 + i));
    }
    let book = e.get_order_book("BTC-USD");
    assert_eq!(book.asks.len(), 10);
    assert_eq!(book.asks[9].price, Decimal::new(10009, 2));
    assert_eq!(e.depth(12).asks.len(), 12);
    assert_eq!(e.depth(50).asks.len(), 12);
}

#[test]
fn cancel_takes_the_order_off_and_drops_the_empty_level() {
    let mut e = engine();
    gtc(&mut e, &buy(1, 1, 1000, 10000));
    gtc(&mut e, &buy(2, 1, 500, 9900));
    let out = e.remove_order(&buy(1, 1, 1000, 10000));
    match out.response {
        Response::Cancelled { order_id, reason } => {
            assert_eq!(order_id, 1);
            assert_eq!(reason, CancelReason::Requested);
        }
        other => panic!("unexpected {:?}", other),
    }
    assert_eq!(e.depth(10).bids.len(), 1);
    assert_eq!(e.top_of_book().best_bid_price, Some(Decimal::new(9900, 2)));
    assert_eq!(reason(&e.remove_order(&buy(1, 1, 1000, 10000))), RejectReason::NotFound);
    assert_eq!(reason(&e.remove_order(&buy(2, 1, 500, 10000))), RejectReason::NotFound);
    assert_eq!(reason(&e.remove_order(&sell(2, 1, 500, 9900))), RejectReason::NotFound);
    let off_tick = Order { price: Decimal::new(99005, 3), ..buy(2, 1, 500, 9900) };
    assert_eq!(reason(&e.remove_order(&off_tick)), RejectReason::NotFound);
}

#[test]
fn replace_down_in_quantity_keeps_time_priority() {
    let mut e = engine();
    gtc(&mut e, &sell(1, 1, 1000, 10000));
    gtc(&mut e, &sell(2, 2, 1000, 10000));
    let out = e.replace_order(&sell(1, 1, 1000, 10000), None, Some(Decimal::new(400, 3)), 99);
    match &out.response {
        Response::Accepted { resting_id, fills } => {
            assert_eq!(*resting_id, Some(1));
            assert_eq!(fills.len(), 0);
        }
        other => panic!("unexpected {:?}", other),
    }
    assert_eq!(state(&out.events[0]), (1, OrderStatus::Open, Decimal::zero(), 3));
    assert_eq!(e.top_of_book().best_ask_size, Some(Decimal::new(1400, 3)));
    let fill = gtc(&mut e, &buy(3, 3, 400, 10000));
    match &fill.response {
        Response::Accepted { fills, .. } => {
            assert_eq!(fills.len(), 1);
            assert_eq!(fills[0].order_id, 1);
        }
        other => panic!("unexpected {:?}", other),
    }
}

#[test]
fn replace_at_or_below_the_filled_quantity_ends_the_order_as_filled() {
    let mut e = engine();
    gtc(&mut e, &sell(1, 1, 1000, 10000));
    gtc(&mut e, &buy(2, 2, 600, 10000));
    let out = e.replace_order(&sell(1, 1, 1000, 10000), None, Some(Decimal::new(600, 3)), 99);
    match &out.response {
        Response::Accepted { resting_id, .. } => assert_eq!(*resting_id, None),
        other => panic!("unexpected {:?}", other),
    }
    let s = state(&out.events[0]);
    assert_eq!((s.0, s.1, s.2), (1, OrderStatus::Filled, Decimal::new(600, 3)));
    assert_eq!(e.depth(10).asks.len(), 0);
}

#[test]
fn replace_of_price_or_up_in_quantity_loses_time_priority() {
    let mut e = engine();
    gtc(&mut e, &sell(1, 1, 1000, 10000));
    gtc(&mut e, &sell(2, 2, 1000, 10000));
    let out = e.replace_order(&sell(1, 1, 1000, 10000), None, Some(Decimal::new(1500, 3)), 99);
    match &out.response {
        Response::Accepted { resting_id, .. } => assert_eq!(*resting_id, Some(99)),
        other => panic!("unexpected {:?}", other),
    }
    assert_eq!(out.events.len(), 2);
    assert_eq!(state(&out.events[0]).0, 1);
    assert_eq!(state(&out.events[0]).1, OrderStatus::Cancelled);
    assert_eq!(state(&out.events[1]), (99, OrderStatus::Open, Decimal::zero(), 4));
    let fill = gtc(&mut e, &buy(3, 3, 400, 10000));
    match &fill.response {
        Response::Accepted { fills, .. } => assert_eq!(fills[0].order_id, 2),
        other => panic!("unexpected {:?}", other),
    }
    let moved =
        e.replace_order(&sell(99, 1, 1500, 10000), Some(Decimal::new(9000, 2)), None, 100);
    match &moved.response {
        Response::Accepted { resting_id, .. } => assert_eq!(*resting_id, Some(100)),
        other => panic!("unexpected {:?}", other),
    }
    assert_eq!(e.top_of_book().best_ask_price, Some(Decimal::new(9000, 2)));
    assert_eq!(e.top_of_book().best_ask_size, Some(Decimal::new(1500, 3)));
}

#[test]
fn replace_that_crosses_trades() {
    let mut e = engine();
    gtc(&mut e, &buy(1, 1, 500, 9900));
    gtc(&mut e, &sell(2, 2, 1000, 10000));
    let out = e.replace_order(&sell(2, 2, 1000, 10000), Some(Decimal::new(9900, 2)), None, 7);
    match &out.response {
        Response::Accepted { resting_id, fills } => {
            assert_eq!(*resting_id, Some(7));
            assert_eq!(fills.len(), 1);
            assert_eq!(fills[0].quantity, Decimal::new(500, 3));
        }
        other => panic!("unexpected {:?}", other),
    }
    assert_eq!(sequences(&out.events), vec![3, 4, 5, 6]);
}

#[test]
fn replace_validates_before_it_changes_anything() {
    let mut e = engine();
    gtc(&mut e, &sell(1, 1, 1000, 10000));
    let o = sell(1, 1, 1000, 10000);
    assert_eq!(
        reason(&e.replace_order(&o, Some(Decimal::new(5, 3)), None, 9)),
        RejectReason::InvalidPrice
    );
    assert_eq!(
        reason(&e.replace_order(&o, None, Some(Decimal::zero()), 9)),
        RejectReason::InvalidQuantity
    );
    assert_eq!(
        reason(&e.replace_order(&sell(5, 1, 1000, 10000), None, None, 9)),
        RejectReason::NotFound
    );
    assert_eq!(e.sequence(), 1);
    assert_eq!(e.top_of_book().best_ask_size, Some(Decimal::new(1000, 3)));
}

#[test]
fn engine_policy_and_override() {
    let mut e = engine_at(0, SelfTradePolicy::CancelTaker);
    gtc(&mut e, &sell(1, 7, 1000, 10000));
    let out = gtc(&mut e, &buy(2, 7, 500, 10000));
    match out.response {
        Response::Cancelled { order_id, reason } => {
            assert_eq!(order_id, 2);
            assert_eq!(reason, CancelReason::SelfTrade);
        }
        other => panic!("unexpected {:?}", other),
    }
    assert_eq!(e.top_of_book().best_ask_size, Some(Decimal::new(1000, 3)));
    assert_eq!(e.top_of_book().best_bid_price, None);
    let allowed = e.add_order(&buy(3, 7, 500, 10000), TimeInForce::Gtc, Some(SelfTradePolicy::Allow));
    match &allowed.response {
        Response::Accepted { fills, .. } => assert_eq!(fills.len(), 1),
        other => panic!("unexpected {:?}", other),
    }
    let both =
        e.add_order(&buy(4, 7, 500, 10000), TimeInForce::Gtc, Some(SelfTradePolicy::CancelBoth));
    assert!(matches!(both.response, Response::Cancelled { reason: CancelReason::SelfTrade, .. }));
    assert_eq!(state(&both.events[0]).0, 1);
    assert_eq!(state(&both.events[0]).1, OrderStatus::Cancelled);
    assert_eq!(e.depth(10).asks.len(), 0);
    gtc(&mut e, &sell(5, 7, 300, 10000));
    let maker =
        e.add_order(&buy(6, 7, 500, 10000), TimeInForce::Gtc, Some(SelfTradePolicy::CancelMaker));
    match &maker.response {
        Response::Accepted { resting_id, fills } => {
            assert_eq!(*resting_id, Some(6));
            assert_eq!(fills.len(), 0);
        }
        other => panic!("unexpected {:?}", other),
    }
    assert_eq!(e.top_of_book().best_bid_size, Some(Decimal::new(500, 3)));
}

#[test]
fn a_halted_engine_refuses_everything() {
    let mut e = engine();
    gtc(&mut e, &buy(1, 1, 1000, 10000));
    assert!(e.is_healthy());
    e.halt();
    assert!(!e.is_healthy());
    assert_eq!(reason(&gtc(&mut e, &buy(2, 1, 1000, 10000))), RejectReason::EngineHalted);
    assert_eq!(reason(&e.remove_order(&buy(1, 1, 1000, 10000))), RejectReason::EngineHalted);
    assert_eq!(
        reason(&e.replace_order(&buy(1, 1, 1000, 10000), None, None, 5)),
        RejectReason::EngineHalted
    );
    assert_eq!(e.top_of_book().best_bid_size, Some(Decimal::new(1000, 3)));
}

#[test]
fn an_exhausted_sequence_refuses_commands() {
    let mut e = engine_at(u64::MAX - 3, SelfTradePolicy::Allow);
    let a = gtc(&mut e, &sell(1, 1, 1000, 10000));
    assert_eq!(sequences(&a.events), vec![u64::MAX - 2]);
    let b = gtc(&mut e, &buy(2, 2, 500, 10000));
    assert_eq!(reason(&b), RejectReason::SequenceExhausted);
    let c = gtc(&mut e, &sell(3, 1, 1000, 10100));
    assert_eq!(sequences(&c.events), vec![u64::MAX - 1]);
    assert_eq!(
        reason(&e.replace_order(&sell(3, 1, 1000, 10100), Some(Decimal::new(10200, 2)), None, 9)),
        RejectReason::SequenceExhausted
    );
    let d = e.remove_order(&sell(3, 1, 1000, 10100));
    assert_eq!(sequences(&d.events), vec![u64::MAX]);
    assert_eq!(reason(&e.remove_order(&sell(1, 1, 1000, 10000))), RejectReason::SequenceExhausted);
    assert_eq!(
        reason(&e.replace_order(&sell(1, 1, 1000, 10000), None, Some(Decimal::new(500, 3)), 9)),
        RejectReason::SequenceExhausted
    );
    assert_eq!(reason(&gtc(&mut e, &sell(4, 1, 1000, 10100))), RejectReason::SequenceExhausted);
}

#[test]
fn self_trade_stop_after_a_fill_is_accepted_with_the_fill() {
    let mut e = engine_at(0, SelfTradePolicy::CancelTaker);
    gtc(&mut e, &sell(1, 8, 300, 10000));
    gtc(&mut e, &sell(2, 7, 1000, 10000));
    let out = gtc(&mut e, &buy(3, 7, 500, 10000));
    match &out.response {
        Response::Accepted { resting_id, fills } => {
            assert_eq!(*resting_id, None);
            assert_eq!(fills.len(), 1);
            assert_eq!(fills[0].order_id, 1);
        }
        other => panic!("unexpected {:?}", other),
    }
    let last = state(out.events.last().unwrap());
    assert_eq!((last.0, last.1, last.2), (3, OrderStatus::Cancelled, Decimal::new(300, 3)));
    assert_eq!(e.top_of_book().best_ask_size, Some(Decimal::new(1000, 3)));
    assert_eq!(e.top_of_book().best_bid_price, None);
}
