use exchange_core::decimal::Decimal;
use exchange_core::errors::{AppError, RejectReason};
use exchange_core::handlers::orders::OrderQuery;
use exchange_core::models::{
    CreateOrderRequest, Order, OrderResponse, OrderSide, OrderStatus, OrderType, SelfTradePolicy,
    TimeInForce, Trade, TradeResponse,
};
use exchange_core::services::order_book_service::OrderBookService;
use exchange_core::services::order_service::OrderService;
use exchange_core::symbol::SymbolMeta;

fn meta() -> SymbolMeta {
    SymbolMeta::new(
        Decimal::new(1, 2),
        Decimal::new(1, 3),
        Decimal::new(1, 2),
        Decimal::new(100_000_000, 2),
        Decimal::new(1_000_000, 3),
    )
    .unwrap()
}

fn service() -> OrderService {
    let mut s = OrderService::new(OrderBookService::new(
        "BTC-USD".to_string(),
        meta(),
        SelfTradePolicy::Allow,
        0,
    ));
    s.add_engine(OrderBookService::new("ETH-USD".to_string(), meta(), SelfTradePolicy::Allow, 100));
    s
}

fn request(symbol: &str, side: OrderSide, kind: OrderType, qty: i128, price: i128) -> CreateOrderRequest {
    CreateOrderRequest {
        symbol: symbol.to_string(),
        side,
        quantity: Decimal::new(qty, 3),
        price: Decimal::new(price, 2),
        order_type: kind,
    }
}

fn place(s: &mut OrderService, id: u128, symbol: &str, side: OrderSide, qty: i128, price: i128) -> Result<OrderResponse, AppError> {
    s.create_order_with(
        request(symbol, side, OrderType::Limit, qty, price),
        id,
        id + 1000,
        TimeInForce::Gtc,
        None,
    )
}

fn all() -> OrderQuery {
    OrderQuery { symbol: None, status: None, limit: None, offset: None }
}

fn ids(list: &[OrderResponse]) -> Vec<u128> {
    list.iter().map(|o| o.id).collect()
}

#[test]
fn create_order_draws_a_version_four_identifier() {
    let mut s = service();
    let a = s.create_order(request("BTC-USD", OrderSide::Buy, OrderType::Limit, 1000, 10000)).unwrap();
    let b = s.create_order(request("BTC-USD", OrderSide::Buy, OrderType::Limit, 1000, 9900)).unwrap();
    for id in [a.id, b.id] {
        assert_eq!((id >> 76) & 0xf, 4);
        assert_eq!((id >> 62) & 0x3, 2);
    }
    assert_ne!(a.id, b.id);
    assert_eq!(a.status, OrderStatus::Open);
    assert_eq!(s.get_order(a.id).unwrap().price, Decimal::new(10000, 2));
    assert_eq!(s.get_orders(&all()).unwrap().len(), 2);
}

#[test]
fn orders_are_routed_to_the_engine_of_their_symbol() {
    let mut s = service();
    place(&mut s, 1, "BTC-USD", OrderSide::Sell, 1000, 10000).unwrap();
    let eth = place(&mut s, 2, "ETH-USD", OrderSide::Buy, 1000, 10000).unwrap();
    assert_eq!(eth.status, OrderStatus::Open);
    assert_eq!(eth.created_at, 100);
    let btc = s.engine(&"BTC-USD".to_string()).unwrap().top_of_book();
    assert_eq!(btc.best_ask_price, Some(Decimal::new(10000, 2)));
    assert_eq!(btc.best_bid_price, None);
    let top = s.engine(&"ETH-USD".to_string()).unwrap().top_of_book();
    assert_eq!(top.best_bid_price, Some(Decimal::new(10000, 2)));
    assert_eq!(top.best_ask_price, None);
    assert_eq!(top.sequence, 101);
    assert!(s.engine(&"XRP-USD".to_string()).is_none());
    let err = place(&mut s, 3, "XRP-USD", OrderSide::Buy, 1000, 10000).unwrap_err();
    assert!(matches!(err, AppError::Validation(_)));
    assert_eq!(err.message(), "Unknown symbol");
    assert_eq!(s.get_orders(&all()).unwrap().len(), 2);
}

#[test]
fn fills_update_the_orders_and_trades_on_file() {
    let mut s = service();
    place(&mut s, 1, "BTC-USD", OrderSide::Sell, 1000, 10000).unwrap();
    let taker = place(&mut s, 2, "BTC-USD", OrderSide::Buy, 400, 10000).unwrap();
    assert_eq!(taker.id, 2);
    assert_eq!(taker.status, OrderStatus::Filled);
    assert_eq!(taker.filled_quantity, Decimal::new(400, 3));
    let maker = s.get_order(1).unwrap();
    assert_eq!(maker.status, OrderStatus::PartiallyFilled);
    assert_eq!(maker.filled_quantity, Decimal::new(400, 3));
    assert_eq!(maker.quantity, Decimal::new(1000, 3));
    place(&mut s, 3, "BTC-USD", OrderSide::Buy, 600, 10000).unwrap();
    assert_eq!(s.get_order(1).unwrap().status, OrderStatus::Filled);
    assert_eq!(s.get_order(1).unwrap().filled_quantity, Decimal::new(1000, 3));
    let trades = s.get_order_trades(1).unwrap();
    assert_eq!(trades.len(), 2);
    assert_eq!(trades[0].quantity, Decimal::new(600, 3));
    assert_eq!(trades[1].quantity, Decimal::new(400, 3));
    assert!(trades[0].executed_at > trades[1].executed_at);
    assert_eq!(trades[0].symbol, "BTC-USD");
    assert_eq!(s.get_order_trades(2).unwrap().len(), 1);
    assert_eq!(s.get_order_trades(3).unwrap()[0].price, Decimal::new(10000, 2));
    assert_eq!(s.get_order_trades(9).unwrap().len(), 0);
    let filled: Decimal = Decimal::new(400, 3)
        .checked_add(&Decimal::new(600, 3))
        .unwrap()
        .checked_add(&Decimal::new(1000, 3))
        .unwrap();
    let traded = Decimal::new(400, 3).checked_add(&Decimal::new(600, 3)).unwrap();
    assert_eq!(traded.checked_mul_int(2).unwrap(), filled);
}

#[test]
fn a_badly_shaped_request_changes_nothing() {
    let mut s = service();
    let e = place(&mut s, 1, "", OrderSide::Buy, 1000, 10000).unwrap_err();
    assert_eq!(e.status_code(), 400);
    assert_eq!(e.message(), "Symbol must be between 1 and 20 characters");
    let e = place(&mut s, 1, "BTC-USD", OrderSide::Buy, 0, 10000).unwrap_err();
    assert_eq!(e.message(), "Quantity must be greater than 0");
    let e = place(&mut s, 1, "BTC-USD", OrderSide::Buy, 1000, 0).unwrap_err();
    assert_eq!(e.message(), "Price must be greater than 0");
    let e = place(&mut s, 1, "BTC-USD", OrderSide::Buy, 1000, 10000 * 100_000).unwrap_err();
    assert_eq!(e.message(), "Invalid price");
    let e = s
        .create_order_with(
            request("BTC-USD", OrderSide::Buy, OrderType::Limit, 1000, 10000),
            1,
            1,
            TimeInForce::Fok,
            None,
        )
        .unwrap_err();
    assert_eq!(e.message(), "Order cannot be filled in full");
    assert_eq!(s.get_orders(&all()).unwrap().len(), 0);
    assert!(s.get_order(1).is_err());
}

#[test]
fn an_identifier_is_used_once() {
    let mut s = service();
    place(&mut s, 1, "BTC-USD", OrderSide::Buy, 1000, 10000).unwrap();
    let e = place(&mut s, 1, "BTC-USD", OrderSide::Buy, 1000, 10000).unwrap_err();
    assert!(matches!(e, AppError::Conflict(_)));
    assert_eq!(e.status_code(), 409);
    assert_eq!(e.message(), "Duplicate order id");
    assert_eq!(s.get_orders(&all()).unwrap().len(), 1);
}

#[test]
fn stop_orders_are_parked() {
    let mut s = service();
    let stop = s
        .create_order_with(
            request("BTC-USD", OrderSide::Buy, OrderType::Stop, 1000, 10000),
            5,
            50,
            TimeInForce::Gtc,
            None,
        )
        .unwrap();
    assert_eq!(stop.status, OrderStatus::New);
    assert_eq!(stop.order_type, OrderType::Stop);
    assert_eq!(s.engine(&"BTC-USD".to_string()).unwrap().top_of_book().best_bid_price, None);
    let gone = s.cancel_order(5).unwrap();
    assert_eq!(gone.status, OrderStatus::Cancelled);
    let again = s.cancel_order(5).unwrap_err();
    assert!(matches!(again, AppError::Conflict(_)));
}

#[test]
fn cancel_order_takes_a_resting_order_off_the_book() {
    let mut s = service();
    place(&mut s, 1, "BTC-USD", OrderSide::Buy, 1000, 10000).unwrap();
    place(&mut s, 2, "BTC-USD", OrderSide::Sell, 300, 10000).unwrap();
    let gone = s.cancel_order(1).unwrap();
    assert_eq!(gone.id, 1);
    assert_eq!(gone.status, OrderStatus::Cancelled);
    assert_eq!(gone.filled_quantity, Decimal::new(300, 3));
    assert_eq!(s.engine(&"BTC-USD".to_string()).unwrap().top_of_book().best_bid_price, None);
    let twice = s.cancel_order(1).unwrap_err();
    assert_eq!(twice.status_code(), 409);
    assert_eq!(twice.message(), "Order not found or cannot be cancelled");
    let filled = s.cancel_order(2).unwrap_err();
    assert_eq!(filled.status_code(), 409);
    let missing = s.cancel_order(7).unwrap_err();
    assert!(matches!(missing, AppError::NotFound(_)));
    assert_eq!(missing.status_code(), 404);
    assert_eq!(missing.message(), "Order not found");
}

#[test]
fn get_order_reports_not_found() {
    let s = service();
    let e = s.get_order(1).unwrap_err();
    assert!(matches!(e, AppError::NotFound(_)));
    assert_eq!(e.message(), "Order not found");
}

#[test]
fn get_orders_filters_newest_first_and_pages() {
    let mut s = service();
    place(&mut s, 1, "BTC-USD", OrderSide::Buy, 1000, 10000).unwrap();
    place(&mut s, 2, "ETH-USD", OrderSide::Buy, 1000, 10000).unwrap();
    place(&mut s, 3, "BTC-USD", OrderSide::Buy, 1000, 9900).unwrap();
    place(&mut s, 4, "BTC-USD", OrderSide::Sell, 1000, 10000).unwrap();
    place(&mut s, 5, "BTC-USD", OrderSide::Buy, 1000, 9800).unwrap();
    assert_eq!(ids(&s.get_orders(&all()).unwrap()), vec![5, 4, 3, 2, 1]);
    let btc = OrderQuery { symbol: Some("BTC-USD".to_string()), ..all() };
    assert_eq!(ids(&s.get_orders(&btc).unwrap()), vec![5, 4, 3, 1]);
    let open = OrderQuery { status: Some("open".to_string()), ..all() };
    assert_eq!(ids(&s.get_orders(&open).unwrap()), vec![5, 3, 2]);
    let filled = OrderQuery {
        symbol: Some("BTC-USD".to_string()),
        status: Some("filled".to_string()),
        ..all()
    };
    assert_eq!(ids(&s.get_orders(&filled).unwrap()), vec![4, 1]);
    let paged = OrderQuery { limit: Some(2), offset: Some(1), ..all() };
    assert_eq!(ids(&s.get_orders(&paged).unwrap()), vec![4, 3]);
    let tail = OrderQuery { limit: Some(10), offset: Some(4), ..all() };
    assert_eq!(ids(&s.get_orders(&tail).unwrap()), vec![1]);
    let beyond = OrderQuery { offset: Some(9), ..all() };
    assert_eq!(ids(&s.get_orders(&beyond).unwrap()), Vec::<u128>::new());
    let none = OrderQuery { limit: Some(0), ..all() };
    assert_eq!(ids(&s.get_orders(&none).unwrap()), Vec::<u128>::new());
    let first = OrderQuery { limit: Some(1), ..all() };
    assert_eq!(ids(&s.get_orders(&first).unwrap()), vec![5]);
    let bad = OrderQuery { limit: Some(-1), ..all() };
    assert!(matches!(s.get_orders(&bad).unwrap_err(), AppError::BadRequest(_)));
    let bad = OrderQuery { offset: Some(-1), ..all() };
    assert!(matches!(s.get_orders(&bad).unwrap_err(), AppError::BadRequest(_)));
}

#[test]
fn the_inbox_turns_commands_away_above_the_high_water_mark() {
    let mut s = service();
    assert!(s.check_capacity(usize::MAX).is_ok());
    s.set_high_water_mark(3);
    assert!(s.check_capacity(3).is_ok());
    let e = s.check_capacity(4).unwrap_err();
    assert!(matches!(e, AppError::Unavailable(_)));
    assert_eq!(e.status_code(), 503);
    assert_eq!(e.message(), "Engine overloaded");
}

#[test]
fn errors_answer_with_their_status() {
    let text = |s: &str| s.to_string();
    let cases = vec![
        (AppError::Authentication(text("a")), 401),
        (AppError::Authorization(text("b")), 403),
        (AppError::Validation(text("c")), 400),
        (AppError::OrderBook(text("d")), 400),
        (AppError::Trade(text("e")), 400),
        (AppError::User(text("f")), 400),
        (AppError::Internal(text("g")), 500),
        (AppError::NotFound(text("h")), 404),
        (AppError::BadRequest(text("i")), 400),
        (AppError::Conflict(text("j")), 409),
        (AppError::Unavailable(text("k")), 503),
    ];
    for (error, status) in cases {
        let response = error.error_response();
        assert_eq!(response.status, status);
        assert_eq!(response.message, error.message());
        assert_eq!(error.status_code(), status);
    }
    let reasons = vec![
        (RejectReason::InvalidPrice, 400, "Invalid price"),
        (RejectReason::InvalidQuantity, 400, "Invalid quantity"),
        (RejectReason::UnknownSymbol, 400, "Unknown symbol"),
        (RejectReason::UnsupportedOrderType, 400, "Unsupported order type"),
        (RejectReason::TifUnfillable, 400, "Order cannot be filled in full"),
        (RejectReason::NotFound, 404, "Order not found"),
        (RejectReason::NotCancellable, 409, "Order not found or cannot be cancelled"),
        (RejectReason::Overloaded, 503, "Engine overloaded"),
        (RejectReason::SequenceExhausted, 503, "Sequence numbers exhausted"),
        (RejectReason::EngineHalted, 503, "Engine halted"),
    ];
    for (reason, status, message) in reasons {
        assert_eq!(reason.status_code(), status);
        assert_eq!(reason.message(), message);
        let error = AppError::from_reject(reason);
        assert_eq!(error.status_code(), status);
        assert_eq!(error.message(), message);
    }
}

#[test]
fn responses_show_the_order_and_the_trade() {
    let order = Order {
        id: 7,
        user_id: 8,
        symbol: "BTC-USD".to_string(),
        side: OrderSide::Sell,
        quantity: Decimal::new(15, 1),
        price: Decimal::new(100, 0),
        order_type: OrderType::Limit,
        status: OrderStatus::PartiallyFilled,
        filled_quantity: Decimal::new(5, 1),
        created_at: 3,
        updated_at: 9,
    };
    let copy = order.clone();
    assert_eq!(copy.id, 7);
    assert_eq!(copy.symbol, "BTC-USD");
    assert_eq!(copy.updated_at, 9);
    let r = OrderResponse::from(order);
    assert_eq!(r.id, 7);
    assert_eq!(r.symbol, "BTC-USD");
    assert_eq!(r.side, OrderSide::Sell);
    assert_eq!(r.quantity, Decimal::new(15, 1));
    assert_eq!(r.price, Decimal::new(100, 0));
    assert_eq!(r.order_type, OrderType::Limit);
    assert_eq!(r.status, OrderStatus::PartiallyFilled);
    assert_eq!(r.filled_quantity, Decimal::new(5, 1));
    assert_eq!(r.created_at, 3);
    let trade = Trade {
        id: 11,
        order_id: 7,
        taker_order_id: 12,
        symbol: "BTC-USD".to_string(),
        side: OrderSide::Buy,
        quantity: Decimal::new(5, 1),
        price: Decimal::new(100, 0),
        executed_at: 11,
    };
    let t = TradeResponse::from(trade.clone());
    assert_eq!(t.id, 11);
    assert_eq!(t.symbol, "BTC-USD");
    assert_eq!(t.quantity, Decimal::new(5, 1));
    assert_eq!(t.price, Decimal::new(100, 0));
    assert_eq!(t.executed_at, 11);
    let mut changed = copy;
    changed.record(OrderStatus::Filled, Decimal::new(15, 1), 20);
    assert_eq!(changed.status, OrderStatus::Filled);
    assert_eq!(changed.filled_quantity, Decimal::new(15, 1));
    assert_eq!(changed.updated_at, 20);
    assert_eq!(changed.created_at, 3);
}

#[test]
fn statuses_follow_their_transitions() {
    let all = [
        OrderStatus::New,
        OrderStatus::Open,
        OrderStatus::PartiallyFilled,
        OrderStatus::Filled,
        OrderStatus::Cancelled,
        OrderStatus::Rejected,
    ];
    for s in all {
        assert_eq!(
            s.is_terminal(),
            matches!(s, OrderStatus::Filled | OrderStatus::Cancelled | OrderStatus::Rejected)
        );
        assert_eq!(s.is_resting(), matches!(s, OrderStatus::Open | OrderStatus::PartiallyFilled));
        for t in all {
            if s.is_terminal() {
                assert!(!s.may_become(t));
            }
        }
    }
    assert!(OrderStatus::New.may_become(OrderStatus::Open));
    assert!(OrderStatus::New.may_become(OrderStatus::Rejected));
    assert!(OrderStatus::New.may_become(OrderStatus::Filled));
    assert!(!OrderStatus::New.may_become(OrderStatus::New));
    assert!(OrderStatus::Open.may_become(OrderStatus::PartiallyFilled));
    assert!(OrderStatus::Open.may_become(OrderStatus::Cancelled));
    assert!(!OrderStatus::Open.may_become(OrderStatus::Rejected));
    assert!(OrderStatus::PartiallyFilled.may_become(OrderStatus::Filled));
    assert!(!OrderStatus::PartiallyFilled.may_become(OrderStatus::Open));
    assert_eq!(OrderStatus::PartiallyFilled.name(), "partially_filled");
    assert_eq!(OrderStatus::New.name(), "new");
    assert_eq!(OrderSide::Buy.opposite(), OrderSide::Sell);
    assert_eq!(OrderSide::Sell.opposite(), OrderSide::Buy);
}

#[test]
fn events_wait_in_the_outbox_until_taken() {
    let mut s = service();
    assert_eq!(s.take_events().len(), 0);
    place(&mut s, 1, "BTC-USD", OrderSide::Sell, 1000, 10000).unwrap();
    place(&mut s, 2, "BTC-USD", OrderSide::Buy, 400, 10000).unwrap();
    place(&mut s, 3, "XRP-USD", OrderSide::Buy, 400, 10000).unwrap_err();
    s.cancel_order(1).unwrap();
    let events = s.take_events();
    let sequences: Vec<u64> = events.iter().map(|e| e.sequence()).collect();
    assert_eq!(sequences, vec![1, 2, 3, 4, 5]);
    assert_eq!(s.take_events().len(), 0);
    assert_eq!(s.get_order_trades(1).unwrap().len(), 1);
}

#[test]
fn a_halted_service_refuses_orders() {
    let mut s = service();
    assert!(s.is_healthy());
    place(&mut s, 1, "BTC-USD", OrderSide::Sell, 1000, 10000).unwrap();
    s.halt();
    assert!(!s.is_healthy());
    let e = place(&mut s, 2, "ETH-USD", OrderSide::Sell, 1000, 10000).unwrap_err();
    assert!(matches!(e, AppError::Unavailable(_)));
    assert_eq!(e.message(), "Engine halted");
    let e = s.cancel_order(1).unwrap_err();
    assert_eq!(e.status_code(), 503);
    assert_eq!(s.get_order(1).unwrap().status, OrderStatus::Open);
}

#[test]
fn replace_in_place_keeps_the_order_on_file() {
    let mut s = service();
    place(&mut s, 1, "BTC-USD", OrderSide::Sell, 1000, 10000).unwrap();
    let r = s.replace_order_with(1, None, Some(Decimal::new(400, 3)), 50).unwrap();
    assert_eq!(r.id, 1);
    assert_eq!(r.status, OrderStatus::Open);
    assert_eq!(s.get_orders(&all()).unwrap().len(), 1);
    assert!(s.get_order(50).is_err());
    let top = s.engine(&"BTC-USD".to_string()).unwrap().top_of_book();
    assert_eq!(top.best_ask_size, Some(Decimal::new(400, 3)));
}

#[test]
fn replace_at_a_new_price_files_the_order_that_comes_back() {
    let mut s = service();
    place(&mut s, 1, "BTC-USD", OrderSide::Sell, 1000, 10000).unwrap();
    place(&mut s, 2, "BTC-USD", OrderSide::Buy, 300, 9900).unwrap();
    let r = s.replace_order_with(1, Some(Decimal::new(9900, 2)), None, 50).unwrap();
    assert_eq!(r.id, 50);
    assert_eq!(r.status, OrderStatus::PartiallyFilled);
    assert_eq!(r.filled_quantity, Decimal::new(300, 3));
    assert_eq!(r.price, Decimal::new(9900, 2));
    assert_eq!(r.quantity, Decimal::new(1000, 3));
    assert_eq!(s.get_order(1).unwrap().status, OrderStatus::Cancelled);
    assert_eq!(s.get_order(2).unwrap().status, OrderStatus::Filled);
    assert_eq!(ids(&s.get_orders(&all()).unwrap()), vec![50, 2, 1]);
    assert_eq!(s.get_order_trades(50).unwrap().len(), 1);
    let twice = s.replace_order_with(1, None, None, 51).unwrap_err();
    assert_eq!(twice.status_code(), 409);
    let taken = s.replace_order_with(50, None, None, 2).unwrap_err();
    assert_eq!(taken.message(), "Duplicate order id");
    let missing = s.replace_order_with(9, None, None, 52).unwrap_err();
    assert_eq!(missing.status_code(), 404);
    let bad = s.replace_order_with(50, Some(Decimal::new(5, 3)), None, 53).unwrap_err();
    assert_eq!(bad.message(), "Invalid price");
    let fresh = s.replace_order(50, Some(Decimal::new(10100, 2)), None).unwrap();
    assert_eq!((fresh.id >> 76) & 0xf, 4);
    assert_eq!(fresh.price, Decimal::new(10100, 2));
}

#[test]
fn defaults_are_good_till_cancelled_and_allow() {
    assert_eq!(TimeInForce::default(), TimeInForce::Gtc);
    assert_eq!(SelfTradePolicy::default(), SelfTradePolicy::Allow);
}
