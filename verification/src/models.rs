//! The entities and messages of the exchange: orders, trades, requests and
//! responses.

use crate::decimal::Decimal;
use vstd::prelude::*;

verus! {

/// A registered user.
#[derive(Clone, Debug)]
pub struct User {
    pub id: u128,
    pub email: String,
    pub password_hash: String,
    pub status: UserStatus,
    /// Seconds since the epoch.
    pub created_at: i64,
    /// Seconds since the epoch.
    pub updated_at: i64,
}

/// Account standing of a user.
#[derive(Clone, Copy, Debug, PartialEq, Eq, Structural)]
pub enum UserStatus {
    Active,
    Inactive,
    Suspended,
}

/// The side of the book an order is on.
#[derive(Clone, Copy, Debug, PartialEq, Eq, Structural)]
pub enum OrderSide {
    Buy,
    Sell,
}

impl OrderSide {
    /// The side an order of this side trades against.
    pub open spec fn spec_opposite(self) -> OrderSide {
        match self {
            OrderSide::Buy => OrderSide::Sell,
            OrderSide::Sell => OrderSide::Buy,
        }
    }

    #[verifier::when_used_as_spec(spec_opposite)]
    pub fn opposite(self) -> (r: OrderSide)
        ensures
            r == self.spec_opposite(),
    {
        match self {
            OrderSide::Buy => OrderSide::Sell,
            OrderSide::Sell => OrderSide::Buy,
        }
    }
}

/// How an order is priced and when it becomes active.
#[derive(Clone, Copy, Debug, PartialEq, Eq, Structural)]
pub enum OrderType {
    Market,
    Limit,
    Stop,
    StopLimit,
}

/// Where an order is in its life.
#[derive(Clone, Copy, Debug, PartialEq, Eq, Structural)]
pub enum OrderStatus {
    New,
    Open,
    PartiallyFilled,
    Filled,
    Cancelled,
    Rejected,
}

/// What happens to the part of an order that does not trade at once.
#[derive(Clone, Copy, Debug, PartialEq, Eq, Structural)]
pub enum TimeInForce {
    /// Good till cancelled: the residual rests.
    Gtc,
    /// Immediate or cancel: the residual is cancelled.
    Ioc,
    /// Fill or kill: all of it trades at once, or none of it.
    Fok,
}

/// What the engine does when an order would trade against a resting order
/// of the same account.
#[derive(Clone, Copy, Debug, PartialEq, Eq, Structural)]
pub enum SelfTradePolicy {
    /// Let them trade.
    Allow,
    /// Stop matching and cancel what is left of the incoming order.
    CancelTaker,
    /// Remove the resting order and go on matching.
    CancelMaker,
    /// Remove the resting order and cancel what is left of the incoming one.
    CancelBoth,
}

/// An order, as the service knows it.
#[derive(Debug)]
pub struct Order {
    /// The order's identifier.
    pub id: u128,
    /// The account that owns the order.
    pub user_id: u128,
    pub symbol: String,
    pub side: OrderSide,
    /// Original quantity.
    pub quantity: Decimal,
    /// Limit price; a market order ignores it.
    pub price: Decimal,
    pub order_type: OrderType,
    pub status: OrderStatus,
    /// At least zero and at most the original quantity.
    pub filled_quantity: Decimal,
    /// The engine sequence at which the order was taken in.
    pub created_at: u64,
    /// The engine sequence of its latest change.
    pub updated_at: u64,
}

impl Clone for Order {
    fn clone(&self) -> (r: Order)
        ensures
            r == *self,
    {
        Order {
            id: self.id,
            user_id: self.user_id,
            symbol: self.symbol.clone(),
            side: self.side,
            quantity: self.quantity,
            price: self.price,
            order_type: self.order_type,
            status: self.status,
            filled_quantity: self.filled_quantity,
            created_at: self.created_at,
            updated_at: self.updated_at,
        }
    }
}

impl Order {
    /// The order after a change of state at `sequence`.
    pub open spec fn recorded(self, status: OrderStatus, filled: Decimal, sequence: u64) -> Order {
        Order { status, filled_quantity: filled, updated_at: sequence, ..self }
    }

    /// Records a change of state: the new status, the quantity filled so
    /// far, and the sequence of the change.
    pub fn record(&mut self, status: OrderStatus, filled: Decimal, sequence: u64)
        ensures
            *final(self) == old(self).recorded(status, filled, sequence),
    {
        self.status = status;
        self.filled_quantity = filled;
        self.updated_at = sequence;
    }
}

impl OrderStatus {
    /// The status as the queries name it.
    pub open spec fn spec_name(self) -> Seq<char> {
        match self {
            OrderStatus::New => "new"@,
            OrderStatus::Open => "open"@,
            OrderStatus::PartiallyFilled => "partially_filled"@,
            OrderStatus::Filled => "filled"@,
            OrderStatus::Cancelled => "cancelled"@,
            OrderStatus::Rejected => "rejected"@,
        }
    }

    pub fn name(self) -> (name: &'static str)
        ensures
            name@ == self.spec_name(),
    {
        match self {
            OrderStatus::New => "new",
            OrderStatus::Open => "open",
            OrderStatus::PartiallyFilled => "partially_filled",
            OrderStatus::Filled => "filled",
            OrderStatus::Cancelled => "cancelled",
            OrderStatus::Rejected => "rejected",
        }
    }

    /// Filled, cancelled and rejected orders never change again.
    pub open spec fn spec_is_terminal(self) -> bool {
        self == OrderStatus::Filled || self == OrderStatus::Cancelled || self
            == OrderStatus::Rejected
    }

    #[verifier::when_used_as_spec(spec_is_terminal)]
    pub fn is_terminal(self) -> (b: bool)
        ensures
            b == self.spec_is_terminal(),
    {
        match self {
            OrderStatus::Filled | OrderStatus::Cancelled | OrderStatus::Rejected => true,
            _ => false,
        }
    }

    /// An order rests on the book just when it is open or partially
    /// filled.
    pub open spec fn spec_is_resting(self) -> bool {
        self == OrderStatus::Open || self == OrderStatus::PartiallyFilled
    }

    #[verifier::when_used_as_spec(spec_is_resting)]
    pub fn is_resting(self) -> (b: bool)
        ensures
            b == self.spec_is_resting(),
    {
        match self {
            OrderStatus::Open | OrderStatus::PartiallyFilled => true,
            _ => false,
        }
    }

    /// The transitions an order's status may make: from new to open,
    /// rejected or filled; from open to partially filled, filled or
    /// cancelled; from partially filled to filled or cancelled. A
    /// partially filled order may be filled further and stay so, and an
    /// order cancelled on arrival goes from new to cancelled.
    pub open spec fn spec_may_become(self, next: OrderStatus) -> bool {
        match self {
            OrderStatus::New => next == OrderStatus::Open || next == OrderStatus::Rejected || next
                == OrderStatus::Filled || next == OrderStatus::PartiallyFilled || next
                == OrderStatus::Cancelled,
            OrderStatus::Open => next == OrderStatus::PartiallyFilled || next
                == OrderStatus::Filled || next == OrderStatus::Cancelled || next
                == OrderStatus::Open,
            OrderStatus::PartiallyFilled => next == OrderStatus::PartiallyFilled || next
                == OrderStatus::Filled || next == OrderStatus::Cancelled,
            _ => false,
        }
    }

    #[verifier::when_used_as_spec(spec_may_become)]
    pub fn may_become(self, next: OrderStatus) -> (b: bool)
        ensures
            b == self.spec_may_become(next),
    {
        match self {
            OrderStatus::New => match next {
                OrderStatus::New => false,
                _ => true,
            },
            OrderStatus::Open => match next {
                OrderStatus::PartiallyFilled | OrderStatus::Filled | OrderStatus::Cancelled
                | OrderStatus::Open => true,
                _ => false,
            },
            OrderStatus::PartiallyFilled => match next {
                OrderStatus::PartiallyFilled | OrderStatus::Filled | OrderStatus::Cancelled => true,
                _ => false,
            },
            _ => false,
        }
    }
}

/// A trade: one fill of an incoming order against a resting one.
#[derive(Debug)]
pub struct Trade {
    /// The trade's identifier: its execution sequence number.
    pub id: u128,
    /// The resting (maker) order.
    pub order_id: u128,
    /// The incoming (taker) order.
    pub taker_order_id: u128,
    pub symbol: String,
    /// The side of the taker.
    pub side: OrderSide,
    pub quantity: Decimal,
    /// The maker's limit price.
    pub price: Decimal,
    /// The engine sequence at which the trade was made.
    pub executed_at: u64,
}

impl Clone for Trade {
    fn clone(&self) -> (r: Trade)
        ensures
            r == *self,
    {
        Trade {
            id: self.id,
            order_id: self.order_id,
            taker_order_id: self.taker_order_id,
            symbol: self.symbol.clone(),
            side: self.side,
            quantity: self.quantity,
            price: self.price,
            executed_at: self.executed_at,
        }
    }
}

/// What a client sends to place an order.
#[derive(Clone, Debug)]
pub struct CreateOrderRequest {
    pub symbol: String,
    pub side: OrderSide,
    pub quantity: Decimal,
    pub price: Decimal,
    pub order_type: OrderType,
}

impl CreateOrderRequest {
    /// The symbol has between 1 and 20 bytes.
    pub open spec fn symbol_ok(&self) -> bool {
        1 <= vstd::utf8::encode_utf8(self.symbol@).len() as usize <= 20
    }

    /// What is wrong with the request's shape, if anything: the symbol,
    /// then the quantity, then the price.
    pub open spec fn fault(&self) -> Option<Seq<char>> {
        if !self.symbol_ok() {
            Some("Symbol must be between 1 and 20 characters"@)
        } else if self.quantity@ <= 0 {
            Some("Quantity must be greater than 0"@)
        } else if self.price@ <= 0 {
            Some("Price must be greater than 0"@)
        } else {
            None
        }
    }

    /// Checks the request's shape: a symbol of 1 to 20 bytes, a quantity
    /// above zero, a price above zero. The first fault found is reported.
    pub fn validate(&self) -> (r: Result<(), String>)
        ensures
            r is Ok <==> self.fault() is None,
            r matches Err(m) ==> self.fault() == Some(m@),
    {
        let n: usize = self.symbol.as_str().len();
        if n == 0 || n > 20 {
            return Err("Symbol must be between 1 and 20 characters".to_owned());
        }
        if !self.quantity.is_positive() {
            return Err("Quantity must be greater than 0".to_owned());
        }
        if !self.price.is_positive() {
            return Err("Price must be greater than 0".to_owned());
        }
        Ok(())
    }
}

/// What a client sends to register.
#[derive(Clone, Debug)]
pub struct CreateUserRequest {
    pub email: String,
    pub password: String,
}

/// What a client sends to log in.
#[derive(Clone, Debug)]
pub struct LoginRequest {
    pub email: String,
    pub password: String,
}

/// The answer to a successful login.
#[derive(Clone, Debug)]
pub struct LoginResponse {
    pub token: String,
    pub user: User,
}

/// An order, as it is shown to its owner.
#[derive(Clone, Debug)]
pub struct OrderResponse {
    pub id: u128,
    pub symbol: String,
    pub side: OrderSide,
    pub quantity: Decimal,
    pub price: Decimal,
    pub order_type: OrderType,
    pub status: OrderStatus,
    pub filled_quantity: Decimal,
    pub created_at: u64,
}

impl OrderResponse {
    /// The order without its owner and its last-update sequence.
    pub open spec fn of(order: Order) -> OrderResponse {
        OrderResponse {
            id: order.id,
            symbol: order.symbol,
            side: order.side,
            quantity: order.quantity,
            price: order.price,
            order_type: order.order_type,
            status: order.status,
            filled_quantity: order.filled_quantity,
            created_at: order.created_at,
        }
    }

}

impl From<Order> for OrderResponse {
    /// What is shown of `order`.
    fn from(order: Order) -> (r: OrderResponse) {
        OrderResponse {
            id: order.id,
            symbol: order.symbol,
            side: order.side,
            quantity: order.quantity,
            price: order.price,
            order_type: order.order_type,
            status: order.status,
            filled_quantity: order.filled_quantity,
            created_at: order.created_at,
        }
    }
}

impl vstd::std_specs::convert::FromSpecImpl<Order> for OrderResponse {
    open spec fn obeys_from_spec() -> bool {
        true
    }

    open spec fn from_spec(order: Order) -> OrderResponse {
        OrderResponse::of(order)
    }
}

/// A trade, as it is shown to a party of it.
#[derive(Clone, Debug)]
pub struct TradeResponse {
    pub id: u128,
    pub symbol: String,
    pub quantity: Decimal,
    pub price: Decimal,
    pub executed_at: u64,
}

impl TradeResponse {
    /// The trade without its parties.
    pub open spec fn of(trade: Trade) -> TradeResponse {
        TradeResponse {
            id: trade.id,
            symbol: trade.symbol,
            quantity: trade.quantity,
            price: trade.price,
            executed_at: trade.executed_at,
        }
    }

}

impl From<Trade> for TradeResponse {
    /// What is shown of `trade`.
    fn from(trade: Trade) -> (r: TradeResponse) {
        TradeResponse {
            id: trade.id,
            symbol: trade.symbol,
            quantity: trade.quantity,
            price: trade.price,
            executed_at: trade.executed_at,
        }
    }
}

impl vstd::std_specs::convert::FromSpecImpl<Trade> for TradeResponse {
    open spec fn obeys_from_spec() -> bool {
        true
    }

    open spec fn from_spec(trade: Trade) -> TradeResponse {
        TradeResponse::of(trade)
    }
}

/// One price level of a depth snapshot.
#[derive(Clone, Copy, Debug)]
pub struct OrderBookEntry {
    pub price: Decimal,
    /// The level's aggregate open quantity.
    pub quantity: Decimal,
    /// How many orders rest at the level.
    pub order_count: usize,
    /// The engine sequence at which the snapshot was taken.
    pub sequence: u64,
}

/// A depth snapshot: the best levels of each side, best first.
#[derive(Debug)]
pub struct OrderBook {
    pub symbol: String,
    pub bids: Vec<OrderBookEntry>,
    pub asks: Vec<OrderBookEntry>,
    /// The engine sequence at which the snapshot was taken.
    pub last_updated: u64,
}

/// The best price and size of each side.
#[derive(Clone, Copy, Debug)]
pub struct TopOfBook {
    pub best_bid_price: Option<Decimal>,
    pub best_bid_size: Option<Decimal>,
    pub best_ask_price: Option<Decimal>,
    pub best_ask_size: Option<Decimal>,
    /// The engine sequence at which the snapshot was taken.
    pub sequence: u64,
}

/// A day's statistics of a symbol.
#[derive(Clone, Debug)]
pub struct MarketData {
    pub symbol: String,
    pub last_price: Decimal,
    pub volume_24h: Decimal,
    pub change_24h: Decimal,
    pub high_24h: Decimal,
    pub low_24h: Decimal,
}

/// A message pushed to subscribers; `data` is its payload as text.
#[derive(Clone, Debug)]
pub struct WebSocketMessage {
    pub message_type: String,
    pub data: String,
}

impl Default for TimeInForce {
    /// Good till cancelled, unless an order says otherwise.
    fn default() -> (r: TimeInForce)
        ensures
            r == TimeInForce::Gtc,
    {
        TimeInForce::Gtc
    }
}

impl Default for SelfTradePolicy {
    /// Self-trades are allowed, unless an engine or an order says
    /// otherwise.
    fn default() -> (r: SelfTradePolicy)
        ensures
            r == SelfTradePolicy::Allow,
    {
        SelfTradePolicy::Allow
    }
}

/// The kinds of message pushed to subscribers.
#[derive(Clone, Copy, Debug, PartialEq, Eq, Structural)]
pub enum WebSocketMessageType {
    OrderUpdate,
    TradeUpdate,
    MarketData,
    Error,
}

} // verus!
