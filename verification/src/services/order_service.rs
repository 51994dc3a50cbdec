//! The order service: it routes each command to the engine of its symbol
//! and keeps the latest known state of every order and the journal of
//! trades, both built from the engines' events.

use crate::errors::{AppError, RejectReason};
use crate::events::{trades_in, Event, Response, ResponseView};
use crate::handlers::orders::OrderQuery;
use crate::models::{
    CreateOrderRequest, Order, OrderResponse, OrderStatus, OrderType, SelfTradePolicy, TimeInForce,
    Trade, TradeResponse,
};
use crate::decimal::Decimal;
use crate::seqs::{
    first_where, lemma_first_where_is, lemma_first_where_range, lemma_newest_first_step,
    newest_first,
};
use crate::services::order_book_service::{
    cancelled, replaced, submitted, EngineModel, OrderBookService,
};
use vstd::prelude::*;

verus! {

/// A fresh random identifier.
///
/// This calls `uuid::Uuid::new_v4` and packs the identifier into an
/// integer with `Uuid::as_u128`. The contract claims what holds of every
/// version 4 identifier: the version bits are `0100` and the variant bits
/// are `10`. Nothing is claimed of the random bits. The call does not
/// return if the operating system has no random bytes to give.
#[verifier::external_body]
fn fresh_id() -> (id: u128)
    ensures
        id & 0x0000_0000_0000_f000_c000_0000_0000_0000
            == 0x0000_0000_0000_4000_8000_0000_0000_0000,
{
    uuid::Uuid::new_v4().as_u128()
}

/// The state of the service.
pub struct ServiceModel {
    /// The engines, one for each symbol.
    pub engines: Seq<EngineModel>,
    /// The latest known state of every order, in the order of their
    /// creation.
    pub orders: Seq<Order>,
    /// The journal of trades, in the order of their execution.
    pub trades: Seq<Trade>,
    /// The events not yet handed to the sink, in the order of their
    /// emission.
    pub outbox: Seq<Event>,
    /// The inbox length above which commands are turned away.
    pub high_water_mark: usize,
}

/// Whether an engine trades `symbol`.
pub open spec fn has_symbol(symbol: Seq<char>) -> spec_fn(EngineModel) -> bool {
    |e: EngineModel| e.symbol@ == symbol
}

/// Whether an order has the identifier `id`.
pub open spec fn has_id(id: u128) -> spec_fn(Order) -> bool {
    |o: Order| o.id == id
}

/// Whether the order `id` is a party of a trade, as maker or as taker.
pub open spec fn involves(id: u128) -> spec_fn(Trade) -> bool {
    |t: Trade| t.order_id == id || t.taker_order_id == id
}

/// Whether a query asks for an order: of the query's symbol, if it names
/// one, and in the query's status, if it names one.
pub open spec fn selects(query: OrderQuery) -> spec_fn(Order) -> bool {
    |o: Order|
        (query.symbol matches Some(symbol) ==> o.symbol@ == symbol@) && (query.status matches Some(
            status,
        ) ==> o.status.spec_name() == status@)
}

/// The orders after one event: a change of state is recorded on the first
/// order with the identifier; a trade changes no order.
pub open spec fn projected_one(orders: Seq<Order>, event: Event) -> Seq<Order> {
    match event {
        Event::OrderState { order_id, status, filled_quantity, sequence } => {
            let i = first_where(orders, has_id(order_id));
            if i < orders.len() {
                orders.update(i, orders[i].recorded(status, filled_quantity, sequence))
            } else {
                orders
            }
        },
        Event::Trade(_) => orders,
    }
}

/// The orders after `events`, applied in their order.
pub open spec fn projected(orders: Seq<Order>, events: Seq<Event>) -> Seq<Order>
    decreases events.len(),
{
    if events.len() == 0 {
        orders
    } else {
        projected_one(projected(orders, events.drop_last()), events.last())
    }
}

/// Events change the state of orders on file, never their number.
pub proof fn lemma_projected_len(orders: Seq<Order>, events: Seq<Event>)
    ensures
        projected(orders, events).len() == orders.len(),
    decreases events.len(),
{
    if events.len() > 0 {
        lemma_projected_len(orders, events.drop_last());
        lemma_first_where_range(
            projected(orders, events.drop_last()),
            has_id(
                match events.last() {
                    Event::OrderState { order_id, .. } => order_id,
                    _ => 0,
                },
            ),
        );
    }
}

/// Why the service turns a command away.
pub enum Fault {
    /// The request is not well shaped; the text says how.
    Shape(Seq<char>),
    /// An order with the identifier exists already.
    Duplicate,
    /// The engine, or the service in its place, refused the command.
    Refused(RejectReason),
}

impl Fault {
    /// The HTTP status of the fault.
    pub open spec fn status(self) -> u16 {
        match self {
            Fault::Shape(_) => 400,
            Fault::Duplicate => 409,
            Fault::Refused(reason) => reason.spec_status_code(),
        }
    }

    /// The fault in words.
    pub open spec fn message(self) -> Seq<char> {
        match self {
            Fault::Shape(text) => text,
            Fault::Duplicate => "Duplicate order id"@,
            Fault::Refused(reason) => reason.spec_message(),
        }
    }

    /// Whether `error` reports this fault.
    pub open spec fn reported_by(self, error: AppError) -> bool {
        error.spec_status_code() == self.status() && error.spec_message() == self.message()
    }
}

/// The order that a request creates, taken in at `sequence`.
pub open spec fn new_order(request: CreateOrderRequest, id: u128, user_id: u128, sequence: u64) -> Order {
    Order {
        id,
        user_id,
        symbol: request.symbol,
        side: request.side,
        quantity: request.quantity,
        price: request.price,
        order_type: request.order_type,
        status: OrderStatus::New,
        filled_quantity: Decimal::from_parts(0, 0),
        created_at: sequence,
        updated_at: sequence,
    }
}

/// Stop and stop-limit orders are parked: the service keeps them as new
/// and sends them to no engine until they are triggered from outside.
pub open spec fn parked(order_type: OrderType) -> bool {
    order_type == OrderType::Stop || order_type == OrderType::StopLimit
}

/// Why a request to create an order is turned away, if it is: its shape,
/// an identifier already in use, a symbol without an engine, or the
/// engine's own reason.
pub open spec fn create_fault(
    model: ServiceModel,
    request: CreateOrderRequest,
    id: u128,
    user_id: u128,
    tif: TimeInForce,
    stp: Option<SelfTradePolicy>,
) -> Option<Fault> {
    let k = first_where(model.engines, has_symbol(request.symbol@));
    if request.fault() is Some {
        Some(Fault::Shape(request.fault()->0))
    } else if first_where(model.orders, has_id(id)) < model.orders.len() {
        Some(Fault::Duplicate)
    } else if k == model.engines.len() {
        Some(Fault::Refused(RejectReason::UnknownSymbol))
    } else if parked(request.order_type) {
        None
    } else {
        match submitted(
            model.engines[k],
            new_order(request, id, user_id, model.engines[k].sequence),
            tif,
            stp,
        ).response {
            ResponseView::Rejected { reason } => Some(Fault::Refused(reason)),
            _ => None,
        }
    }
}

/// What creating an order makes of the service: nothing if the request is
/// turned away; a new order on file if it is parked; else the engine of
/// the symbol takes the order in, and the orders and trades on file follow
/// its events.
pub open spec fn created(
    model: ServiceModel,
    request: CreateOrderRequest,
    id: u128,
    user_id: u128,
    tif: TimeInForce,
    stp: Option<SelfTradePolicy>,
) -> ServiceModel {
    let k = first_where(model.engines, has_symbol(request.symbol@));
    let order = new_order(request, id, user_id, model.engines[k].sequence);
    if create_fault(model, request, id, user_id, tif, stp) is Some {
        model
    } else if parked(request.order_type) {
        ServiceModel { orders: model.orders.push(order), ..model }
    } else {
        let step = submitted(model.engines[k], order, tif, stp);
        ServiceModel {
            engines: model.engines.update(k, step.model),
            orders: projected(model.orders.push(order), step.events),
            trades: model.trades + trades_in(step.events),
            outbox: model.outbox + step.events,
            ..model
        }
    }
}

/// Why a request to cancel an order is turned away, if it is: no such
/// order, an order in a final state, or the engine's own reason.
pub open spec fn cancel_fault(model: ServiceModel, id: u128) -> Option<Fault> {
    let i = first_where(model.orders, has_id(id));
    let k = first_where(model.engines, has_symbol(model.orders[i].symbol@));
    if i == model.orders.len() {
        Some(Fault::Refused(RejectReason::NotFound))
    } else if model.orders[i].status.spec_is_terminal() {
        Some(Fault::Refused(RejectReason::NotCancellable))
    } else if model.orders[i].status == OrderStatus::New {
        None
    } else if k == model.engines.len() {
        Some(Fault::Refused(RejectReason::UnknownSymbol))
    } else {
        match cancelled(model.engines[k], model.orders[i]).response {
            ResponseView::Rejected { reason } => Some(Fault::Refused(reason)),
            _ => None,
        }
    }
}

/// What cancelling an order makes of the service: a parked order is marked
/// cancelled on file; a resting one is taken off its engine's book, and
/// the orders on file follow the engine's events.
pub open spec fn cancel_done(model: ServiceModel, id: u128) -> ServiceModel {
    let i = first_where(model.orders, has_id(id));
    let k = first_where(model.engines, has_symbol(model.orders[i].symbol@));
    if cancel_fault(model, id) is Some {
        model
    } else if model.orders[i].status == OrderStatus::New {
        ServiceModel {
            orders: model.orders.update(
                i,
                model.orders[i].recorded(
                    OrderStatus::Cancelled,
                    model.orders[i].filled_quantity,
                    model.orders[i].updated_at,
                ),
            ),
            ..model
        }
    } else {
        let step = cancelled(model.engines[k], model.orders[i]);
        ServiceModel {
            engines: model.engines.update(k, step.model),
            orders: projected(model.orders, step.events),
            trades: model.trades + trades_in(step.events),
            outbox: model.outbox + step.events,
            ..model
        }
    }
}

/// Whether the events of a replacement begin with the cancellation of
/// the order, which is when it comes back under a new identifier.
pub open spec fn took_new_place(events: Seq<Event>) -> bool {
    events.len() > 0 && (events[0] matches Event::OrderState { status, .. } && status
        == OrderStatus::Cancelled)
}

/// The order under which a replaced order comes back: a limit order of the
/// same owner, symbol and side, at the new price and quantity where they
/// are given.
pub open spec fn replacement(
    order: Order,
    new_price: Option<Decimal>,
    new_quantity: Option<Decimal>,
    new_id: u128,
    sequence: u64,
) -> Order {
    Order {
        id: new_id,
        user_id: order.user_id,
        symbol: order.symbol,
        side: order.side,
        quantity: match new_quantity {
            Some(q) => q,
            None => order.quantity,
        },
        price: match new_price {
            Some(p) => p,
            None => order.price,
        },
        order_type: OrderType::Limit,
        status: OrderStatus::New,
        filled_quantity: Decimal::from_parts(0, 0),
        created_at: sequence,
        updated_at: sequence,
    }
}

/// Why a request to replace an order is turned away, if it is: no such
/// order, an order in a final state, a new identifier already in use, or
/// the engine's own reason.
pub open spec fn replace_fault(
    model: ServiceModel,
    id: u128,
    new_price: Option<Decimal>,
    new_quantity: Option<Decimal>,
    new_id: u128,
) -> Option<Fault> {
    let i = first_where(model.orders, has_id(id));
    let k = first_where(model.engines, has_symbol(model.orders[i].symbol@));
    if i == model.orders.len() {
        Some(Fault::Refused(RejectReason::NotFound))
    } else if model.orders[i].status.spec_is_terminal() {
        Some(Fault::Refused(RejectReason::NotCancellable))
    } else if first_where(model.orders, has_id(new_id)) < model.orders.len() {
        Some(Fault::Duplicate)
    } else if k == model.engines.len() {
        Some(Fault::Refused(RejectReason::UnknownSymbol))
    } else {
        match replaced(model.engines[k], model.orders[i], new_price, new_quantity, new_id).response {
            ResponseView::Rejected { reason } => Some(Fault::Refused(reason)),
            _ => None,
        }
    }
}

/// What replacing an order makes of the service: the engine of the
/// order's symbol replaces it; where the order comes back under the new
/// identifier, that order goes on file; and the orders and trades on file
/// follow the engine's events.
pub open spec fn replace_done(
    model: ServiceModel,
    id: u128,
    new_price: Option<Decimal>,
    new_quantity: Option<Decimal>,
    new_id: u128,
) -> ServiceModel {
    let i = first_where(model.orders, has_id(id));
    let k = first_where(model.engines, has_symbol(model.orders[i].symbol@));
    if replace_fault(model, id, new_price, new_quantity, new_id) is Some {
        model
    } else {
        let step = replaced(model.engines[k], model.orders[i], new_price, new_quantity, new_id);
        let on_file = if took_new_place(step.events) {
            model.orders.push(
                replacement(
                    model.orders[i],
                    new_price,
                    new_quantity,
                    new_id,
                    model.engines[k].sequence,
                ),
            )
        } else {
            model.orders
        };
        ServiceModel {
            engines: model.engines.update(k, step.model),
            orders: projected(on_file, step.events),
            trades: model.trades + trades_in(step.events),
            outbox: model.outbox + step.events,
            ..model
        }
    }
}

/// The page of `all` that starts after `offset` entries and holds at most
/// `limit`: from the start without an offset, to the end without a limit.
pub open spec fn page<T>(all: Seq<T>, offset: Option<i64>, limit: Option<i64>) -> Seq<T> {
    let lo = match offset {
        Some(o) => if o < all.len() {
            o as int
        } else {
            all.len() as int
        },
        None => 0,
    };
    let hi = match limit {
        Some(l) => if lo + l < all.len() {
            lo + l
        } else {
            all.len() as int
        },
        None => all.len() as int,
    };
    all.subrange(lo, hi)
}

/// The order service.
#[derive(Debug)]
pub struct OrderService {
    engines: Vec<OrderBookService>,
    orders: Vec<Order>,
    trades: Vec<Trade>,
    outbox: Vec<Event>,
    high_water_mark: usize,
}

impl View for OrderService {
    type V = ServiceModel;

    closed spec fn view(&self) -> ServiceModel {
        ServiceModel {
            engines: Seq::new(self.engines@.len(), |i: int| self.engines@[i]@),
            orders: self.orders@,
            trades: self.trades@,
            outbox: self.outbox@,
            high_water_mark: self.high_water_mark,
        }
    }
}

impl OrderService {
    /// Every engine is well formed.
    pub closed spec fn wf(&self) -> bool {
        forall|i: int| 0 <= i < self.engines@.len() ==> (#[trigger] self.engines@[i]).wf()
    }

    /// A service with one engine, nothing on file, and an inbox that is
    /// never too long.
    pub fn new(order_book: OrderBookService) -> (service: OrderService)
        requires
            order_book.wf(),
        ensures
            service.wf(),
            service@ == (ServiceModel {
                engines: seq![order_book@],
                orders: Seq::empty(),
                trades: Seq::empty(),
                outbox: Seq::empty(),
                high_water_mark: usize::MAX,
            }),
    {
        let mut engines: Vec<OrderBookService> = Vec::new();
        engines.push(order_book);
        let service = OrderService {
            engines,
            orders: Vec::new(),
            trades: Vec::new(),
            outbox: Vec::new(),
            high_water_mark: usize::MAX,
        };
        proof {
            assert(service@.engines =~= seq![order_book@]);
        }
        service
    }

    /// Adds the engine of one more symbol. Commands for a symbol go to the
    /// first engine added for it.
    pub fn add_engine(&mut self, order_book: OrderBookService)
        requires
            old(self).wf(),
            order_book.wf(),
        ensures
            final(self).wf(),
            final(self)@ == (ServiceModel {
                engines: old(self)@.engines.push(order_book@),
                ..old(self)@
            }),
    {
        self.engines.push(order_book);
        proof {
            assert(self@.engines =~= old(self)@.engines.push(order_book@));
        }
    }

    /// Sets the inbox length above which commands are turned away.
    pub fn set_high_water_mark(&mut self, mark: usize)
        requires
            old(self).wf(),
        ensures
            final(self).wf(),
            final(self)@ == (ServiceModel { high_water_mark: mark, ..old(self)@ }),
    {
        self.high_water_mark = mark;
        proof {
            assert(self@.engines =~= old(self)@.engines);
        }
    }

    /// Admission to the inbox: a command is turned away as overloaded when
    /// `inbox_len` commands wait already and that is above the high-water
    /// mark.
    pub fn check_capacity(&self, inbox_len: usize) -> (r: Result<(), AppError>)
        ensures
            r is Ok <==> inbox_len <= self@.high_water_mark,
            r matches Err(e) ==> Fault::Refused(RejectReason::Overloaded).reported_by(e),
    {
        if inbox_len > self.high_water_mark {
            Err(AppError::from_reject(RejectReason::Overloaded))
        } else {
            Ok(())
        }
    }

    /// Whether every engine still takes commands.
    pub fn is_healthy(&self) -> (b: bool)
        ensures
            b == forall|i: int| 0 <= i < self@.engines.len() ==> !(#[trigger] self@.engines[i]).halted,
    {
        let mut k: usize = 0;
        while k < self.engines.len()
            invariant
                k <= self.engines@.len(),
                self@.engines.len() == self.engines@.len(),
                forall|i: int| 0 <= i < k ==> !(#[trigger] self@.engines[i]).halted,
            decreases self.engines@.len() - k,
        {
            if !self.engines[k].is_healthy() {
                proof {
                    assert(self@.engines[k as int].halted);
                }
                return false;
            }
            k = k + 1;
        }
        true
    }

    /// Stops every engine after a fatal fault, such as a sink that keeps
    /// failing: from now on every command is refused.
    pub fn halt(&mut self)
        requires
            old(self).wf(),
        ensures
            final(self).wf(),
            final(self)@ == (ServiceModel {
                engines: Seq::new(
                    old(self)@.engines.len(),
                    |i: int| EngineModel { halted: true, ..old(self)@.engines[i] },
                ),
                ..old(self)@
            }),
    {
        let mut k: usize = 0;
        while k < self.engines.len()
            invariant
                k <= self.engines@.len(),
                self.wf(),
                self.engines@.len() == old(self).engines@.len(),
                self.orders == old(self).orders,
                self.trades == old(self).trades,
                self.outbox == old(self).outbox,
                self.high_water_mark == old(self).high_water_mark,
                forall|i: int|
                    0 <= i < k ==> (#[trigger] self.engines@[i])@ == (EngineModel {
                        halted: true,
                        ..old(self).engines@[i]@
                    }),
                forall|i: int|
                    k <= i < self.engines@.len() ==> (#[trigger] self.engines@[i]) == old(
                        self,
                    ).engines@[i],
            decreases self.engines@.len() - k,
        {
            self.engines[k].halt();
            k = k + 1;
        }
        proof {
            assert(self@.engines =~= Seq::new(
                old(self)@.engines.len(),
                |i: int| EngineModel { halted: true, ..old(self)@.engines[i] },
            ));
        }
    }

    /// Hands over the events that wait for the sink, oldest first, and
    /// keeps none of them.
    pub fn take_events(&mut self) -> (events: Vec<Event>)
        requires
            old(self).wf(),
        ensures
            final(self).wf(),
            events@ == old(self)@.outbox,
            final(self)@ == (ServiceModel { outbox: Seq::empty(), ..old(self)@ }),
    {
        let mut events: Vec<Event> = Vec::new();
        std::mem::swap(&mut events, &mut self.outbox);
        proof {
            assert(self@.engines =~= old(self)@.engines);
        }
        events
    }

    /// The engine of `symbol`, for snapshots of its book.
    pub fn engine(&self, symbol: &String) -> (r: Option<&OrderBookService>)
        requires
            self.wf(),
        ensures
            r is Some <==> first_where(self@.engines, has_symbol(symbol@)) < self@.engines.len(),
            r matches Some(e) ==> e@ == self@.engines[first_where(
                self@.engines,
                has_symbol(symbol@),
            )] && e.wf(),
    {
        match self.find_engine(symbol) {
            Some(k) => Some(&self.engines[k]),
            None => None,
        }
    }

    /// The place of the engine of `symbol`.
    fn find_engine(&self, symbol: &String) -> (r: Option<usize>)
        ensures
            r is Some <==> first_where(self@.engines, has_symbol(symbol@)) < self@.engines.len(),
            r matches Some(k) ==> k == first_where(self@.engines, has_symbol(symbol@)),
            self@.engines.len() == self.engines@.len(),
            first_where(self@.engines, has_symbol(symbol@)) <= self@.engines.len(),
    {
        proof {
            lemma_first_where_range(self@.engines, has_symbol(symbol@));
        }
        let mut k: usize = 0;
        while k < self.engines.len()
            invariant
                k <= self.engines@.len(),
                self@.engines.len() == self.engines@.len(),
                forall|j: int| 0 <= j < k ==> !has_symbol(symbol@)(#[trigger] self@.engines[j]),
            decreases self.engines@.len() - k,
        {
            if *self.engines[k].symbol() == *symbol {
                proof {
                    lemma_first_where_is(self@.engines, has_symbol(symbol@), k as int);
                }
                return Some(k);
            }
            k = k + 1;
        }
        proof {
            lemma_first_where_is(self@.engines, has_symbol(symbol@), k as int);
        }
        None
    }

    /// The place of the first order on file with identifier `id`.
    fn find_order(&self, id: u128) -> (r: Option<usize>)
        ensures
            r is Some <==> first_where(self@.orders, has_id(id)) < self@.orders.len(),
            r matches Some(i) ==> i == first_where(self@.orders, has_id(id)),
            first_where(self@.orders, has_id(id)) <= self@.orders.len(),
    {
        proof {
            lemma_first_where_range(self@.orders, has_id(id));
        }
        let mut i: usize = 0;
        while i < self.orders.len()
            invariant
                i <= self.orders@.len(),
                forall|j: int| 0 <= j < i ==> !has_id(id)(#[trigger] self.orders@[j]),
            decreases self.orders@.len() - i,
        {
            if self.orders[i].id == id {
                proof {
                    lemma_first_where_is(self.orders@, has_id(id), i as int);
                }
                return Some(i);
            }
            i = i + 1;
        }
        proof {
            lemma_first_where_is(self.orders@, has_id(id), i as int);
        }
        None
    }

    /// Brings the orders and trades on file up to date with `events`.
    fn apply(&mut self, events: &Vec<Event>)
        requires
            old(self).wf(),
        ensures
            final(self).wf(),
            final(self)@ == (ServiceModel {
                orders: projected(old(self)@.orders, events@),
                trades: old(self)@.trades + trades_in(events@),
                outbox: old(self)@.outbox + events@,
                ..old(self)@
            }),
    {
        let mut k: usize = 0;
        proof {
            assert(events@.take(0) =~= Seq::<Event>::empty());
            assert(self.trades@ + Seq::<Trade>::empty() =~= self.trades@);
            assert(self.outbox@ + Seq::<Event>::empty() =~= self.outbox@);
        }
        while k < events.len()
            invariant
                k <= events@.len(),
                self.wf(),
                self.engines@ == old(self).engines@,
                self.high_water_mark == old(self).high_water_mark,
                self.orders@ == projected(old(self).orders@, events@.take(k as int)),
                self.trades@ == old(self).trades@ + trades_in(events@.take(k as int)),
                self.outbox@ == old(self).outbox@ + events@.take(k as int),
            decreases events@.len() - k,
        {
            proof {
                assert(events@.take(k + 1).drop_last() =~= events@.take(k as int));
                assert(events@.take(k + 1).last() == events@[k as int]);
            }
            self.outbox.push(events[k].clone());
            proof {
                assert(self.outbox@ =~= old(self).outbox@ + events@.take(k + 1));
            }
            match &events[k] {
                Event::Trade(trade) => {
                    self.trades.push(trade.clone());
                    proof {
                        assert(self.trades@ =~= old(self).trades@ + trades_in(
                            events@.take(k + 1),
                        ));
                    }
                },
                Event::OrderState { order_id, status, filled_quantity, sequence } => {
                    match self.find_order(*order_id) {
                        Some(i) => {
                            self.orders[i].record(*status, *filled_quantity, *sequence);
                        },
                        None => {},
                    }
                },
            }
            k = k + 1;
        }
        proof {
            assert(events@.take(k as int) =~= events@);
            assert(self@.engines =~= old(self)@.engines);
        }
    }

    /// Nothing stands in the way of an order that is well shaped. The
    /// engine of its symbol checks the rest.
    fn validate_order(&self, request: &CreateOrderRequest) -> (r: Result<(), AppError>)
        ensures
            r is Ok <==> request.fault() is None,
            r matches Err(e) ==> Fault::Shape(request.fault()->0).reported_by(e),
    {
        match request.validate() {
            Ok(()) => Ok(()),
            Err(message) => Err(AppError::Validation(message)),
        }
    }

    /// Creates an order under a fresh random identifier, for a fresh
    /// account, good till cancelled and with the engine's self-trade
    /// policy.
    pub fn create_order(&mut self, request: CreateOrderRequest) -> (r: Result<
        OrderResponse,
        AppError,
    >)
        requires
            old(self).wf(),
        ensures
            final(self).wf(),
            exists|id: u128, user_id: u128|
                {
                    &&& id & 0x0000_0000_0000_f000_c000_0000_0000_0000
                        == 0x0000_0000_0000_4000_8000_0000_0000_0000
                    &&& user_id & 0x0000_0000_0000_f000_c000_0000_0000_0000
                        == 0x0000_0000_0000_4000_8000_0000_0000_0000
                    &&& #[trigger] created(
                        old(self)@,
                        request,
                        id,
                        user_id,
                        TimeInForce::Gtc,
                        None,
                    ) == final(self)@
                    &&& r is Err <==> create_fault(
                        old(self)@,
                        request,
                        id,
                        user_id,
                        TimeInForce::Gtc,
                        None,
                    ) is Some
                    &&& r matches Err(e) ==> create_fault(
                        old(self)@,
                        request,
                        id,
                        user_id,
                        TimeInForce::Gtc,
                        None,
                    )->0.reported_by(e)
                    &&& r matches Ok(response) ==> response.id == id && response
                        == OrderResponse::of(final(self)@.orders[old(self)@.orders.len() as int])
                },
    {
        let id: u128 = fresh_id();
        let user_id: u128 = fresh_id();
        self.create_order_with(request, id, user_id, TimeInForce::Gtc, None)
    }

    /// Creates an order under the identifier `id` for the account
    /// `user_id`.
    pub fn create_order_with(
        &mut self,
        request: CreateOrderRequest,
        id: u128,
        user_id: u128,
        tif: TimeInForce,
        stp: Option<SelfTradePolicy>,
    ) -> (r: Result<OrderResponse, AppError>)
        requires
            old(self).wf(),
        ensures
            final(self).wf(),
            final(self)@ == created(old(self)@, request, id, user_id, tif, stp),
            r is Err <==> create_fault(old(self)@, request, id, user_id, tif, stp) is Some,
            r matches Err(e) ==> create_fault(
                old(self)@,
                request,
                id,
                user_id,
                tif,
                stp,
            )->0.reported_by(e),
            r matches Ok(response) ==> response == OrderResponse::of(
                final(self)@.orders[old(self)@.orders.len() as int],
            ) && response.id == id && final(self)@.orders.len() == old(self)@.orders.len() + 1
                && final(self)@.orders[old(self)@.orders.len() as int].user_id == user_id,
    {
        match self.validate_order(&request) {
            Ok(()) => {},
            Err(e) => {
                return Err(e);
            },
        }
        if self.find_order(id).is_some() {
            return Err(AppError::Conflict("Duplicate order id".to_owned()));
        }
        let k: usize = match self.find_engine(&request.symbol) {
            Some(k) => k,
            None => {
                return Err(AppError::from_reject(RejectReason::UnknownSymbol));
            },
        };
        let sequence: u64 = self.engines[k].sequence();
        let is_parked: bool = match request.order_type {
            OrderType::Stop | OrderType::StopLimit => true,
            _ => false,
        };
        let order = Order {
            id,
            user_id,
            symbol: request.symbol,
            side: request.side,
            quantity: request.quantity,
            price: request.price,
            order_type: request.order_type,
            status: OrderStatus::New,
            filled_quantity: Decimal::zero(),
            created_at: sequence,
            updated_at: sequence,
        };
        let n: usize = self.orders.len();
        if is_parked {
            let response = OrderResponse::from(order.clone());
            self.orders.push(order);
            proof {
                assert(self@.engines =~= old(self)@.engines);
            }
            return Ok(response);
        }
        let outcome = self.engines[k].add_order(&order, tif, stp);
        proof {
            assert(self@.engines =~= old(self)@.engines.update(
                k as int,
                submitted(old(self)@.engines[k as int], order, tif, stp).model,
            ));
        }
        match outcome.response {
            Response::Rejected { reason } => {
                proof {
                    assert(self@.engines =~= old(self)@.engines);
                }
                return Err(AppError::from_reject(reason));
            },
            _ => {},
        }
        self.orders.push(order);
        let ghost pushed = self@;
        self.apply(&outcome.events);
        proof {
            lemma_projected_len(pushed.orders, outcome.events@);
            lemma_projected_keeps(pushed.orders, outcome.events@, n as int);
        }
        Ok(OrderResponse::from(self.orders[n].clone()))
    }

    /// The latest known state of the order `order_id`.
    pub fn get_order(&self, order_id: u128) -> (r: Result<OrderResponse, AppError>)
        ensures
            r is Ok <==> first_where(self@.orders, has_id(order_id)) < self@.orders.len(),
            r matches Ok(response) ==> response == OrderResponse::of(
                self@.orders[first_where(self@.orders, has_id(order_id))],
            ),
            r matches Err(e) ==> Fault::Refused(RejectReason::NotFound).reported_by(e),
    {
        match self.find_order(order_id) {
            Some(i) => Ok(OrderResponse::from(self.orders[i].clone())),
            None => Err(AppError::from_reject(RejectReason::NotFound)),
        }
    }

    /// Whether `query` asks for `order`.
    fn asks_for(query: &OrderQuery, order: &Order) -> (b: bool)
        ensures
            b == selects(*query)(*order),
    {
        let symbol_ok: bool = match &query.symbol {
            Some(symbol) => order.symbol == *symbol,
            None => true,
        };
        let status_ok: bool = match &query.status {
            Some(status) => order.status.name().to_owned() == *status,
            None => true,
        };
        symbol_ok && status_ok
    }

    /// The orders that `query` asks for, newest first: after `offset` of
    /// them, at most `limit`. A negative offset or limit is a bad request.
    pub fn get_orders(&self, query: &OrderQuery) -> (r: Result<Vec<OrderResponse>, AppError>)
        ensures
            r is Err <==> (query.limit matches Some(l) && l < 0) || (query.offset matches Some(o)
                && o < 0),
            r matches Err(e) ==> e is BadRequest,
            r matches Ok(list) ==> list@ == page(
                newest_first(self@.orders, selects(*query)),
                query.offset,
                query.limit,
            ).map_values(|o: Order| OrderResponse::of(o)),
    {
        let offset: u64 = match query.offset {
            Some(o) => {
                if o < 0 {
                    return Err(AppError::BadRequest("Offset must not be negative".to_owned()));
                }
                o as u64
            },
            None => 0,
        };
        let limit: Option<u64> = match query.limit {
            Some(l) => {
                if l < 0 {
                    return Err(AppError::BadRequest("Limit must not be negative".to_owned()));
                }
                Some(l as u64)
            },
            None => None,
        };
        let ghost keep = selects(*query);
        let ghost show = |o: Order| OrderResponse::of(o);
        let mut out: Vec<OrderResponse> = Vec::new();
        let mut seen: u64 = 0;
        let total: usize = self.orders.len();
        let mut i: usize = total;
        proof {
            assert(self.orders@.skip(i as int) =~= Seq::<Order>::empty());
        }
        while i > 0
            invariant
                i <= total,
                total == self.orders@.len(),
                keep == selects(*query),
                show == |o: Order| OrderResponse::of(o),
                offset == match query.offset {
                    Some(o) => o as u64,
                    None => 0,
                },
                query.offset matches Some(o) ==> o >= 0,
                query.limit matches Some(l) ==> l >= 0 && limit == Some(l as u64),
                query.limit is None ==> limit is None,
                seen == newest_first(self.orders@.skip(i as int), keep).len(),
                seen <= total - i,
                out@ == page(
                    newest_first(self.orders@.skip(i as int), keep),
                    query.offset,
                    query.limit,
                ).map_values(show),
            decreases i,
        {
            i = i - 1;
            let ghost before = newest_first(self.orders@.skip(i + 1), keep);
            proof {
                lemma_newest_first_step(self.orders@, keep, i as int);
            }
            if Self::asks_for(query, &self.orders[i]) {
                let room: bool = match limit {
                    Some(l) => (out.len() as u64) < l,
                    None => true,
                };
                if seen >= offset && room {
                    out.push(OrderResponse::from(self.orders[i].clone()));
                }
                seen = seen + 1;
                proof {
                    let after = before.push(self.orders@[i as int]);
                    assert(out@ =~= page(after, query.offset, query.limit).map_values(show));
                }
            }
        }
        proof {
            assert(self.orders@.skip(0) =~= self.orders@);
        }
        Ok(out)
    }

    /// Cancels the order `order_id`.
    pub fn cancel_order(&mut self, order_id: u128) -> (r: Result<OrderResponse, AppError>)
        requires
            old(self).wf(),
        ensures
            final(self).wf(),
            final(self)@ == cancel_done(old(self)@, order_id),
            r is Err <==> cancel_fault(old(self)@, order_id) is Some,
            r matches Err(e) ==> cancel_fault(old(self)@, order_id)->0.reported_by(e),
            r matches Ok(response) ==> response == OrderResponse::of(
                final(self)@.orders[first_where(old(self)@.orders, has_id(order_id))],
            ),
    {
        let i: usize = match self.find_order(order_id) {
            Some(i) => i,
            None => {
                return Err(AppError::from_reject(RejectReason::NotFound));
            },
        };
        if self.orders[i].status.is_terminal() {
            return Err(AppError::from_reject(RejectReason::NotCancellable));
        }
        let is_new: bool = match self.orders[i].status {
            OrderStatus::New => true,
            _ => false,
        };
        if is_new {
            let filled = self.orders[i].filled_quantity;
            let at: u64 = self.orders[i].updated_at;
            self.orders[i].record(OrderStatus::Cancelled, filled, at);
            proof {
                assert(self@.engines =~= old(self)@.engines);
            }
            return Ok(OrderResponse::from(self.orders[i].clone()));
        }
        let k: usize = match self.find_engine(&self.orders[i].symbol) {
            Some(k) => k,
            None => {
                return Err(AppError::from_reject(RejectReason::UnknownSymbol));
            },
        };
        let order = self.orders[i].clone();
        let outcome = self.engines[k].remove_order(&order);
        proof {
            assert(self@.engines =~= old(self)@.engines.update(
                k as int,
                cancelled(old(self)@.engines[k as int], order).model,
            ));
        }
        match outcome.response {
            Response::Rejected { reason } => {
                proof {
                    assert(self@.engines =~= old(self)@.engines);
                }
                return Err(AppError::from_reject(reason));
            },
            _ => {},
        }
        self.apply(&outcome.events);
        proof {
            lemma_projected_len(old(self)@.orders, outcome.events@);
        }
        Ok(OrderResponse::from(self.orders[i].clone()))
    }

    /// Replaces the order `order_id` under a fresh random identifier.
    pub fn replace_order(
        &mut self,
        order_id: u128,
        new_price: Option<Decimal>,
        new_quantity: Option<Decimal>,
    ) -> (r: Result<OrderResponse, AppError>)
        requires
            old(self).wf(),
        ensures
            final(self).wf(),
            r is Err ==> final(self)@ == old(self)@,
            exists|new_id: u128|
                {
                    &&& new_id & 0x0000_0000_0000_f000_c000_0000_0000_0000
                        == 0x0000_0000_0000_4000_8000_0000_0000_0000
                    &&& #[trigger] replace_done(
                        old(self)@,
                        order_id,
                        new_price,
                        new_quantity,
                        new_id,
                    ) == final(self)@
                    &&& r is Err <==> replace_fault(
                        old(self)@,
                        order_id,
                        new_price,
                        new_quantity,
                        new_id,
                    ) is Some
                    &&& r matches Err(e) ==> replace_fault(
                        old(self)@,
                        order_id,
                        new_price,
                        new_quantity,
                        new_id,
                    )->0.reported_by(e)
                },
    {
        let new_id: u128 = fresh_id();
        self.replace_order_with(order_id, new_price, new_quantity, new_id)
    }

    /// Changes the price or the quantity of the order `order_id`. Where
    /// the order loses its place in the queue it comes back under `new_id`,
    /// and the answer shows that order; else it shows the order as changed.
    pub fn replace_order_with(
        &mut self,
        order_id: u128,
        new_price: Option<Decimal>,
        new_quantity: Option<Decimal>,
        new_id: u128,
    ) -> (r: Result<OrderResponse, AppError>)
        requires
            old(self).wf(),
        ensures
            final(self).wf(),
            final(self)@ == replace_done(old(self)@, order_id, new_price, new_quantity, new_id),
            r is Err <==> replace_fault(old(self)@, order_id, new_price, new_quantity, new_id)
                is Some,
            r matches Err(e) ==> replace_fault(
                old(self)@,
                order_id,
                new_price,
                new_quantity,
                new_id,
            )->0.reported_by(e),
            r matches Ok(response) ==> response == OrderResponse::of(
                final(self)@.orders[if final(self)@.orders.len() > old(self)@.orders.len() {
                    old(self)@.orders.len() as int
                } else {
                    first_where(old(self)@.orders, has_id(order_id))
                }],
            ),
    {
        let i: usize = match self.find_order(order_id) {
            Some(i) => i,
            None => {
                return Err(AppError::from_reject(RejectReason::NotFound));
            },
        };
        if self.orders[i].status.is_terminal() {
            return Err(AppError::from_reject(RejectReason::NotCancellable));
        }
        if self.find_order(new_id).is_some() {
            return Err(AppError::Conflict("Duplicate order id".to_owned()));
        }
        let k: usize = match self.find_engine(&self.orders[i].symbol) {
            Some(k) => k,
            None => {
                return Err(AppError::from_reject(RejectReason::UnknownSymbol));
            },
        };
        let order = self.orders[i].clone();
        let sequence: u64 = self.engines[k].sequence();
        let outcome = self.engines[k].replace_order(&order, new_price, new_quantity, new_id);
        proof {
            assert(self@.engines =~= old(self)@.engines.update(
                k as int,
                replaced(
                    old(self)@.engines[k as int],
                    order,
                    new_price,
                    new_quantity,
                    new_id,
                ).model,
            ));
        }
        match outcome.response {
            Response::Rejected { reason } => {
                proof {
                    assert(self@.engines =~= old(self)@.engines);
                }
                return Err(AppError::from_reject(reason));
            },
            _ => {},
        }
        let moved: bool = outcome.events.len() > 0 && match &outcome.events[0] {
            Event::OrderState { status, .. } => match status {
                OrderStatus::Cancelled => true,
                _ => false,
            },
            _ => false,
        };
        let n: usize = self.orders.len();
        if moved {
            self.orders.push(
                Order {
                    id: new_id,
                    user_id: order.user_id,
                    symbol: order.symbol,
                    side: order.side,
                    quantity: match new_quantity {
                        Some(q) => q,
                        None => order.quantity,
                    },
                    price: match new_price {
                        Some(p) => p,
                        None => order.price,
                    },
                    order_type: OrderType::Limit,
                    status: OrderStatus::New,
                    filled_quantity: Decimal::zero(),
                    created_at: sequence,
                    updated_at: sequence,
                },
            );
        }
        let ghost on_file = self@.orders;
        self.apply(&outcome.events);
        proof {
            lemma_projected_len(on_file, outcome.events@);
        }
        let shown: usize = if moved {
            n
        } else {
            i
        };
        Ok(OrderResponse::from(self.orders[shown].clone()))
    }

    /// The trades that the order `order_id` was a party of, newest first.
    pub fn get_order_trades(&self, order_id: u128) -> (r: Result<Vec<TradeResponse>, AppError>)
        ensures
            r matches Ok(list) && list@ == newest_first(
                self@.trades,
                involves(order_id),
            ).map_values(|t: Trade| TradeResponse::of(t)),
    {
        let ghost keep = involves(order_id);
        let ghost show = |t: Trade| TradeResponse::of(t);
        let mut out: Vec<TradeResponse> = Vec::new();
        let mut i: usize = self.trades.len();
        proof {
            assert(self.trades@.skip(i as int) =~= Seq::<Trade>::empty());
            assert(out@ =~= newest_first(self.trades@.skip(i as int), keep).map_values(show));
        }
        while i > 0
            invariant
                i <= self.trades@.len(),
                keep == involves(order_id),
                show == |t: Trade| TradeResponse::of(t),
                out@ == newest_first(self.trades@.skip(i as int), keep).map_values(show),
            decreases i,
        {
            i = i - 1;
            proof {
                lemma_newest_first_step(self.trades@, keep, i as int);
            }
            if self.trades[i].order_id == order_id || self.trades[i].taker_order_id == order_id {
                out.push(TradeResponse::from(self.trades[i].clone()));
                proof {
                    assert(out@ =~= newest_first(self.trades@.skip(i as int), keep).map_values(
                        show,
                    ));
                }
            }
        }
        proof {
            assert(self.trades@.skip(0) =~= self.trades@);
        }
        Ok(out)
    }
}

/// Events change neither the number of the orders on file nor the
/// identifier, the owner or the symbol of any of them.
pub proof fn lemma_projected_keeps(orders: Seq<Order>, events: Seq<Event>, n: int)
    requires
        0 <= n < orders.len(),
    ensures
        projected(orders, events).len() == orders.len(),
        projected(orders, events)[n].id == orders[n].id,
        projected(orders, events)[n].user_id == orders[n].user_id,
        projected(orders, events)[n].symbol == orders[n].symbol,
    decreases events.len(),
{
    if events.len() > 0 {
        lemma_projected_keeps(orders, events.drop_last(), n);
        lemma_first_where_range(
            projected(orders, events.drop_last()),
            has_id(
                match events.last() {
                    Event::OrderState { order_id, .. } => order_id,
                    _ => 0,
                },
            ),
        );
    }
}

} // verus!
