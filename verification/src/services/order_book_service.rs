//! The matching engine of one symbol.
//!
//! `EngineModel` is the engine's state as contracts see it, and `submitted`,
//! `cancelled` and `replaced` say what each command makes of it: the next
//! state, the answer and the events, as functions of the state and the
//! command alone. `OrderBookService` holds the two half-books and is proved
//! to compute those functions.

use crate::decimal::Decimal;
use crate::errors::RejectReason;
use crate::events::{
    numbered_from, trades_in, CancelReason, Command, Event, Outcome, Response, ResponseView,
};
use crate::half_book::{
    all_before, book_ok, found, inserted, lemma_inserted, lemma_rank_range, lemma_with_level,
    rank, reduced, removed, total_orders, HalfBook,
};
use crate::matching::{cross, lemma_cross_sound, match_against, Matched, Step, Taker};
use crate::models::{
    Order, OrderBook, OrderBookEntry, OrderSide, OrderStatus, OrderType, SelfTradePolicy,
    TimeInForce, TopOfBook, Trade,
};
use crate::price_level::{
    first_with_id, lemma_first_with_id_range, lemma_with_quantity_ok, lemma_without_ok, LevelView,
    RestingOrder,
    MAX_QUANTITY,
};
use crate::symbol::SymbolMeta;
use vstd::prelude::*;

verus! {

/// No bid is at or above an ask.
pub open spec fn uncrossed(bids: Seq<LevelView>, asks: Seq<LevelView>) -> bool {
    bids.len() > 0 && asks.len() > 0 ==> bids[0].price < asks[0].price
}

/// The state of an engine.
pub struct EngineModel {
    /// The symbol the engine trades.
    pub symbol: String,
    /// That symbol's description.
    pub meta: SymbolMeta,
    /// The self-trade policy for orders that name none.
    pub policy: SelfTradePolicy,
    /// The bids, highest price first.
    pub bids: Seq<LevelView>,
    /// The asks, lowest price first.
    pub asks: Seq<LevelView>,
    /// The sequence number of the latest event.
    pub sequence: u64,
    /// Whether the engine has stopped taking commands.
    pub halted: bool,
}

impl EngineModel {
    /// The levels of `side`.
    pub open spec fn book(self, side: OrderSide) -> Seq<LevelView> {
        match side {
            OrderSide::Buy => self.bids,
            OrderSide::Sell => self.asks,
        }
    }

    /// The state with `levels` as the levels of `side`.
    pub open spec fn with_book(self, side: OrderSide, levels: Seq<LevelView>) -> EngineModel {
        match side {
            OrderSide::Buy => EngineModel { bids: levels, ..self },
            OrderSide::Sell => EngineModel { asks: levels, ..self },
        }
    }

    /// What holds of the engine between commands: both sides are in order
    /// with no empty level, no resting order is newer than the latest
    /// event, and the book is not crossed.
    pub open spec fn ok(self) -> bool {
        &&& self.meta.wf()
        &&& book_ok(OrderSide::Buy, self.bids)
        &&& book_ok(OrderSide::Sell, self.asks)
        &&& all_before(self.bids, self.sequence + 1)
        &&& all_before(self.asks, self.sequence + 1)
        &&& uncrossed(self.bids, self.asks)
    }

    /// Whether the sequence counter can number `extra` events and then the
    /// events of an order that crosses against the other side of `side`:
    /// two for each order resting there, and one for the order itself.
    pub open spec fn has_room(self, side: OrderSide, extra: int) -> bool {
        self.sequence + extra + 2 * total_orders(self.book(side.spec_opposite())) + 1 <= u64::MAX
    }
}

/// What a command makes of a state.
pub struct Stepped {
    /// The state afterwards.
    pub model: EngineModel,
    /// The answer.
    pub response: ResponseView,
    /// The events, in the order of their emission.
    pub events: Seq<Event>,
}

/// The command is refused for `reason`: nothing changes and nothing is
/// emitted.
pub open spec fn refused(model: EngineModel, reason: RejectReason) -> Stepped {
    Stepped { model, response: ResponseView::Rejected { reason }, events: Seq::empty() }
}

/// The status of an order that rests on the book: open while nothing of
/// it is filled, partially filled after.
pub open spec fn resting_status(order: RestingOrder) -> OrderStatus {
    if order.filled == 0 {
        OrderStatus::Open
    } else {
        OrderStatus::PartiallyFilled
    }
}

/// The status that a step of a crossing leaves its maker in: filled when
/// all it had open traded, partially filled when less did, cancelled when
/// it was taken off the book to prevent a self-trade.
pub open spec fn step_status(step: Step) -> OrderStatus {
    match step {
        Step::Fill { maker, quantity, .. } => if quantity == maker.open_quantity() {
            OrderStatus::Filled
        } else {
            OrderStatus::PartiallyFilled
        },
        Step::MakerCancelled { .. } => OrderStatus::Cancelled,
    }
}

/// Status transitions. A step of a crossing moves its maker along the
/// transitions that a status may make: from open or partially filled to
/// partially filled, filled or cancelled. The maker is filled by no more
/// than its quantity, and it leaves the book just when its new status is
/// final.
pub proof fn lemma_step_status(step: Step)
    requires
        step.ok(),
    ensures
        resting_status(step.maker()).spec_may_become(step_status(step)),
        step.maker().filled + step.traded() <= step.maker().quantity,
        step.removes() <==> step_status(step).spec_is_terminal(),
{
}

/// The events of one step of a crossing, numbered from `next`: for a fill
/// the trade and the maker's new state, for a cancellation the maker's.
pub open spec fn step_events(
    symbol: String,
    meta: SymbolMeta,
    taker: Taker,
    step: Step,
    next: u64,
) -> Seq<Event> {
    match step {
        Step::Fill { maker, price, quantity } => seq![
            Event::Trade(
                Trade {
                    id: next as u128,
                    order_id: maker.id,
                    taker_order_id: taker.id,
                    symbol,
                    side: taker.side,
                    quantity: meta.quantity_of(quantity as u128),
                    price: meta.price_of(price),
                    executed_at: next,
                },
            ),
            Event::OrderState {
                order_id: maker.id,
                status: step_status(step),
                filled_quantity: meta.quantity_of((maker.filled + quantity) as u128),
                sequence: (next + 1) as u64,
            },
        ],
        Step::MakerCancelled { maker, .. } => seq![
            Event::OrderState {
                order_id: maker.id,
                status: step_status(step),
                filled_quantity: meta.quantity_of(maker.filled as u128),
                sequence: next,
            },
        ],
    }
}

/// The events of the steps of a crossing, numbered from `first`.
pub open spec fn steps_events(
    symbol: String,
    meta: SymbolMeta,
    taker: Taker,
    steps: Seq<Step>,
    first: u64,
) -> Seq<Event>
    decreases steps.len(),
{
    if steps.len() == 0 {
        Seq::empty()
    } else {
        let before = steps_events(symbol, meta, taker, steps.drop_last(), first);
        before + step_events(symbol, meta, taker, steps.last(), (first + before.len()) as u64)
    }
}

/// What placing an order that passed validation makes of a state.
///
/// The order crosses against the other side. A fill-or-kill order that
/// would not be filled whole is refused. What is left of a limit order
/// rests on its own side, unless it is immediate-or-cancel or self-trade
/// prevention stopped it; what is left of a market order is cancelled. The
/// events are those of the crossing and then the order's own state. The
/// answer is `Accepted` with the fills, except that an order of which
/// nothing traded is answered as `Cancelled` where self-trade prevention
/// stopped it or where it is a market order.
pub open spec fn placed(model: EngineModel, taker: Taker, quantity: u64, tif: TimeInForce) -> Stepped {
    let out = cross(model.book(taker.side.spec_opposite()), taker, quantity);
    if tif == TimeInForce::Fok && out.remaining > 0 {
        refused(model, RejectReason::TifUnfillable)
    } else {
        let crossing = steps_events(
            model.symbol,
            model.meta,
            taker,
            out.steps,
            (model.sequence + 1) as u64,
        );
        let last = (model.sequence + 1 + crossing.len()) as u64;
        let filled = (quantity - out.remaining) as u64;
        let rests = out.remaining > 0 && taker.limit is Some && !out.stopped && tif
            != TimeInForce::Ioc;
        let status = if out.remaining == 0 {
            OrderStatus::Filled
        } else if !rests {
            OrderStatus::Cancelled
        } else if filled == 0 {
            OrderStatus::Open
        } else {
            OrderStatus::PartiallyFilled
        };
        let own = if rests {
            inserted(
                taker.side,
                model.book(taker.side),
                taker.limit->0,
                RestingOrder {
                    id: taker.id,
                    account: taker.account,
                    quantity,
                    filled,
                    sequence: last,
                },
            )
        } else {
            model.book(taker.side)
        };
        let response = if filled == 0 && out.stopped {
            ResponseView::Cancelled { order_id: taker.id, reason: CancelReason::SelfTrade }
        } else if filled == 0 && taker.limit is None {
            ResponseView::Cancelled { order_id: taker.id, reason: CancelReason::Unfillable }
        } else {
            ResponseView::Accepted {
                resting_id: if rests {
                    Some(taker.id)
                } else {
                    None
                },
                fills: trades_in(crossing),
            }
        };
        Stepped {
            model: EngineModel {
                sequence: last,
                ..model.with_book(taker.side.spec_opposite(), out.levels).with_book(
                    taker.side,
                    own,
                )
            },
            response,
            events: crossing.push(
                Event::OrderState {
                    order_id: taker.id,
                    status,
                    filled_quantity: model.meta.quantity_of(filled as u128),
                    sequence: last,
                },
            ),
        }
    }
}

/// Why an order is refused before it is placed, if it is: the engine has
/// halted, the symbol is not the engine's, the type is neither market nor
/// limit, the limit price or the quantity is not valid, or the sequence
/// counter has no room. The first fault in this order is the reason.
pub open spec fn submit_fault(model: EngineModel, order: Order) -> Option<RejectReason> {
    if model.halted {
        Some(RejectReason::EngineHalted)
    } else if order.symbol@ != model.symbol@ {
        Some(RejectReason::UnknownSymbol)
    } else if order.order_type != OrderType::Market && order.order_type != OrderType::Limit {
        Some(RejectReason::UnsupportedOrderType)
    } else if order.order_type == OrderType::Limit && !model.meta.valid_price(order.price) {
        Some(RejectReason::InvalidPrice)
    } else if !model.meta.valid_quantity(order.quantity) {
        Some(RejectReason::InvalidQuantity)
    } else if !model.has_room(order.side, 0) {
        Some(RejectReason::SequenceExhausted)
    } else {
        None
    }
}

/// The order as matching sees it: its limit in price units, and the
/// self-trade policy it names or else the engine's.
pub open spec fn taker_of(model: EngineModel, order: Order, stp: Option<SelfTradePolicy>) -> Taker {
    Taker {
        id: order.id,
        account: order.user_id,
        side: order.side,
        limit: if order.order_type == OrderType::Limit {
            Some(model.meta.units_of_price(order.price))
        } else {
            None
        },
        policy: match stp {
            Some(p) => p,
            None => model.policy,
        },
    }
}

/// What submitting `order` makes of a state.
pub open spec fn submitted(
    model: EngineModel,
    order: Order,
    tif: TimeInForce,
    stp: Option<SelfTradePolicy>,
) -> Stepped {
    match submit_fault(model, order) {
        Some(reason) => refused(model, reason),
        None => placed(
            model,
            taker_of(model, order, stp),
            model.meta.units_of_quantity(order.quantity),
            tif,
        ),
    }
}

/// What cancelling `order` makes of a state. The order is looked up on its
/// side at its price by its identifier; if it rests there it is taken off
/// the book, and its level with it if it was the last there.
pub open spec fn cancelled(model: EngineModel, order: Order) -> Stepped {
    let price = model.meta.units_of_price(order.price);
    let book = model.book(order.side);
    if model.halted {
        refused(model, RejectReason::EngineHalted)
    } else if order.symbol@ != model.symbol@ {
        refused(model, RejectReason::UnknownSymbol)
    } else if !model.meta.valid_price(order.price) {
        refused(model, RejectReason::NotFound)
    } else {
        match found(order.side, book, price, order.id) {
            None => refused(model, RejectReason::NotFound),
            Some(resting) => if model.sequence == u64::MAX {
                refused(model, RejectReason::SequenceExhausted)
            } else {
                Stepped {
                    model: EngineModel {
                        sequence: (model.sequence + 1) as u64,
                        ..model.with_book(order.side, removed(order.side, book, price, order.id))
                    },
                    response: ResponseView::Cancelled {
                        order_id: order.id,
                        reason: CancelReason::Requested,
                    },
                    events: seq![
                        Event::OrderState {
                            order_id: order.id,
                            status: OrderStatus::Cancelled,
                            filled_quantity: model.meta.quantity_of(resting.filled as u128),
                            sequence: (model.sequence + 1) as u64,
                        },
                    ],
                }
            },
        }
    }
}


/// What cutting the quantity of a resting order to `quantity` makes of a
/// state. The order keeps its place in the queue; if nothing of it is
/// then left to fill it leaves the book as filled.
pub open spec fn amended(
    model: EngineModel,
    side: OrderSide,
    price: u64,
    resting: RestingOrder,
    quantity: u64,
) -> Stepped {
    let book = model.book(side);
    let last = (model.sequence + 1) as u64;
    if model.sequence == u64::MAX {
        refused(model, RejectReason::SequenceExhausted)
    } else if quantity <= resting.filled {
        Stepped {
            model: EngineModel {
                sequence: last,
                ..model.with_book(side, removed(side, book, price, resting.id))
            },
            response: ResponseView::Accepted { resting_id: None, fills: Seq::empty() },
            events: seq![
                Event::OrderState {
                    order_id: resting.id,
                    status: OrderStatus::Filled,
                    filled_quantity: model.meta.quantity_of(resting.filled as u128),
                    sequence: last,
                },
            ],
        }
    } else {
        Stepped {
            model: EngineModel {
                sequence: last,
                ..model.with_book(side, reduced(side, book, price, resting.id, quantity))
            },
            response: ResponseView::Accepted {
                resting_id: Some(resting.id),
                fills: Seq::empty(),
            },
            events: seq![
                Event::OrderState {
                    order_id: resting.id,
                    status: if resting.filled == 0 {
                        OrderStatus::Open
                    } else {
                        OrderStatus::PartiallyFilled
                    },
                    filled_quantity: model.meta.quantity_of(resting.filled as u128),
                    sequence: last,
                },
            ],
        }
    }
}

/// What replacing `order` makes of a state.
///
/// The order is looked up as for a cancellation, and the new price and
/// quantity are validated before anything changes. A change that leaves the
/// price and does not raise the quantity is made in place and keeps the
/// order's time priority. Any other change cancels the order and places a
/// new limit order under `new_id`, good till cancelled, with the engine's
/// self-trade policy: it goes to the back of the queue.
pub open spec fn replaced(
    model: EngineModel,
    order: Order,
    new_price: Option<Decimal>,
    new_quantity: Option<Decimal>,
    new_id: u128,
) -> Stepped {
    let price = model.meta.units_of_price(order.price);
    let book = model.book(order.side);
    let target_price = match new_price {
        Some(p) => p,
        None => order.price,
    };
    if model.halted {
        refused(model, RejectReason::EngineHalted)
    } else if order.symbol@ != model.symbol@ {
        refused(model, RejectReason::UnknownSymbol)
    } else if !model.meta.valid_price(order.price) {
        refused(model, RejectReason::NotFound)
    } else {
        match found(order.side, book, price, order.id) {
            None => refused(model, RejectReason::NotFound),
            Some(resting) => if !model.meta.valid_price(target_price) {
                refused(model, RejectReason::InvalidPrice)
            } else if new_quantity matches Some(q) && !model.meta.valid_quantity(q) {
                refused(model, RejectReason::InvalidQuantity)
            } else {
                let target = model.meta.units_of_price(target_price);
                let quantity = match new_quantity {
                    Some(q) => model.meta.units_of_quantity(q),
                    None => resting.quantity,
                };
                if target == price && quantity <= resting.quantity {
                    amended(model, order.side, price, resting, quantity)
                } else if !model.has_room(order.side, 1) {
                    refused(model, RejectReason::SequenceExhausted)
                } else {
                    let gone = cancelled(model, order);
                    let back = placed(
                        gone.model,
                        Taker {
                            id: new_id,
                            account: resting.account,
                            side: order.side,
                            limit: Some(target),
                            policy: model.policy,
                        },
                        quantity,
                        TimeInForce::Gtc,
                    );
                    Stepped {
                        model: back.model,
                        response: back.response,
                        events: gone.events + back.events,
                    }
                }
            },
        }
    }
}

/// What a command makes of a state.
#[verifier::opaque]
pub open spec fn stepped(model: EngineModel, command: Command) -> Stepped {
    match command {
        Command::Submit { order, tif, stp } => submitted(model, order, tif, stp),
        Command::Cancel { order } => cancelled(model, order),
        Command::Replace { order, new_price, new_quantity, new_id } => replaced(
            model,
            order,
            new_price,
            new_quantity,
            new_id,
        ),
    }
}

/// What a run of commands makes of a state: the state after the last of
/// them, and all their events in the order of their emission.
pub open spec fn run(model: EngineModel, commands: Seq<Command>) -> (EngineModel, Seq<Event>)
    decreases commands.len(),
{
    if commands.len() == 0 {
        (model, Seq::empty())
    } else {
        let before = run(model, commands.drop_last());
        let step = stepped(before.0, commands.last());
        (step.model, before.1 + step.events)
    }
}

/// One level of a depth snapshot taken at `sequence`.
pub open spec fn entry_of(meta: SymbolMeta, level: LevelView, sequence: u64) -> OrderBookEntry {
    OrderBookEntry {
        price: meta.price_of(level.price),
        quantity: meta.quantity_of(level.aggregate() as u128),
        order_count: level.orders.len() as usize,
        sequence,
    }
}

/// The best `n` levels of a side, best first: fewer if the side has fewer.
pub open spec fn entries_of(meta: SymbolMeta, levels: Seq<LevelView>, n: int, sequence: u64) -> Seq<
    OrderBookEntry,
> {
    Seq::new(
        (if n < levels.len() {
            n
        } else {
            levels.len() as int
        }) as nat,
        |i: int| entry_of(meta, levels[i], sequence),
    )
}

/// Orders older than a bound are older than any later bound.
pub proof fn lemma_all_before_later(levels: Seq<LevelView>, bound: int, later: int)
    requires
        all_before(levels, bound),
        bound <= later,
    ensures
        all_before(levels, later),
{
    assert forall|i: int| 0 <= i < levels.len() implies (#[trigger] levels[i]).before(later) by {
        assert(levels[i].before(bound));
    }
}

/// The events of a crossing are numbered one after the other from `first`,
/// and there are at most two for each step.
pub proof fn lemma_steps_events_numbered(
    symbol: String,
    meta: SymbolMeta,
    taker: Taker,
    steps: Seq<Step>,
    first: u64,
)
    requires
        first + 2 * steps.len() <= u64::MAX,
    ensures
        steps_events(symbol, meta, taker, steps, first).len() <= 2 * steps.len(),
        numbered_from(steps_events(symbol, meta, taker, steps, first), first as int),
    decreases steps.len(),
{
    if steps.len() > 0 {
        lemma_steps_events_numbered(symbol, meta, taker, steps.drop_last(), first);
    }
}

/// No crossed book at rest. Placing an order leaves the engine in order:
/// both sides sorted with no empty level, no resting order newer than the
/// latest event, and the best bid below the best ask. The events are
/// numbered one after the other from the old sequence, and the new
/// sequence is that of the last.
pub proof fn lemma_placed_ok(model: EngineModel, taker: Taker, quantity: u64, tif: TimeInForce)
    requires
        model.ok(),
        model.has_room(taker.side, 0),
        0 < quantity <= MAX_QUANTITY,
    ensures
        placed(model, taker, quantity, tif).model.ok(),
        numbered_from(placed(model, taker, quantity, tif).events, model.sequence + 1),
        placed(model, taker, quantity, tif).model.sequence == model.sequence + placed(
            model,
            taker,
            quantity,
            tif,
        ).events.len(),
{
    let side = taker.side;
    let opp_side = side.spec_opposite();
    let opp = model.book(opp_side);
    let own = model.book(side);
    let out = cross(opp, taker, quantity);
    let after = placed(model, taker, quantity, tif);
    lemma_cross_sound(opp_side, opp, taker, quantity, model.sequence + 1);
    if tif == TimeInForce::Fok && out.remaining > 0 {
    } else {
        let first = (model.sequence + 1) as u64;
        let crossing = steps_events(model.symbol, model.meta, taker, out.steps, first);
        lemma_steps_events_numbered(model.symbol, model.meta, taker, out.steps, first);
        let last = (model.sequence + 1 + crossing.len()) as u64;
        let filled = (quantity - out.remaining) as u64;
        let rests = out.remaining > 0 && taker.limit is Some && !out.stopped && tif
            != TimeInForce::Ioc;
        lemma_all_before_later(out.levels, model.sequence + 1, last + 1);
        lemma_all_before_later(own, model.sequence + 1, last + 1);
        if rests {
            let resting = RestingOrder {
                id: taker.id,
                account: taker.account,
                quantity,
                filled,
                sequence: last,
            };
            lemma_all_before_later(own, model.sequence + 1, last as int);
            lemma_inserted(side, own, taker.limit->0, resting, last + 1);
        }
        assert(after.model.ok());
    }
}

/// Cancelling an order leaves the engine in order.
pub proof fn lemma_cancelled_ok(model: EngineModel, order: Order)
    requires
        model.ok(),
    ensures
        cancelled(model, order).model.ok(),
        numbered_from(cancelled(model, order).events, model.sequence + 1),
        cancelled(model, order).model.sequence == model.sequence + cancelled(
            model,
            order,
        ).events.len(),
{
    let price = model.meta.units_of_price(order.price);
    let book = model.book(order.side);
    let after = cancelled(model, order);
    if !model.halted && order.symbol@ == model.symbol@ && model.meta.valid_price(order.price)
        && found(order.side, book, price, order.id) is Some && model.sequence < u64::MAX {
        let i = rank(order.side, book, price);
        let j = first_with_id(book[i].orders, order.id);
        lemma_rank_range(order.side, book, price);
        lemma_first_with_id_range(book[i].orders, order.id);
        assert(book[i].ok());
        assert(book[i].before(model.sequence + 1));
        lemma_without_ok(book[i], j, model.sequence + 1);
        lemma_with_level(order.side, book, i, book[i].without(j), model.sequence + 1);
        let next = removed(order.side, book, price, order.id);
        lemma_all_before_later(next, model.sequence + 1, model.sequence + 2);
        lemma_all_before_later(model.bids, model.sequence + 1, model.sequence + 2);
        lemma_all_before_later(model.asks, model.sequence + 1, model.sequence + 2);
        assert(after.model.ok());
    }
}


/// An order found on the book is resting, and no newer than the book.
pub proof fn lemma_found(side: OrderSide, levels: Seq<LevelView>, price: u64, id: u128, bound: int)
    requires
        book_ok(side, levels),
        all_before(levels, bound),
        found(side, levels, price, id) is Some,
    ensures
        found(side, levels, price, id)->0.is_resting(),
        found(side, levels, price, id)->0.id == id,
        found(side, levels, price, id)->0.sequence < bound,
{
    let i = rank(side, levels, price);
    lemma_rank_range(side, levels, price);
    lemma_first_with_id_range(levels[i].orders, id);
    assert(levels[i].ok());
    assert(levels[i].before(bound));
}

/// Cutting a resting order's quantity leaves the engine in order.
pub proof fn lemma_amended_ok(
    model: EngineModel,
    side: OrderSide,
    price: u64,
    resting: RestingOrder,
    quantity: u64,
)
    requires
        model.ok(),
        found(side, model.book(side), price, resting.id) == Some(resting),
        quantity <= resting.quantity,
    ensures
        amended(model, side, price, resting, quantity).model.ok(),
        numbered_from(amended(model, side, price, resting, quantity).events, model.sequence + 1),
        amended(model, side, price, resting, quantity).model.sequence == model.sequence + amended(
            model,
            side,
            price,
            resting,
            quantity,
        ).events.len(),
{
    let book = model.book(side);
    if model.sequence < u64::MAX {
        let i = rank(side, book, price);
        let j = first_with_id(book[i].orders, resting.id);
        lemma_rank_range(side, book, price);
        lemma_first_with_id_range(book[i].orders, resting.id);
        assert(book[i].ok());
        assert(book[i].before(model.sequence + 1));
        let next = if quantity <= resting.filled {
            lemma_without_ok(book[i], j, model.sequence + 1);
            lemma_with_level(side, book, i, book[i].without(j), model.sequence + 1);
            removed(side, book, price, resting.id)
        } else {
            let level = book[i].with_order(j, book[i].orders[j].with_quantity(quantity));
            lemma_with_quantity_ok(book[i], j, quantity, model.sequence + 1);
            lemma_with_level(side, book, i, level, model.sequence + 1);
            reduced(side, book, price, resting.id, quantity)
        };
        lemma_all_before_later(next, model.sequence + 1, model.sequence + 2);
        lemma_all_before_later(model.bids, model.sequence + 1, model.sequence + 2);
        lemma_all_before_later(model.asks, model.sequence + 1, model.sequence + 2);
        assert(amended(model, side, price, resting, quantity).model.ok());
    }
}

/// Events numbered from `first`, followed by events numbered on from
/// there, are numbered from `first`.
pub proof fn lemma_numbered_concat(a: Seq<Event>, b: Seq<Event>, first: int)
    requires
        numbered_from(a, first),
        numbered_from(b, first + a.len()),
    ensures
        numbered_from(a + b, first),
{
    assert forall|i: int| 0 <= i < (a + b).len() implies (#[trigger] (a + b)[i]).spec_sequence()
        == first + i by {
        if i < a.len() {
            assert((a + b)[i] == a[i]);
        } else {
            assert((a + b)[i] == b[i - a.len()]);
        }
    }
}

/// Replacing an order leaves the engine in order.
pub proof fn lemma_replaced_ok(
    model: EngineModel,
    order: Order,
    new_price: Option<Decimal>,
    new_quantity: Option<Decimal>,
    new_id: u128,
)
    requires
        model.ok(),
    ensures
        replaced(model, order, new_price, new_quantity, new_id).model.ok(),
        numbered_from(
            replaced(model, order, new_price, new_quantity, new_id).events,
            model.sequence + 1,
        ),
        replaced(model, order, new_price, new_quantity, new_id).model.sequence == model.sequence
            + replaced(model, order, new_price, new_quantity, new_id).events.len(),
{
    let price = model.meta.units_of_price(order.price);
    let book = model.book(order.side);
    let target_price = match new_price {
        Some(p) => p,
        None => order.price,
    };
    if !model.halted && order.symbol@ == model.symbol@ && model.meta.valid_price(order.price)
        && found(order.side, book, price, order.id) is Some && model.meta.valid_price(target_price)
        && !(new_quantity matches Some(q) && !model.meta.valid_quantity(q)) {
        let resting = found(order.side, book, price, order.id)->0;
        lemma_found(order.side, book, price, order.id, model.sequence + 1);
        let target = model.meta.units_of_price(target_price);
        let quantity = match new_quantity {
            Some(q) => model.meta.units_of_quantity(q),
            None => resting.quantity,
        };
        if target == price && quantity <= resting.quantity {
            lemma_amended_ok(model, order.side, price, resting, quantity);
        } else if model.has_room(order.side, 1) {
            model.meta.lemma_units_of_valid(target_price);
            if let Some(q) = new_quantity {
                model.meta.lemma_units_of_valid_quantity(q);
            }
            crate::half_book::lemma_total_orders_nonneg(model.book(order.side.spec_opposite()));
            let gone = cancelled(model, order);
            lemma_cancelled_ok(model, order);
            let taker = Taker {
                id: new_id,
                account: resting.account,
                side: order.side,
                limit: Some(target),
                policy: model.policy,
            };
            lemma_placed_ok(gone.model, taker, quantity, TimeInForce::Gtc);
            let back = placed(gone.model, taker, quantity, TimeInForce::Gtc);
            lemma_numbered_concat(gone.events, back.events, model.sequence + 1);
        }
    }
}

/// No crossed book at rest, and monotonic sequence. Whatever the command,
/// it leaves the engine in order, with the best bid below the best ask; its
/// events are numbered one after the other from the sequence before, and
/// the sequence after is that of the last event.
pub proof fn lemma_stepped_ok(model: EngineModel, command: Command)
    requires
        model.ok(),
    ensures
        stepped(model, command).model.ok(),
        numbered_from(stepped(model, command).events, model.sequence + 1),
        stepped(model, command).model.sequence == model.sequence + stepped(
            model,
            command,
        ).events.len(),
{
    reveal(stepped);
    match command {
        Command::Submit { order, tif, stp } => {
            if submit_fault(model, order) is None {
                model.meta.lemma_units_of_valid_quantity(order.quantity);
                lemma_placed_ok(
                    model,
                    taker_of(model, order, stp),
                    model.meta.units_of_quantity(order.quantity),
                    tif,
                );
            }
        },
        Command::Cancel { order } => {
            lemma_cancelled_ok(model, order);
        },
        Command::Replace { order, new_price, new_quantity, new_id } => {
            lemma_replaced_ok(model, order, new_price, new_quantity, new_id);
        },
    }
}

/// Monotonic sequence, over a whole run. A run of commands leaves the
/// engine in order, and the events of the run are numbered one after the
/// other: each has a higher sequence number than the one before.
pub proof fn lemma_run_ok(model: EngineModel, commands: Seq<Command>)
    requires
        model.ok(),
    ensures
        run(model, commands).0.ok(),
        numbered_from(run(model, commands).1, model.sequence + 1),
        run(model, commands).0.sequence == model.sequence + run(model, commands).1.len(),
        forall|i: int, j: int|
            0 <= i < j < run(model, commands).1.len() ==> (#[trigger] run(
                model,
                commands,
            ).1[i]).spec_sequence() < (#[trigger] run(model, commands).1[j]).spec_sequence(),
    decreases commands.len(),
{
    if commands.len() > 0 {
        lemma_run_ok(model, commands.drop_last());
        let before = run(model, commands.drop_last());
        lemma_stepped_ok(before.0, commands.last());
        lemma_numbered_concat(
            before.1,
            stepped(before.0, commands.last()).events,
            model.sequence + 1,
        );
    }
}

/// Replay. Running a prefix of the commands and then the rest from the
/// state the prefix left gives the state and the events of the whole run:
/// the events of the rest are exactly the suffix.
pub proof fn lemma_run_replay(model: EngineModel, prefix: Seq<Command>, rest: Seq<Command>)
    ensures
        run(model, prefix + rest).0 == run(run(model, prefix).0, rest).0,
        run(model, prefix + rest).1 == run(model, prefix).1 + run(run(model, prefix).0, rest).1,
    decreases rest.len(),
{
    if rest.len() == 0 {
        assert(prefix + rest =~= prefix);
        assert(run(model, prefix).1 + Seq::<Event>::empty() =~= run(model, prefix).1);
    } else {
        lemma_run_replay(model, prefix, rest.drop_last());
        assert((prefix + rest).drop_last() =~= prefix + rest.drop_last());
        assert((prefix + rest).last() == rest.last());
        let mid = run(model, prefix);
        let inner = run(mid.0, rest.drop_last());
        let step = stepped(inner.0, rest.last());
        assert((mid.1 + inner.1) + step.events =~= mid.1 + (inner.1 + step.events));
    }
}

/// Determinism. Two engines in the same state, given the same commands,
/// end in the same state and emit the same events.
pub proof fn lemma_run_deterministic(a: EngineModel, b: EngineModel, commands: Seq<Command>)
    requires
        a == b,
    ensures
        run(a, commands) == run(b, commands),
{
}

/// The events of the steps of a crossing, numbered from `first`, and the
/// trades among them.
fn build_events(
    symbol: &String,
    meta: &SymbolMeta,
    taker: &Taker,
    steps: &Vec<Step>,
    first: u64,
) -> (out: (Vec<Event>, Vec<Trade>))
    requires
        first + 2 * steps@.len() <= u64::MAX,
        forall|i: int| 0 <= i < steps@.len() ==> (#[trigger] steps@[i]).ok(),
    ensures
        out.0@ == steps_events(*symbol, *meta, *taker, steps@, first),
        out.1@ == trades_in(out.0@),
        out.0@.len() <= 2 * steps@.len(),
{
    let mut events: Vec<Event> = Vec::new();
    let mut fills: Vec<Trade> = Vec::new();
    let mut next: u64 = first;
    let mut i: usize = 0;
    proof {
        assert(steps@.take(0) =~= Seq::<Step>::empty());
    }
    while i < steps.len()
        invariant
            i <= steps@.len(),
            first + 2 * steps@.len() <= u64::MAX,
            forall|k: int| 0 <= k < steps@.len() ==> (#[trigger] steps@[k]).ok(),
            events@ == steps_events(*symbol, *meta, *taker, steps@.take(i as int), first),
            fills@ == trades_in(events@),
            events@.len() <= 2 * i,
            next == first + events@.len(),
        decreases steps@.len() - i,
    {
        let ghost before = events@;
        let ghost old_fills = fills@;
        proof {
            assert(steps@.take(i + 1).drop_last() =~= steps@.take(i as int));
            assert(steps@.take(i + 1).last() == steps@[i as int]);
            assert(steps@[i as int].ok());
        }
        match steps[i] {
            Step::Fill { maker, price, quantity } => {
                let trade = Trade {
                    id: next as u128,
                    order_id: maker.id,
                    taker_order_id: taker.id,
                    symbol: symbol.clone(),
                    side: taker.side,
                    quantity: meta.quantity_decimal(quantity as u128),
                    price: meta.price_decimal(price),
                    executed_at: next,
                };
                let status = if quantity == maker.quantity - maker.filled {
                    OrderStatus::Filled
                } else {
                    OrderStatus::PartiallyFilled
                };
                let state = Event::OrderState {
                    order_id: maker.id,
                    status,
                    filled_quantity: meta.quantity_decimal((maker.filled + quantity) as u128),
                    sequence: next + 1,
                };
                fills.push(trade.clone());
                events.push(Event::Trade(trade));
                events.push(state);
                proof {
                    let pair = step_events(*symbol, *meta, *taker, steps@[i as int], next);
                    assert(events@ =~= before + pair);
                    assert(events@.drop_last() =~= before.push(pair[0]));
                    assert(before.push(pair[0]).drop_last() =~= before);
                    assert(trades_in(before.push(pair[0])) == trades_in(before).push(trade));
                }
                next = next + 2;
            },
            Step::MakerCancelled { maker, price } => {
                let state = Event::OrderState {
                    order_id: maker.id,
                    status: OrderStatus::Cancelled,
                    filled_quantity: meta.quantity_decimal(maker.filled as u128),
                    sequence: next,
                };
                events.push(state);
                proof {
                    let one = step_events(*symbol, *meta, *taker, steps@[i as int], next);
                    assert(events@ =~= before + one);
                    assert(events@.drop_last() =~= before);
                }
                next = next + 1;
            },
        }
        i = i + 1;
    }
    proof {
        assert(steps@.take(i as int) =~= steps@);
    }
    (events, fills)
}

/// The matching engine of one symbol: its two half-books and its sequence
/// counter.
#[derive(Debug)]
pub struct OrderBookService {
    symbol: String,
    meta: SymbolMeta,
    policy: SelfTradePolicy,
    bids: HalfBook,
    asks: HalfBook,
    sequence: u64,
    halted: bool,
}

impl View for OrderBookService {
    type V = EngineModel;

    closed spec fn view(&self) -> EngineModel {
        EngineModel {
            symbol: self.symbol,
            meta: self.meta,
            policy: self.policy,
            bids: self.bids@,
            asks: self.asks@,
            sequence: self.sequence,
            halted: self.halted,
        }
    }
}

impl OrderBookService {
    /// The engine's invariant: the half-books are well formed, each on its
    /// side, and the state is in order.
    pub closed spec fn wf(&self) -> bool {
        &&& self.bids.wf()
        &&& self.asks.wf()
        &&& self.bids.spec_side() == OrderSide::Buy
        &&& self.asks.spec_side() == OrderSide::Sell
        &&& self@.ok()
    }

    /// A well-formed engine is in order: in particular its book is not
    /// crossed.
    pub proof fn lemma_wf_ok(&self)
        requires
            self.wf(),
        ensures
            self@.ok(),
    {
    }

    /// An engine for `symbol` with an empty book, whose first event will
    /// have the sequence number after `sequence`.
    pub fn new(symbol: String, meta: SymbolMeta, policy: SelfTradePolicy, sequence: u64) -> (engine:
        OrderBookService)
        ensures
            engine.wf(),
            engine@ == (EngineModel {
                symbol,
                meta,
                policy,
                bids: Seq::empty(),
                asks: Seq::empty(),
                sequence,
                halted: false,
            }),
    {
        meta.attest();
        OrderBookService {
            symbol,
            meta,
            policy,
            bids: HalfBook::new(OrderSide::Buy),
            asks: HalfBook::new(OrderSide::Sell),
            sequence,
            halted: false,
        }
    }

    /// The sequence number of the latest event.
    pub fn sequence(&self) -> (s: u64)
        ensures
            s == self@.sequence,
    {
        self.sequence
    }

    pub fn symbol(&self) -> (s: &String)
        ensures
            *s == self@.symbol,
    {
        &self.symbol
    }

    pub fn meta(&self) -> (m: &SymbolMeta)
        ensures
            *m == self@.meta,
    {
        &self.meta
    }

    /// Whether the engine still takes commands.
    pub fn is_healthy(&self) -> (b: bool)
        ensures
            b == !self@.halted,
    {
        !self.halted
    }

    /// Stops the engine after a fatal fault: from now on every command is
    /// refused.
    pub fn halt(&mut self)
        requires
            old(self).wf(),
        ensures
            final(self).wf(),
            final(self)@ == (EngineModel { halted: true, ..old(self)@ }),
    {
        self.halted = true;
    }

    /// Crosses a buying `taker` against the asks, lowest price first.
    fn match_buy_order(&mut self, taker: &Taker, quantity: u64) -> (out: Matched)
        requires
            old(self).bids.wf(),
            old(self).asks.wf(),
        ensures
            final(self).asks.wf(),
            final(self).asks.spec_side() == old(self).asks.spec_side(),
            final(self).bids == old(self).bids,
            final(self).symbol == old(self).symbol,
            final(self).meta == old(self).meta,
            final(self).policy == old(self).policy,
            final(self).sequence == old(self).sequence,
            final(self).halted == old(self).halted,
            final(self).asks@ == cross(old(self).asks@, *taker, quantity).levels,
            out.steps@ == cross(old(self).asks@, *taker, quantity).steps,
            out.remaining == cross(old(self).asks@, *taker, quantity).remaining,
            out.stopped == cross(old(self).asks@, *taker, quantity).stopped,
    {
        match_against(&mut self.asks, taker, quantity)
    }

    /// Crosses a selling `taker` against the bids, highest price first.
    fn match_sell_order(&mut self, taker: &Taker, quantity: u64) -> (out: Matched)
        requires
            old(self).bids.wf(),
            old(self).asks.wf(),
        ensures
            final(self).bids.wf(),
            final(self).bids.spec_side() == old(self).bids.spec_side(),
            final(self).asks == old(self).asks,
            final(self).symbol == old(self).symbol,
            final(self).meta == old(self).meta,
            final(self).policy == old(self).policy,
            final(self).sequence == old(self).sequence,
            final(self).halted == old(self).halted,
            final(self).bids@ == cross(old(self).bids@, *taker, quantity).levels,
            out.steps@ == cross(old(self).bids@, *taker, quantity).steps,
            out.remaining == cross(old(self).bids@, *taker, quantity).remaining,
            out.stopped == cross(old(self).bids@, *taker, quantity).stopped,
    {
        match_against(&mut self.bids, taker, quantity)
    }

    /// Whether the sequence counter has room for `extra` events and then
    /// an order of `side`.
    fn has_room(&self, side: OrderSide, extra: u64) -> (b: bool)
        requires
            self.wf(),
            extra <= 2,
        ensures
            b == self@.has_room(side, extra as int),
    {
        let count: u128 = match side {
            OrderSide::Buy => self.asks.order_count(),
            OrderSide::Sell => self.bids.order_count(),
        };
        let used: u128 = self.sequence as u128 + extra as u128 + 1;
        if used > u64::MAX as u128 {
            proof {
                crate::half_book::lemma_total_orders_nonneg(self@.book(side.spec_opposite()));
            }
            false
        } else {
            let room: u128 = u64::MAX as u128 - used;
            count <= room / 2
        }
    }

    /// Places an order that passed validation.
    fn place(&mut self, taker: Taker, quantity: u64, tif: TimeInForce) -> (out: Outcome)
        requires
            old(self).wf(),
            old(self)@.has_room(taker.side, 0),
            0 < quantity <= MAX_QUANTITY,
        ensures
            final(self).wf(),
            final(self)@ == placed(old(self)@, taker, quantity, tif).model,
            out.response@ == placed(old(self)@, taker, quantity, tif).response,
            out.events@ == placed(old(self)@, taker, quantity, tif).events,
    {
        let ghost model = self@;
        let ghost opp = model.book(taker.side.spec_opposite());
        proof {
            lemma_placed_ok(model, taker, quantity, tif);
            lemma_cross_sound(
                taker.side.spec_opposite(),
                opp,
                taker,
                quantity,
                model.sequence + 1,
            );
        }
        let matched: Matched = match tif {
            TimeInForce::Fok => {
                let mut trial = match taker.side {
                    OrderSide::Buy => self.asks.snapshot(),
                    OrderSide::Sell => self.bids.snapshot(),
                };
                let m = match_against(&mut trial, &taker, quantity);
                if m.remaining > 0 {
                    return Outcome::refused(RejectReason::TifUnfillable);
                }
                match taker.side {
                    OrderSide::Buy => {
                        self.asks = trial;
                    },
                    OrderSide::Sell => {
                        self.bids = trial;
                    },
                }
                m
            },
            _ => match taker.side {
                OrderSide::Buy => self.match_buy_order(&taker, quantity),
                OrderSide::Sell => self.match_sell_order(&taker, quantity),
            },
        };
        let first: u64 = self.sequence + 1;
        let (mut events, fills) = build_events(
            &self.symbol,
            &self.meta,
            &taker,
            &matched.steps,
            first,
        );
        let count: usize = events.len();
        let last: u64 = first + count as u64;
        let filled: u64 = quantity - matched.remaining;
        let is_ioc: bool = match tif {
            TimeInForce::Ioc => true,
            _ => false,
        };
        let resting_price: Option<u64> = if matched.remaining > 0 && !matched.stopped && !is_ioc {
            taker.limit
        } else {
            None
        };
        let rests: bool = resting_price.is_some();
        let status = if matched.remaining == 0 {
            OrderStatus::Filled
        } else if !rests {
            OrderStatus::Cancelled
        } else if filled == 0 {
            OrderStatus::Open
        } else {
            OrderStatus::PartiallyFilled
        };
        match resting_price {
            Some(price) => {
                let resting = RestingOrder {
                    id: taker.id,
                    account: taker.account,
                    quantity,
                    filled,
                    sequence: last,
                };
                proof {
                    lemma_all_before_later(
                        model.book(taker.side),
                        model.sequence + 1,
                        last as int,
                    );
                }
                match taker.side {
                    OrderSide::Buy => self.bids.insert(price, resting),
                    OrderSide::Sell => self.asks.insert(price, resting),
                }
            },
            None => {},
        }
        self.sequence = last;
        events.push(
            Event::OrderState {
                order_id: taker.id,
                status,
                filled_quantity: self.meta.quantity_decimal(filled as u128),
                sequence: last,
            },
        );
        let response = if filled == 0 && matched.stopped {
            Response::Cancelled { order_id: taker.id, reason: CancelReason::SelfTrade }
        } else if filled == 0 && taker.limit.is_none() {
            Response::Cancelled { order_id: taker.id, reason: CancelReason::Unfillable }
        } else {
            Response::Accepted {
                resting_id: if rests {
                    Some(taker.id)
                } else {
                    None
                },
                fills,
            }
        };
        Outcome { response, events }
    }

    /// The order's fault, or the order as matching sees it and its
    /// quantity in units.
    fn check(&self, order: &Order, stp: Option<SelfTradePolicy>) -> (r: Result<
        (Taker, u64),
        RejectReason,
    >)
        requires
            self.wf(),
        ensures
            match r {
                Ok((taker, quantity)) => submit_fault(self@, *order) is None && taker == taker_of(
                    self@,
                    *order,
                    stp,
                ) && quantity == self@.meta.units_of_quantity(order.quantity) && 0 < quantity
                    <= MAX_QUANTITY,
                Err(reason) => submit_fault(self@, *order) == Some(reason),
            },
    {
        if self.halted {
            return Err(RejectReason::EngineHalted);
        }
        if order.symbol != self.symbol {
            return Err(RejectReason::UnknownSymbol);
        }
        let limit: Option<u64> = match order.order_type {
            OrderType::Market => None,
            OrderType::Limit => match self.meta.price_units(&order.price) {
                Some(p) => Some(p),
                None => {
                    return Err(RejectReason::InvalidPrice);
                },
            },
            _ => {
                return Err(RejectReason::UnsupportedOrderType);
            },
        };
        let quantity: u64 = match self.meta.quantity_units(&order.quantity) {
            Some(q) => q,
            None => {
                return Err(RejectReason::InvalidQuantity);
            },
        };
        if !self.has_room(order.side, 0) {
            return Err(RejectReason::SequenceExhausted);
        }
        let policy = match stp {
            Some(p) => p,
            None => self.policy,
        };
        Ok((Taker { id: order.id, account: order.user_id, side: order.side, limit, policy }, quantity))
    }

    /// Takes `order` in: validates it, crosses it against the other side,
    /// and lets what is left of it rest, or cancels it, as its type and
    /// `tif` say. `stp` overrides the engine's self-trade policy.
    pub fn add_order(
        &mut self,
        order: &Order,
        tif: TimeInForce,
        stp: Option<SelfTradePolicy>,
    ) -> (out: Outcome)
        requires
            old(self).wf(),
        ensures
            final(self).wf(),
            final(self)@ == submitted(old(self)@, *order, tif, stp).model,
            out.response@ == submitted(old(self)@, *order, tif, stp).response,
            out.events@ == submitted(old(self)@, *order, tif, stp).events,
    {
        match self.check(order, stp) {
            Err(reason) => Outcome::refused(reason),
            Ok((taker, quantity)) => self.place(taker, quantity, tif),
        }
    }

    /// Takes `order` off the book.
    pub fn remove_order(&mut self, order: &Order) -> (out: Outcome)
        requires
            old(self).wf(),
        ensures
            final(self).wf(),
            final(self)@ == cancelled(old(self)@, *order).model,
            out.response@ == cancelled(old(self)@, *order).response,
            out.events@ == cancelled(old(self)@, *order).events,
    {
        let ghost model = self@;
        proof {
            lemma_cancelled_ok(model, *order);
        }
        if self.halted {
            return Outcome::refused(RejectReason::EngineHalted);
        }
        if order.symbol != self.symbol {
            return Outcome::refused(RejectReason::UnknownSymbol);
        }
        let price: u64 = match self.meta.price_units(&order.price) {
            Some(p) => p,
            None => {
                return Outcome::refused(RejectReason::NotFound);
            },
        };
        let resting = match order.side {
            OrderSide::Buy => self.bids.find(price, order.id),
            OrderSide::Sell => self.asks.find(price, order.id),
        };
        let resting: RestingOrder = match resting {
            Some(r) => r,
            None => {
                return Outcome::refused(RejectReason::NotFound);
            },
        };
        if self.sequence == u64::MAX {
            return Outcome::refused(RejectReason::SequenceExhausted);
        }
        match order.side {
            OrderSide::Buy => {
                self.bids.remove(price, order.id);
            },
            OrderSide::Sell => {
                self.asks.remove(price, order.id);
            },
        }
        self.sequence = self.sequence + 1;
        let mut events: Vec<Event> = Vec::new();
        events.push(
            Event::OrderState {
                order_id: order.id,
                status: OrderStatus::Cancelled,
                filled_quantity: self.meta.quantity_decimal(resting.filled as u128),
                sequence: self.sequence,
            },
        );
        Outcome {
            response: Response::Cancelled { order_id: order.id, reason: CancelReason::Requested },
            events,
        }
    }
}

impl OrderBookService {
    /// Cuts the quantity of a resting order in place.
    fn amend(&mut self, side: OrderSide, price: u64, resting: RestingOrder, quantity: u64) -> (out:
        Outcome)
        requires
            old(self).wf(),
            found(side, old(self)@.book(side), price, resting.id) == Some(resting),
            quantity <= resting.quantity,
        ensures
            final(self).wf(),
            final(self)@ == amended(old(self)@, side, price, resting, quantity).model,
            out.response@ == amended(old(self)@, side, price, resting, quantity).response,
            out.events@ == amended(old(self)@, side, price, resting, quantity).events,
    {
        proof {
            lemma_amended_ok(self@, side, price, resting, quantity);
        }
        if self.sequence == u64::MAX {
            return Outcome::refused(RejectReason::SequenceExhausted);
        }
        let gone: bool = quantity <= resting.filled;
        if gone {
            match side {
                OrderSide::Buy => {
                    self.bids.remove(price, resting.id);
                },
                OrderSide::Sell => {
                    self.asks.remove(price, resting.id);
                },
            }
        } else {
            match side {
                OrderSide::Buy => self.bids.reduce(price, resting.id, quantity),
                OrderSide::Sell => self.asks.reduce(price, resting.id, quantity),
            }
        }
        self.sequence = self.sequence + 1;
        let status = if gone {
            OrderStatus::Filled
        } else if resting.filled == 0 {
            OrderStatus::Open
        } else {
            OrderStatus::PartiallyFilled
        };
        let mut events: Vec<Event> = Vec::new();
        events.push(
            Event::OrderState {
                order_id: resting.id,
                status,
                filled_quantity: self.meta.quantity_decimal(resting.filled as u128),
                sequence: self.sequence,
            },
        );
        Outcome {
            response: Response::Accepted {
                resting_id: if gone {
                    None
                } else {
                    Some(resting.id)
                },
                fills: Vec::new(),
            },
            events,
        }
    }

    /// Changes the price or the quantity of `order`. Where the order loses
    /// its place in the queue it comes back under `new_id`.
    pub fn replace_order(
        &mut self,
        order: &Order,
        new_price: Option<Decimal>,
        new_quantity: Option<Decimal>,
        new_id: u128,
    ) -> (out: Outcome)
        requires
            old(self).wf(),
        ensures
            final(self).wf(),
            final(self)@ == replaced(old(self)@, *order, new_price, new_quantity, new_id).model,
            out.response@ == replaced(
                old(self)@,
                *order,
                new_price,
                new_quantity,
                new_id,
            ).response,
            out.events@ == replaced(old(self)@, *order, new_price, new_quantity, new_id).events,
    {
        let ghost model = self@;
        if self.halted {
            return Outcome::refused(RejectReason::EngineHalted);
        }
        if order.symbol != self.symbol {
            return Outcome::refused(RejectReason::UnknownSymbol);
        }
        let price: u64 = match self.meta.price_units(&order.price) {
            Some(p) => p,
            None => {
                return Outcome::refused(RejectReason::NotFound);
            },
        };
        let resting = match order.side {
            OrderSide::Buy => self.bids.find(price, order.id),
            OrderSide::Sell => self.asks.find(price, order.id),
        };
        let resting: RestingOrder = match resting {
            Some(r) => r,
            None => {
                return Outcome::refused(RejectReason::NotFound);
            },
        };
        proof {
            lemma_found(order.side, model.book(order.side), price, order.id, model.sequence + 1);
        }
        let target_price: Decimal = match new_price {
            Some(p) => p,
            None => order.price,
        };
        let target: u64 = match self.meta.price_units(&target_price) {
            Some(p) => p,
            None => {
                return Outcome::refused(RejectReason::InvalidPrice);
            },
        };
        let quantity: u64 = match new_quantity {
            Some(q) => match self.meta.quantity_units(&q) {
                Some(u) => u,
                None => {
                    return Outcome::refused(RejectReason::InvalidQuantity);
                },
            },
            None => resting.quantity,
        };
        if target == price && quantity <= resting.quantity {
            return self.amend(order.side, price, resting, quantity);
        }
        if !self.has_room(order.side, 1) {
            return Outcome::refused(RejectReason::SequenceExhausted);
        }
        proof {
            crate::half_book::lemma_total_orders_nonneg(model.book(order.side.spec_opposite()));
        }
        let gone = self.remove_order(order);
        let taker = Taker {
            id: new_id,
            account: resting.account,
            side: order.side,
            limit: Some(target),
            policy: self.policy,
        };
        let back = self.place(taker, quantity, TimeInForce::Gtc);
        let mut events = gone.events;
        let mut more = back.events;
        events.append(&mut more);
        Outcome { response: back.response, events }
    }

    /// Processes one command to completion.
    pub fn process(&mut self, command: &Command) -> (out: Outcome)
        requires
            old(self).wf(),
        ensures
            final(self).wf(),
            final(self)@ == stepped(old(self)@, *command).model,
            out.response@ == stepped(old(self)@, *command).response,
            out.events@ == stepped(old(self)@, *command).events,
    {
        reveal(stepped);
        match command {
            Command::Submit { order, tif, stp } => self.add_order(order, *tif, *stp),
            Command::Cancel { order } => self.remove_order(order),
            Command::Replace { order, new_price, new_quantity, new_id } => self.replace_order(
                order,
                *new_price,
                *new_quantity,
                *new_id,
            ),
        }
    }

    /// The best `n` levels of `book`, as entries of a snapshot.
    fn entries(&self, book: &HalfBook, n: usize) -> (entries: Vec<OrderBookEntry>)
        requires
            book.wf(),
        ensures
            entries@ == entries_of(self@.meta, book@, n as int, self@.sequence),
    {
        let count: usize = if n < book.level_count() {
            n
        } else {
            book.level_count()
        };
        let mut entries: Vec<OrderBookEntry> = Vec::new();
        let mut i: usize = 0;
        while i < count
            invariant
                i <= count <= book@.len(),
                book.wf(),
                entries@.len() == i,
                forall|k: int|
                    0 <= k < i ==> (#[trigger] entries@[k]) == entry_of(
                        self@.meta,
                        book@[k],
                        self@.sequence,
                    ),
            decreases count - i,
        {
            let level = book.level_at(i);
            entries.push(
                OrderBookEntry {
                    price: self.meta.price_decimal(level.price()),
                    quantity: self.meta.quantity_decimal(level.total_quantity()),
                    order_count: level.len(),
                    sequence: self.sequence,
                },
            );
            i = i + 1;
        }
        proof {
            assert(entries@ =~= entries_of(self@.meta, book@, n as int, self@.sequence));
        }
        entries
    }

    /// The best `n` levels of each side, best first, with the sequence at
    /// which the snapshot was taken.
    pub fn depth(&self, n: usize) -> (book: OrderBook)
        requires
            self.wf(),
        ensures
            book.symbol == self@.symbol,
            book.bids@ == entries_of(self@.meta, self@.bids, n as int, self@.sequence),
            book.asks@ == entries_of(self@.meta, self@.asks, n as int, self@.sequence),
            book.last_updated == self@.sequence,
    {
        OrderBook {
            symbol: self.symbol.clone(),
            bids: self.entries(&self.bids, n),
            asks: self.entries(&self.asks, n),
            last_updated: self.sequence,
        }
    }

    /// The best ten levels of each side under the name `symbol`.
    pub fn get_order_book(&self, symbol: &str) -> (book: OrderBook)
        requires
            self.wf(),
        ensures
            book.symbol@ == symbol@,
            book.bids@ == entries_of(self@.meta, self@.bids, 10, self@.sequence),
            book.asks@ == entries_of(self@.meta, self@.asks, 10, self@.sequence),
            book.last_updated == self@.sequence,
    {
        OrderBook {
            symbol: symbol.to_owned(),
            bids: self.entries(&self.bids, 10),
            asks: self.entries(&self.asks, 10),
            last_updated: self.sequence,
        }
    }

    /// The best price of each side and the quantity open at it.
    pub fn top_of_book(&self) -> (top: TopOfBook)
        requires
            self.wf(),
        ensures
            top.sequence == self@.sequence,
            self@.bids.len() == 0 ==> top.best_bid_price is None && top.best_bid_size is None,
            self@.bids.len() > 0 ==> top.best_bid_price == Some(
                self@.meta.price_of(self@.bids[0].price),
            ) && top.best_bid_size == Some(
                self@.meta.quantity_of(self@.bids[0].aggregate() as u128),
            ),
            self@.asks.len() == 0 ==> top.best_ask_price is None && top.best_ask_size is None,
            self@.asks.len() > 0 ==> top.best_ask_price == Some(
                self@.meta.price_of(self@.asks[0].price),
            ) && top.best_ask_size == Some(
                self@.meta.quantity_of(self@.asks[0].aggregate() as u128),
            ),
    {
        let (best_bid_price, best_bid_size) = if self.bids.is_empty() {
            (None, None)
        } else {
            let level = self.bids.level_at(0);
            (
                Some(self.meta.price_decimal(level.price())),
                Some(self.meta.quantity_decimal(level.total_quantity())),
            )
        };
        let (best_ask_price, best_ask_size) = if self.asks.is_empty() {
            (None, None)
        } else {
            let level = self.asks.level_at(0);
            (
                Some(self.meta.price_decimal(level.price())),
                Some(self.meta.quantity_decimal(level.total_quantity())),
            )
        };
        TopOfBook {
            best_bid_price,
            best_bid_size,
            best_ask_price,
            best_ask_size,
            sequence: self.sequence,
        }
    }
}

} // verus!
