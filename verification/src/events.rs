//! What the engine is told and what it tells: commands, responses and the
//! events it hands to the sink.

use crate::decimal::Decimal;
use crate::errors::RejectReason;
use crate::models::{Order, OrderStatus, SelfTradePolicy, TimeInForce, Trade};
use vstd::prelude::*;

verus! {

/// Something observable that happened in the engine. Each event carries
/// the sequence number it was given.
#[derive(Debug)]
pub enum Event {
    /// Two orders traded.
    Trade(Trade),
    /// An order changed state.
    OrderState { order_id: u128, status: OrderStatus, filled_quantity: Decimal, sequence: u64 },
}

impl Clone for Event {
    fn clone(&self) -> (r: Event)
        ensures
            r == *self,
    {
        match self {
            Event::Trade(trade) => Event::Trade(trade.clone()),
            Event::OrderState { order_id, status, filled_quantity, sequence } => Event::OrderState {
                order_id: *order_id,
                status: *status,
                filled_quantity: *filled_quantity,
                sequence: *sequence,
            },
        }
    }
}

impl Event {
    /// The event's sequence number.
    pub open spec fn spec_sequence(&self) -> u64 {
        match self {
            Event::Trade(t) => t.executed_at,
            Event::OrderState { sequence, .. } => *sequence,
        }
    }

    #[verifier::when_used_as_spec(spec_sequence)]
    pub fn sequence(&self) -> (s: u64)
        ensures
            s == self.spec_sequence(),
    {
        match self {
            Event::Trade(t) => t.executed_at,
            Event::OrderState { sequence, .. } => *sequence,
        }
    }
}

/// The trades among `events`, in their order.
pub open spec fn trades_in(events: Seq<Event>) -> Seq<Trade>
    decreases events.len(),
{
    if events.len() == 0 {
        Seq::empty()
    } else {
        match events.last() {
            Event::Trade(t) => trades_in(events.drop_last()).push(t),
            _ => trades_in(events.drop_last()),
        }
    }
}

/// The events are numbered `first`, `first + 1`, and so on.
pub open spec fn numbered_from(events: Seq<Event>, first: int) -> bool {
    forall|i: int| 0 <= i < events.len() ==> (#[trigger] events[i]).spec_sequence() == first + i
}

/// Why an order was cancelled.
#[derive(Clone, Copy, Debug, PartialEq, Eq, Structural)]
pub enum CancelReason {
    /// Its owner asked for it.
    Requested,
    /// A market order found nothing to trade against.
    Unfillable,
    /// It met a resting order of its own account before anything traded.
    SelfTrade,
}

/// The engine's answer to a command.
#[derive(Debug)]
pub enum Response {
    /// The order was taken in. `resting_id` names it if a part of it rests
    /// on the book; `fills` are its trades.
    Accepted { resting_id: Option<u128>, fills: Vec<Trade> },
    /// The command was refused and nothing changed.
    Rejected { reason: RejectReason },
    /// The order is off the book, or was cancelled on arrival with nothing
    /// of it traded.
    Cancelled { order_id: u128, reason: CancelReason },
}

/// What a `Response` says, with the fills as a sequence.
pub enum ResponseView {
    Accepted { resting_id: Option<u128>, fills: Seq<Trade> },
    Rejected { reason: RejectReason },
    Cancelled { order_id: u128, reason: CancelReason },
}

impl View for Response {
    type V = ResponseView;

    open spec fn view(&self) -> ResponseView {
        match self {
            Response::Accepted { resting_id, fills } => ResponseView::Accepted {
                resting_id: *resting_id,
                fills: fills@,
            },
            Response::Rejected { reason } => ResponseView::Rejected { reason: *reason },
            Response::Cancelled { order_id, reason } => ResponseView::Cancelled {
                order_id: *order_id,
                reason: *reason,
            },
        }
    }
}

/// What processing a command gave: the answer, and the events for the sink
/// in the order in which they are to be emitted.
#[derive(Debug)]
pub struct Outcome {
    pub response: Response,
    pub events: Vec<Event>,
}

impl Outcome {
    /// The outcome of a command that is refused for `reason`: no events.
    pub fn refused(reason: RejectReason) -> (out: Outcome)
        ensures
            out.response@ == (ResponseView::Rejected { reason }),
            out.events@ == Seq::<Event>::empty(),
    {
        Outcome { response: Response::Rejected { reason }, events: Vec::new() }
    }
}

/// A command to the engine of one symbol.
#[derive(Clone, Debug)]
pub enum Command {
    /// Take `order` in. `stp` overrides the engine's self-trade policy.
    Submit { order: Order, tif: TimeInForce, stp: Option<SelfTradePolicy> },
    /// Take `order` off the book.
    Cancel { order: Order },
    /// Change the price or the quantity of `order`; where the order loses
    /// its place in the queue it comes back under `new_id`.
    Replace {
        order: Order,
        new_price: Option<Decimal>,
        new_quantity: Option<Decimal>,
        new_id: u128,
    },
}

} // verus!
