//! Crossing an incoming order against the opposing side of the book.
//!
//! `cross` says what crossing does, as a function of the opposing levels,
//! the incoming order and the quantity it still wants. `match_against`
//! does it on a `HalfBook` and is proved to compute `cross`. The laws of
//! matching are proved of `cross` and so hold of every run of the engine.

use crate::half_book::{
    all_before, better, book_ok, filled_best, lemma_total_orders_nonneg,
    lemma_total_orders_popped, lemma_with_level, popped_best, total_orders, HalfBook,
};
use crate::models::{OrderSide, SelfTradePolicy};
use crate::price_level::{
    lemma_filled_ok, lemma_popped_ok, lemma_total_open_head, lemma_total_open_update, total_open,
    LevelView,
    RestingOrder,
};
use vstd::prelude::*;

verus! {

/// The incoming order, as matching sees it.
#[derive(Clone, Copy, Debug, PartialEq, Eq, Structural)]
pub struct Taker {
    /// The order's identifier.
    pub id: u128,
    /// The account that owns it.
    pub account: u128,
    /// Its side; it trades against the other one.
    pub side: OrderSide,
    /// Its limit price in price units; `None` for a market order.
    pub limit: Option<u64>,
    /// What to do when it meets a resting order of its own account.
    pub policy: SelfTradePolicy,
}

impl Taker {
    /// Whether the order may trade at `price`: a market order at any
    /// price, a buy at or below its limit, a sell at or above it.
    pub open spec fn reaches(self, price: u64) -> bool {
        match self.limit {
            None => true,
            Some(limit) => match self.side {
                OrderSide::Buy => limit >= price,
                OrderSide::Sell => limit <= price,
            },
        }
    }

    /// Whether trading against `maker` is a self-trade that the policy
    /// prevents.
    pub open spec fn prevents(self, maker: RestingOrder) -> bool {
        self.policy != SelfTradePolicy::Allow && maker.account == self.account
    }

    fn reaches_exec(&self, price: u64) -> (b: bool)
        ensures
            b == self.reaches(price),
    {
        match self.limit {
            None => true,
            Some(limit) => match self.side {
                OrderSide::Buy => limit >= price,
                OrderSide::Sell => limit <= price,
            },
        }
    }
}

/// One thing that crossing did to the order that was first in line.
#[derive(Clone, Copy, Debug, PartialEq, Eq, Structural)]
pub enum Step {
    /// `quantity` traded against `maker` at the maker's `price`.
    Fill { maker: RestingOrder, price: u64, quantity: u64 },
    /// `maker` was taken off the book to prevent a self-trade.
    MakerCancelled { maker: RestingOrder, price: u64 },
}

impl Step {
    /// The resting order the step acted on, as it was before.
    pub open spec fn maker(self) -> RestingOrder {
        match self {
            Step::Fill { maker, .. } => maker,
            Step::MakerCancelled { maker, .. } => maker,
        }
    }

    /// The quantity the step traded.
    pub open spec fn traded(self) -> int {
        match self {
            Step::Fill { quantity, .. } => quantity as int,
            Step::MakerCancelled { .. } => 0,
        }
    }

    /// The open quantity the step took off the book without trading it.
    pub open spec fn released(self) -> int {
        match self {
            Step::Fill { .. } => 0,
            Step::MakerCancelled { maker, .. } => maker.open_quantity(),
        }
    }

    /// Whether the step took its maker off the book: a cancellation, or a
    /// fill of all that was open.
    pub open spec fn removes(self) -> bool {
        match self {
            Step::Fill { maker, quantity, .. } => quantity == maker.open_quantity(),
            Step::MakerCancelled { .. } => true,
        }
    }

    /// A fill trades something, and no more than its maker had open.
    pub open spec fn ok(self) -> bool {
        &&& self.maker().is_resting()
        &&& self matches Step::Fill { maker, quantity, .. } ==> 0 < quantity
            <= maker.open_quantity()
    }
}

/// The sum of the quantities traded by `steps`.
pub open spec fn traded(steps: Seq<Step>) -> int
    decreases steps.len(),
{
    if steps.len() == 0 {
        0
    } else {
        steps[0].traded() + traded(steps.drop_first())
    }
}

/// The sum of the open quantities that `steps` cancelled.
pub open spec fn released(steps: Seq<Step>) -> int
    decreases steps.len(),
{
    if steps.len() == 0 {
        0
    } else {
        steps[0].released() + released(steps.drop_first())
    }
}

/// The sum of the open quantities of a whole side.
pub open spec fn book_open(levels: Seq<LevelView>) -> int
    decreases levels.len(),
{
    if levels.len() == 0 {
        0
    } else {
        levels[0].aggregate() + book_open(levels.drop_first())
    }
}

/// The resting orders of a side in the order of their priority: level by
/// level from the best price, and within a level from the oldest.
pub open spec fn flat(levels: Seq<LevelView>) -> Seq<RestingOrder>
    decreases levels.len(),
{
    if levels.len() == 0 {
        Seq::empty()
    } else {
        levels[0].orders + flat(levels.drop_first())
    }
}

/// What crossing leaves behind.
pub struct Crossed {
    /// The opposing levels afterwards.
    pub levels: Seq<LevelView>,
    /// What was done, in the order in which it was done.
    pub steps: Seq<Step>,
    /// What the incoming order still wants.
    pub remaining: u64,
    /// Whether self-trade prevention ended the crossing, which cancels what
    /// is left of the incoming order.
    pub stopped: bool,
}

impl Crossed {
    /// The same outcome with `step` done first.
    pub open spec fn after(self, step: Step) -> Crossed {
        Crossed { steps: seq![step] + self.steps, ..self }
    }

    /// The same outcome with `steps` done first.
    pub open spec fn after_all(self, steps: Seq<Step>) -> Crossed {
        Crossed { steps: steps + self.steps, ..self }
    }
}

/// Crosses an incoming order that still wants `remaining` against the
/// opposing `levels`.
///
/// While something is wanted and the best opposing price is within reach,
/// the order first in line is taken: it is cancelled, or the crossing ends,
/// where the self-trade policy says so; otherwise it trades the smaller of
/// what is wanted and what it has open, at its own price.
pub open spec fn cross(levels: Seq<LevelView>, taker: Taker, remaining: u64) -> Crossed
    decreases total_orders(levels),
    via cross_decreases
{
    if remaining == 0 || levels.len() == 0 || levels[0].orders.len() == 0 || !taker.reaches(
        levels[0].price,
    ) {
        Crossed { levels, steps: Seq::empty(), remaining, stopped: false }
    } else {
        let maker = levels[0].orders[0];
        let price = levels[0].price;
        if taker.prevents(maker) {
            match taker.policy {
                SelfTradePolicy::CancelTaker => Crossed {
                    levels,
                    steps: Seq::empty(),
                    remaining,
                    stopped: true,
                },
                SelfTradePolicy::CancelBoth => Crossed {
                    levels: popped_best(levels),
                    steps: seq![Step::MakerCancelled { maker, price }],
                    remaining,
                    stopped: true,
                },
                _ => cross(popped_best(levels), taker, remaining).after(
                    Step::MakerCancelled { maker, price },
                ),
            }
        } else if remaining < maker.open_quantity() {
            Crossed {
                levels: filled_best(levels, remaining as int),
                steps: seq![Step::Fill { maker, price, quantity: remaining }],
                remaining: 0,
                stopped: false,
            }
        } else {
            cross(popped_best(levels), taker, (remaining - maker.open_quantity()) as u64).after(
                Step::Fill { maker, price, quantity: maker.open_quantity() as u64 },
            )
        }
    }
}

#[via_fn]
proof fn cross_decreases(levels: Seq<LevelView>, taker: Taker, remaining: u64) {
    if levels.len() > 0 && levels[0].orders.len() > 0 {
        lemma_total_orders_popped(levels);
        lemma_total_orders_nonneg(popped_best(levels));
    }
}

/// Taking the first order out of a book whose levels are in order and not
/// empty leaves such a book.
pub proof fn lemma_popped_levels(levels: Seq<LevelView>)
    requires
        levels.len() > 0,
        forall|i: int|
            0 <= i < levels.len() ==> (#[trigger] levels[i]).ok() && levels[i].orders.len() > 0,
    ensures
        forall|i: int|
            0 <= i < popped_best(levels).len() ==> (#[trigger] popped_best(levels)[i]).ok()
                && popped_best(levels)[i].orders.len() > 0,
        total_orders(popped_best(levels)) == total_orders(levels) - 1,
        total_orders(popped_best(levels)) >= 0,
        levels[0].orders[0].is_resting(),
{
    let next = popped_best(levels);
    assert(levels[0].ok());
    assert(levels[0].before(u64::MAX as int + 1));
    lemma_popped_ok(levels[0], u64::MAX as int + 1);
    lemma_total_orders_popped(levels);
    lemma_total_orders_nonneg(next);
    assert forall|i: int| 0 <= i < next.len() implies (#[trigger] next[i]).ok()
        && next[i].orders.len() > 0 by {
        if levels[0].popped().orders.len() == 0 {
            assert(next[i] == levels[i + 1]);
        } else if i > 0 {
            assert(next[i] == levels[i]);
        }
    }
}

/// Taking the first order off the book takes its open quantity off the
/// book and the order off the head of the line.
pub proof fn lemma_book_open_popped(levels: Seq<LevelView>)
    requires
        levels.len() > 0,
        levels[0].orders.len() > 0,
    ensures
        book_open(popped_best(levels)) == book_open(levels) - levels[0].orders[0].open_quantity(),
        flat(popped_best(levels)) == flat(levels).drop_first(),
        flat(levels).len() > 0,
        flat(levels)[0] == levels[0].orders[0],
{
    let l = levels[0].popped();
    lemma_total_open_head(levels[0].orders);
    if l.orders.len() == 0 {
        assert(levels.remove(0) =~= levels.drop_first());
        assert(total_open(l.orders) == 0);
        assert(levels[0].orders =~= seq![levels[0].orders[0]]);
        assert(flat(levels).drop_first() =~= flat(levels.drop_first()));
    } else {
        let after = levels.update(0, l);
        assert(after.drop_first() =~= levels.drop_first());
        assert(flat(after) =~= flat(levels).drop_first());
    }
}

/// A partial fill of the first order takes the filled quantity off the
/// book and leaves the line as it was but for that order.
pub proof fn lemma_book_open_filled(levels: Seq<LevelView>, qty: int)
    requires
        levels.len() > 0,
        levels[0].orders.len() > 0,
        0 < qty < levels[0].orders[0].open_quantity(),
    ensures
        book_open(filled_best(levels, qty)) == book_open(levels) - qty,
        flat(filled_best(levels, qty)) == flat(levels).update(
            0,
            levels[0].orders[0].with_fill(qty),
        ),
{
    let l = levels[0].filled(qty);
    let after = levels.update(0, l);
    lemma_total_open_update(levels[0].orders, 0, levels[0].orders[0].with_fill(qty));
    assert(after.drop_first() =~= levels.drop_first());
    assert(flat(after) =~= flat(levels).update(0, levels[0].orders[0].with_fill(qty)));
}

/// What holds of every crossing of a book in order.
///
/// The book stays in order and gains no order; nothing with a better price
/// than before becomes best; no more is traded than was wanted; a crossing
/// that ends with something still wanted, and not by self-trade prevention,
/// leaves no opposing price within reach; each step acts on a resting order
/// and there are no more steps than there were orders.
pub proof fn lemma_cross_sound(
    side: OrderSide,
    levels: Seq<LevelView>,
    taker: Taker,
    remaining: u64,
    bound: int,
)
    requires
        book_ok(side, levels),
        all_before(levels, bound),
    ensures
        book_ok(side, cross(levels, taker, remaining).levels),
        all_before(cross(levels, taker, remaining).levels, bound),
        cross(levels, taker, remaining).remaining <= remaining,
        cross(levels, taker, remaining).levels.len() > 0 ==> levels.len() > 0 && !better(
            side,
            cross(levels, taker, remaining).levels[0].price,
            levels[0].price,
        ),
        !cross(levels, taker, remaining).stopped && cross(levels, taker, remaining).remaining > 0
            ==> cross(levels, taker, remaining).levels.len() == 0 || !taker.reaches(
            cross(levels, taker, remaining).levels[0].price,
        ),
        cross(levels, taker, remaining).steps.len() <= total_orders(levels),
        forall|i: int|
            0 <= i < cross(levels, taker, remaining).steps.len() ==> (#[trigger] cross(
                levels,
                taker,
                remaining,
            ).steps[i]).ok(),
    decreases total_orders(levels),
{
    let out = cross(levels, taker, remaining);
    lemma_total_orders_nonneg(levels);
    if remaining == 0 || levels.len() == 0 || levels[0].orders.len() == 0 || !taker.reaches(
        levels[0].price,
    ) {
    } else {
        let maker = levels[0].orders[0];
        let price = levels[0].price;
        let next = popped_best(levels);
        assert(levels[0].ok());
        assert(levels[0].before(bound));
        assert(maker.is_resting());
        lemma_popped_ok(levels[0], bound);
        lemma_with_level(side, levels, 0, levels[0].popped(), bound);
        lemma_total_orders_popped(levels);
        lemma_total_orders_nonneg(next);
        if taker.prevents(maker) {
            match taker.policy {
                SelfTradePolicy::CancelTaker => {},
                SelfTradePolicy::CancelBoth => {},
                _ => {
                    let rest = cross(next, taker, remaining);
                    lemma_cross_sound(side, next, taker, remaining, bound);
                    let step = Step::MakerCancelled { maker, price };
                    assert forall|i: int| 0 <= i < out.steps.len() implies (
                    #[trigger] out.steps[i]).ok() by {
                        if i > 0 {
                            assert(out.steps[i] == rest.steps[i - 1]);
                        }
                    }
                },
            }
        } else if remaining < maker.open_quantity() {
            lemma_filled_ok(levels[0], remaining as int, bound);
            lemma_with_level(side, levels, 0, levels[0].filled(remaining as int), bound);
        } else {
            let left = (remaining - maker.open_quantity()) as u64;
            let rest = cross(next, taker, left);
            lemma_cross_sound(side, next, taker, left, bound);
            assert forall|i: int| 0 <= i < out.steps.len() implies (#[trigger] out.steps[i]).ok() by {
                if i > 0 {
                    assert(out.steps[i] == rest.steps[i - 1]);
                }
            }
        }
    }
}

/// Conservation. What the incoming order wanted is what it still wants
/// plus what was traded, and the open quantity of the book went down by
/// what was traded plus what was cancelled: each trade fills one maker and
/// the taker by the same quantity, so twice the traded quantity is what
/// the taker was filled plus what the makers were filled.
pub proof fn lemma_cross_conserves(levels: Seq<LevelView>, taker: Taker, remaining: u64)
    requires
        forall|i: int|
            0 <= i < levels.len() ==> (#[trigger] levels[i]).ok() && levels[i].orders.len() > 0,
    ensures
        remaining == cross(levels, taker, remaining).remaining + traded(
            cross(levels, taker, remaining).steps,
        ),
        book_open(levels) == book_open(cross(levels, taker, remaining).levels) + traded(
            cross(levels, taker, remaining).steps,
        ) + released(cross(levels, taker, remaining).steps),
        2 * traded(cross(levels, taker, remaining).steps) == (remaining - cross(
            levels,
            taker,
            remaining,
        ).remaining) + (book_open(levels) - book_open(cross(levels, taker, remaining).levels)
            - released(cross(levels, taker, remaining).steps)),
    decreases total_orders(levels),
{
    let out = cross(levels, taker, remaining);
    lemma_total_orders_nonneg(levels);
    let none = Seq::<Step>::empty();
    assert(traded(none) == 0 && released(none) == 0);
    if remaining == 0 || levels.len() == 0 || levels[0].orders.len() == 0 || !taker.reaches(
        levels[0].price,
    ) {
    } else {
        let maker = levels[0].orders[0];
        let price = levels[0].price;
        let next = popped_best(levels);
        lemma_popped_levels(levels);
        lemma_book_open_popped(levels);
        if taker.prevents(maker) {
            let step = Step::MakerCancelled { maker, price };
            match taker.policy {
                SelfTradePolicy::CancelTaker => {},
                SelfTradePolicy::CancelBoth => {
                    assert(seq![step].drop_first() =~= none);
                },
                _ => {
                    let rest = cross(next, taker, remaining);
                    lemma_cross_conserves(next, taker, remaining);
                    assert(out.steps.drop_first() =~= rest.steps);
                },
            }
        } else if remaining < maker.open_quantity() {
            let step = Step::Fill { maker, price, quantity: remaining };
            assert(seq![step].drop_first() =~= none);
            lemma_book_open_filled(levels, remaining as int);
        } else {
            let left = (remaining - maker.open_quantity()) as u64;
            let rest = cross(next, taker, left);
            lemma_cross_conserves(next, taker, left);
            assert(out.steps.drop_first() =~= rest.steps);
        }
    }
}

/// Price-time priority. The steps of a crossing act on the resting orders
/// in the order of their priority, one step an order: step `i` acts on the
/// order that was `i`-th in line. Every step but the last takes its order
/// off the book, by a fill of all it had open or by a cancellation. The
/// orders behind are as they were; only when the last step is a partial
/// fill does its order stay, first in line.
pub proof fn lemma_cross_priority(levels: Seq<LevelView>, taker: Taker, remaining: u64)
    requires
        forall|i: int|
            0 <= i < levels.len() ==> (#[trigger] levels[i]).ok() && levels[i].orders.len() > 0,
    ensures
        cross(levels, taker, remaining).steps.len() <= flat(levels).len(),
        forall|i: int|
            0 <= i < cross(levels, taker, remaining).steps.len() ==> (#[trigger] cross(
                levels,
                taker,
                remaining,
            ).steps[i]).maker() == flat(levels)[i],
        forall|i: int|
            0 <= i < cross(levels, taker, remaining).steps.len() - 1 ==> (#[trigger] cross(
                levels,
                taker,
                remaining,
            ).steps[i]).removes(),
        flat(cross(levels, taker, remaining).levels) == residue(
            cross(levels, taker, remaining).steps,
        ) + flat(levels).skip(cross(levels, taker, remaining).steps.len() as int),
    decreases total_orders(levels),
{
    let out = cross(levels, taker, remaining);
    let line = flat(levels);
    lemma_total_orders_nonneg(levels);
    if remaining == 0 || levels.len() == 0 || levels[0].orders.len() == 0 || !taker.reaches(
        levels[0].price,
    ) {
        assert(line.skip(0) =~= line);
        assert(residue(out.steps) + line =~= line);
    } else {
        let maker = levels[0].orders[0];
        let price = levels[0].price;
        let next = popped_best(levels);
        lemma_popped_levels(levels);
        lemma_book_open_popped(levels);
        if taker.prevents(maker) {
            match taker.policy {
                SelfTradePolicy::CancelTaker => {
                    assert(line.skip(0) =~= line);
                    assert(residue(out.steps) + line =~= line);
                },
                SelfTradePolicy::CancelBoth => {
                    assert(line.skip(1) =~= line.drop_first());
                    assert(residue(out.steps) + line.skip(1) =~= line.skip(1));
                },
                _ => {
                    let rest = cross(next, taker, remaining);
                    lemma_cross_priority(next, taker, remaining);
                    lemma_after_priority(levels, rest, Step::MakerCancelled { maker, price });
                },
            }
        } else if remaining < maker.open_quantity() {
            lemma_book_open_filled(levels, remaining as int);
            let step = Step::Fill { maker, price, quantity: remaining };
            assert(residue(seq![step]) =~= seq![maker.with_fill(remaining as int)]);
            assert(line.update(0, maker.with_fill(remaining as int)) =~= seq![
                maker.with_fill(remaining as int),
            ] + line.skip(1));
        } else {
            let left = (remaining - maker.open_quantity()) as u64;
            let rest = cross(next, taker, left);
            lemma_cross_priority(next, taker, left);
            lemma_after_priority(
                levels,
                rest,
                Step::Fill { maker, price, quantity: maker.open_quantity() as u64 },
            );
        }
    }
}

/// The place in line of the order at place `i` of level `l`: behind all
/// orders of the better levels and behind the older orders of its own.
pub open spec fn place_in_line(levels: Seq<LevelView>, l: int, i: int) -> int
    decreases l,
{
    if l <= 0 {
        i
    } else {
        levels[0].orders.len() + place_in_line(levels.drop_first(), l - 1, i)
    }
}

/// The order at its place in line is the order itself.
pub proof fn lemma_place_in_line(levels: Seq<LevelView>, l: int, i: int)
    requires
        0 <= l < levels.len(),
        0 <= i < levels[l].orders.len(),
    ensures
        0 <= place_in_line(levels, l, i) < flat(levels).len(),
        flat(levels)[place_in_line(levels, l, i)] == levels[l].orders[i],
    decreases l,
{
    if l > 0 {
        assert(levels.drop_first()[l - 1] == levels[l]);
        lemma_place_in_line(levels.drop_first(), l - 1, i);
    }
}

/// Price-time priority, in terms of sequence numbers. Of two orders that
/// rest at the same price on the same side, the one with the lower
/// sequence number stands first in line; and if a crossing touches the
/// later one at all, an earlier step of the crossing has taken the earlier
/// one off the book, by a fill of all it had open or by a cancellation.
pub proof fn lemma_price_time_priority(
    side: OrderSide,
    levels: Seq<LevelView>,
    taker: Taker,
    remaining: u64,
    l: int,
    i: int,
    j: int,
)
    requires
        book_ok(side, levels),
        0 <= l < levels.len(),
        0 <= i < levels[l].orders.len(),
        0 <= j < levels[l].orders.len(),
        levels[l].orders[i].sequence < levels[l].orders[j].sequence,
    ensures
        place_in_line(levels, l, i) < place_in_line(levels, l, j),
        place_in_line(levels, l, j) < cross(levels, taker, remaining).steps.len() ==> {
            let steps = cross(levels, taker, remaining).steps;
            &&& steps[place_in_line(levels, l, i)].maker() == levels[l].orders[i]
            &&& steps[place_in_line(levels, l, i)].removes()
            &&& steps[place_in_line(levels, l, j)].maker() == levels[l].orders[j]
        },
{
    assert(i < j) by {
        assert(levels[l].ok());
        if j < i {
            assert(levels[l].orders[j].sequence < levels[l].orders[i].sequence);
        }
    }
    lemma_place_gap(levels, l, i, j);
    lemma_place_in_line(levels, l, i);
    lemma_place_in_line(levels, l, j);
    lemma_cross_priority(levels, taker, remaining);
}

proof fn lemma_place_gap(levels: Seq<LevelView>, l: int, i: int, j: int)
    requires
        0 <= l,
    ensures
        place_in_line(levels, l, j) - place_in_line(levels, l, i) == j - i,
    decreases l,
{
    if l > 0 {
        lemma_place_gap(levels.drop_first(), l - 1, i, j);
    }
}

/// What the last step leaves of its order: the order with its fill, if the
/// step is a partial fill.
pub open spec fn residue(steps: Seq<Step>) -> Seq<RestingOrder> {
    if steps.len() > 0 && !steps.last().removes() {
        seq![steps.last().maker().with_fill(steps.last().traded())]
    } else {
        Seq::empty()
    }
}

proof fn lemma_after_priority(levels: Seq<LevelView>, rest: Crossed, step: Step)
    requires
        levels.len() > 0,
        levels[0].orders.len() > 0,
        step.maker() == levels[0].orders[0],
        step.removes(),
        flat(levels).len() > 0,
        flat(levels)[0] == levels[0].orders[0],
        flat(popped_best(levels)) == flat(levels).drop_first(),
        rest.steps.len() <= flat(popped_best(levels)).len(),
        forall|i: int|
            0 <= i < rest.steps.len() ==> (#[trigger] rest.steps[i]).maker() == flat(
                popped_best(levels),
            )[i],
        forall|i: int| 0 <= i < rest.steps.len() - 1 ==> (#[trigger] rest.steps[i]).removes(),
        flat(rest.levels) == residue(rest.steps) + flat(popped_best(levels)).skip(
            rest.steps.len() as int,
        ),
    ensures
        rest.after(step).steps.len() <= flat(levels).len(),
        forall|i: int|
            0 <= i < rest.after(step).steps.len() ==> (#[trigger] rest.after(
                step,
            ).steps[i]).maker() == flat(levels)[i],
        forall|i: int|
            0 <= i < rest.after(step).steps.len() - 1 ==> (#[trigger] rest.after(
                step,
            ).steps[i]).removes(),
        flat(rest.after(step).levels) == residue(rest.after(step).steps) + flat(levels).skip(
            rest.after(step).steps.len() as int,
        ),
{
    let out = rest.after(step);
    let line = flat(levels);
    assert forall|i: int| 0 <= i < out.steps.len() implies (#[trigger] out.steps[i]).maker()
        == line[i] by {
        if i > 0 {
            assert(out.steps[i] == rest.steps[i - 1]);
            assert(line.drop_first()[i - 1] == line[i]);
        }
    }
    assert forall|i: int| 0 <= i < out.steps.len() - 1 implies (
    #[trigger] out.steps[i]).removes() by {
        if i > 0 {
            assert(out.steps[i] == rest.steps[i - 1]);
        }
    }
    if rest.steps.len() > 0 {
        assert(out.steps.last() == rest.steps.last());
    }
    assert(residue(out.steps) =~= residue(rest.steps));
    assert(line.drop_first().skip(rest.steps.len() as int) =~= line.skip(
        out.steps.len() as int,
    ));
}

/// What `match_against` hands back; the book itself is changed in place.
#[derive(Debug)]
pub struct Matched {
    /// What was done, in the order in which it was done.
    pub steps: Vec<Step>,
    /// What the incoming order still wants.
    pub remaining: u64,
    /// Whether self-trade prevention ended the crossing.
    pub stopped: bool,
}

/// Crosses `taker`, wanting `quantity`, against `book`.
pub fn match_against(book: &mut HalfBook, taker: &Taker, quantity: u64) -> (out: Matched)
    requires
        old(book).wf(),
    ensures
        final(book).wf(),
        final(book).spec_side() == old(book).spec_side(),
        final(book)@ == cross(old(book)@, *taker, quantity).levels,
        out.steps@ == cross(old(book)@, *taker, quantity).steps,
        out.remaining == cross(old(book)@, *taker, quantity).remaining,
        out.stopped == cross(old(book)@, *taker, quantity).stopped,
{
    let mut steps: Vec<Step> = Vec::new();
    let mut remaining: u64 = quantity;
    let mut stopped: bool = false;
    let mut done: bool = false;
    let ghost goal = cross(old(book)@, *taker, quantity);
    proof {
        assert(cross(book@, *taker, remaining).after_all(steps@).steps =~= goal.steps);
        lemma_total_orders_nonneg(book@);
    }
    while remaining > 0 && !done
        invariant
            book.wf(),
            book.spec_side() == old(book).spec_side(),
            total_orders(book@) >= 0,
            !done ==> !stopped && goal == cross(book@, *taker, remaining).after_all(steps@),
            done ==> goal == (Crossed { levels: book@, steps: steps@, remaining, stopped }),
        decreases total_orders(book@) + (if done { 0int } else { 1int }),
    {
        let ghost levels = book@;
        let ghost before = steps@;
        match book.best_head() {
            None => {
                proof {
                    assert(before + Seq::<Step>::empty() =~= before);
                }
                done = true;
            },
            Some(maker) => {
                let price: u64 = book.level_at(0).price();
                assert(levels[0].ok());
                assert(maker.is_resting());
                if !taker.reaches_exec(price) {
                    proof {
                        assert(before + Seq::<Step>::empty() =~= before);
                    }
                    done = true;
                } else {
                    let own: bool = maker.account == taker.account;
                    let policy = taker.policy;
                    proof {
                        lemma_total_orders_popped(levels);
                        lemma_total_orders_nonneg(popped_best(levels));
                    }
                    let prevented: bool = match policy {
                        SelfTradePolicy::Allow => false,
                        _ => own,
                    };
                    if prevented {
                        match policy {
                            SelfTradePolicy::CancelTaker => {
                                proof {
                                    assert(before + Seq::<Step>::empty() =~= before);
                                }
                                stopped = true;
                                done = true;
                            },
                            SelfTradePolicy::CancelBoth => {
                                book.pop_best();
                                steps.push(Step::MakerCancelled { maker, price });
                                proof {
                                    assert(before + seq![Step::MakerCancelled { maker, price }]
                                        =~= steps@);
                                }
                                stopped = true;
                                done = true;
                            },
                            _ => {
                                book.pop_best();
                                steps.push(Step::MakerCancelled { maker, price });
                                proof {
                                    let rest = cross(book@, *taker, remaining);
                                    assert(before + (seq![Step::MakerCancelled { maker, price }]
                                        + rest.steps) =~= steps@ + rest.steps);
                                }
                            },
                        }
                    } else {
                        let open: u64 = maker.quantity - maker.filled;
                        if remaining < open {
                            proof {
                                crate::half_book::lemma_total_orders_filled(
                                    levels,
                                    remaining as int,
                                );
                            }
                            book.fill_best(remaining);
                            steps.push(Step::Fill { maker, price, quantity: remaining });
                            proof {
                                assert(before + seq![Step::Fill { maker, price, quantity: remaining }]
                                    =~= steps@);
                            }
                            remaining = 0;
                            done = true;
                        } else {
                            book.pop_best();
                            steps.push(Step::Fill { maker, price, quantity: open });
                            remaining = remaining - open;
                            proof {
                                let rest = cross(book@, *taker, remaining);
                                assert(before + (seq![Step::Fill { maker, price, quantity: open }]
                                    + rest.steps) =~= steps@ + rest.steps);
                            }
                        }
                    }
                }
            },
        }
    }
    proof {
        if !done {
            assert(steps@ + Seq::<Step>::empty() =~= steps@);
        }
    }
    Matched { steps, remaining, stopped }
}

} // verus!
