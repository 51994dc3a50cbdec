//! One price level: the first-in-first-out queue of the orders that rest at
//! one price, with the sum of their open quantities kept beside it.
//!
//! Prices and quantities are counted in the symbol's smallest units (see
//! `SymbolMeta`), so everything here is integer arithmetic.

use vstd::prelude::*;

verus! {

/// The largest quantity an order can have, in quantity units: with it the
/// sum over any queue stays within a 128-bit mantissa.
pub const MAX_QUANTITY: u64 = 0x7fff_ffff_ffff_ffff;

/// An order resting on the book.
#[derive(Clone, Copy, Debug, PartialEq, Eq, Structural)]
pub struct RestingOrder {
    /// The order's identifier.
    pub id: u128,
    /// The account that owns it.
    pub account: u128,
    /// Original quantity.
    pub quantity: u64,
    /// Quantity filled so far.
    pub filled: u64,
    /// The engine sequence at which it came to rest.
    pub sequence: u64,
}

impl RestingOrder {
    /// What is still open: original minus filled.
    pub open spec fn open_quantity(self) -> int {
        self.quantity - self.filled
    }

    /// A resting order has something left to fill.
    pub open spec fn is_resting(self) -> bool {
        self.filled < self.quantity <= MAX_QUANTITY
    }

    /// The order after `qty` more of it was filled.
    pub open spec fn with_fill(self, qty: int) -> RestingOrder {
        RestingOrder { filled: (self.filled + qty) as u64, ..self }
    }

    /// The order with its original quantity cut to `quantity`.
    pub open spec fn with_quantity(self, quantity: u64) -> RestingOrder {
        RestingOrder { quantity, ..self }
    }

    pub fn remaining(&self) -> (r: u64)
        requires
            self.is_resting(),
        ensures
            r == self.open_quantity(),
            r > 0,
    {
        self.quantity - self.filled
    }
}

/// The sum of the open quantities of a queue.
pub open spec fn total_open(orders: Seq<RestingOrder>) -> int
    decreases orders.len(),
{
    if orders.len() == 0 {
        0
    } else {
        total_open(orders.drop_last()) + orders.last().open_quantity()
    }
}

/// A queue holds resting orders only, in the order of their arrival.
pub open spec fn queue_ok(orders: Seq<RestingOrder>) -> bool {
    &&& forall|i: int| 0 <= i < orders.len() ==> (#[trigger] orders[i]).is_resting()
    &&& forall|i: int, j: int|
        0 <= i < j < orders.len() ==> (#[trigger] orders[i]).sequence < (
        #[trigger] orders[j]).sequence
}

/// The place of the first order with identifier `id`, or the queue's length
/// if there is none.
pub open spec fn first_with_id(orders: Seq<RestingOrder>, id: u128) -> int
    decreases orders.len(),
{
    if orders.len() == 0 {
        0
    } else if orders[0].id == id {
        0
    } else {
        1 + first_with_id(orders.drop_first(), id)
    }
}

/// The first order with an identifier stands at the first place whose
/// order has it.
pub proof fn lemma_first_with_id(orders: Seq<RestingOrder>, id: u128, i: int)
    requires
        0 <= i <= orders.len(),
        forall|k: int| 0 <= k < i ==> (#[trigger] orders[k]).id != id,
        i < orders.len() ==> orders[i].id == id,
    ensures
        first_with_id(orders, id) == i,
    decreases orders.len(),
{
    if orders.len() > 0 && i > 0 {
        let rest = orders.drop_first();
        assert(orders[0].id != id);
        assert forall|k: int| 0 <= k < i - 1 implies (#[trigger] rest[k]).id != id by {
            assert(rest[k] == orders[k + 1]);
        }
        lemma_first_with_id(rest, id, i - 1);
    }
}

/// The place of the first order with an identifier is a place of the queue
/// or its end; no order before it has the identifier, and the order at it
/// has.
pub proof fn lemma_first_with_id_range(orders: Seq<RestingOrder>, id: u128)
    ensures
        0 <= first_with_id(orders, id) <= orders.len(),
        first_with_id(orders, id) < orders.len() ==> orders[first_with_id(orders, id)].id == id,
        forall|k: int| 0 <= k < first_with_id(orders, id) ==> (#[trigger] orders[k]).id != id,
    decreases orders.len(),
{
    if orders.len() > 0 && orders[0].id != id {
        let rest = orders.drop_first();
        lemma_first_with_id_range(rest, id);
        assert forall|k: int| 0 <= k < first_with_id(orders, id) implies (
        #[trigger] orders[k]).id != id by {
            if k > 0 {
                assert(orders[k] == rest[k - 1]);
            }
        }
    }
}

/// The sum over two queues joined is the sum of their sums.
pub proof fn lemma_total_open_concat(a: Seq<RestingOrder>, b: Seq<RestingOrder>)
    ensures
        total_open(a + b) == total_open(a) + total_open(b),
    decreases b.len(),
{
    if b.len() == 0 {
        assert(a + b =~= a);
    } else {
        lemma_total_open_concat(a, b.drop_last());
        assert((a + b).drop_last() =~= a + b.drop_last());
        assert((a + b).last() == b.last());
    }
}

/// The sum over one order is what it has open.
pub proof fn lemma_total_open_single(o: RestingOrder)
    ensures
        total_open(seq![o]) == o.open_quantity(),
{
    assert(seq![o].drop_last() =~= Seq::<RestingOrder>::empty());
    assert(total_open(Seq::<RestingOrder>::empty()) == 0);
}

/// The sum over a queue is what its head has open plus the sum over the
/// rest.
pub proof fn lemma_total_open_head(orders: Seq<RestingOrder>)
    requires
        orders.len() > 0,
    ensures
        total_open(orders) == orders[0].open_quantity() + total_open(orders.drop_first()),
{
    lemma_total_open_single(orders[0]);
    lemma_total_open_concat(seq![orders[0]], orders.drop_first());
    assert(seq![orders[0]] + orders.drop_first() =~= orders);
}

/// Taking an order out of a queue takes what it has open off the sum.
pub proof fn lemma_total_open_remove(orders: Seq<RestingOrder>, i: int)
    requires
        0 <= i < orders.len(),
    ensures
        total_open(orders.remove(i)) == total_open(orders) - orders[i].open_quantity(),
{
    let a = orders.subrange(0, i);
    let b = orders.subrange(i + 1, orders.len() as int);
    lemma_total_open_single(orders[i]);
    lemma_total_open_concat(a, b);
    lemma_total_open_concat(a, seq![orders[i]]);
    lemma_total_open_concat(a + seq![orders[i]], b);
    assert((a + seq![orders[i]]) + b =~= orders);
    assert(orders.remove(i) =~= a + b);
}

/// Replacing an order in a queue changes the sum by the difference of
/// what the two have open.
pub proof fn lemma_total_open_update(orders: Seq<RestingOrder>, i: int, o: RestingOrder)
    requires
        0 <= i < orders.len(),
    ensures
        total_open(orders.update(i, o)) == total_open(orders) - orders[i].open_quantity()
            + o.open_quantity(),
{
    let a = orders.subrange(0, i);
    let b = orders.subrange(i + 1, orders.len() as int);
    lemma_total_open_single(orders[i]);
    lemma_total_open_single(o);
    lemma_total_open_concat(a, seq![orders[i]]);
    lemma_total_open_concat(a + seq![orders[i]], b);
    lemma_total_open_concat(a, seq![o]);
    lemma_total_open_concat(a + seq![o], b);
    assert((a + seq![orders[i]]) + b =~= orders);
    assert((a + seq![o]) + b =~= orders.update(i, o));
}

/// Each resting order has between 1 and `MAX_QUANTITY` open, so the sum is
/// between the length and the length times `MAX_QUANTITY`.
pub proof fn lemma_total_open_bound(orders: Seq<RestingOrder>)
    requires
        forall|i: int| 0 <= i < orders.len() ==> (#[trigger] orders[i]).is_resting(),
    ensures
        orders.len() <= total_open(orders) <= orders.len() * MAX_QUANTITY,
    decreases orders.len(),
{
    if orders.len() > 0 {
        let rest = orders.drop_last();
        assert forall|i: int| 0 <= i < rest.len() implies (#[trigger] rest[i]).is_resting() by {
            assert(rest[i] == orders[i]);
        }
        lemma_total_open_bound(rest);
        assert(orders.last() == orders[orders.len() - 1]);
        assert(orders.last().is_resting());
        let n = rest.len() as int;
        assert((n + 1) * 0x7fff_ffff_ffff_ffff == n * 0x7fff_ffff_ffff_ffff
            + 0x7fff_ffff_ffff_ffff) by (nonlinear_arith);
    }
}

/// What a price level is: its price and its queue, oldest order first.
pub struct LevelView {
    pub price: u64,
    pub orders: Seq<RestingOrder>,
}

impl LevelView {
    /// The level with `order` appended to the tail.
    pub open spec fn pushed(self, order: RestingOrder) -> LevelView {
        LevelView { price: self.price, orders: self.orders.push(order) }
    }

    /// The level without its head.
    pub open spec fn popped(self) -> LevelView {
        LevelView { price: self.price, orders: self.orders.drop_first() }
    }

    /// The level without the order at place `i`.
    pub open spec fn without(self, i: int) -> LevelView {
        LevelView { price: self.price, orders: self.orders.remove(i) }
    }

    /// The level with the order at place `i` replaced.
    pub open spec fn with_order(self, i: int, order: RestingOrder) -> LevelView {
        LevelView { price: self.price, orders: self.orders.update(i, order) }
    }

    /// The level after `qty` was filled against its head: the head keeps
    /// its place while anything of it is open, and leaves when nothing is.
    pub open spec fn filled(self, qty: int) -> LevelView {
        if qty == self.orders[0].open_quantity() {
            self.popped()
        } else {
            self.with_order(0, self.orders[0].with_fill(qty))
        }
    }

    /// The sum of the open quantities.
    pub open spec fn aggregate(self) -> int {
        total_open(self.orders)
    }

    /// The level's queue is in order.
    pub open spec fn ok(self) -> bool {
        queue_ok(self.orders)
    }

    /// Every order of the level came to rest before sequence `bound`.
    pub open spec fn before(self, bound: int) -> bool {
        forall|j: int| 0 <= j < self.orders.len() ==> (#[trigger] self.orders[j]).sequence < bound
    }
}

/// The sum over a queue in order fits a 128-bit signed mantissa.
pub proof fn lemma_aggregate_fits(level: LevelView)
    requires
        level.ok(),
        level.orders.len() <= usize::MAX,
    ensures
        0 <= level.aggregate() <= 0x7fff_ffff_ffff_ffff_ffff_ffff_ffff_ffff,
{
    lemma_total_open_bound(level.orders);
    let n = level.orders.len() as int;
    assert(n * 0x7fff_ffff_ffff_ffff <= 0xffff_ffff_ffff_ffff * 0x7fff_ffff_ffff_ffff)
        by (nonlinear_arith)
        requires
            0 <= n <= 0xffff_ffff_ffff_ffff,
    ;
}

/// A newer resting order at the tail keeps the queue in order.
pub proof fn lemma_pushed_ok(level: LevelView, order: RestingOrder, bound: int)
    requires
        level.ok(),
        order.is_resting(),
        level.before(order.sequence as int),
        level.before(bound),
        order.sequence < bound,
    ensures
        level.pushed(order).ok(),
        level.pushed(order).before(bound),
{
}

/// Taking the head off keeps the queue in order.
pub proof fn lemma_popped_ok(level: LevelView, bound: int)
    requires
        level.ok(),
        level.before(bound),
        level.orders.len() > 0,
    ensures
        level.popped().ok(),
        level.popped().before(bound),
{
    let rest = level.popped().orders;
    assert forall|i: int| 0 <= i < rest.len() implies (#[trigger] rest[i]) == level.orders[i + 1] by {}
}

/// Taking any order out keeps the queue in order.
pub proof fn lemma_without_ok(level: LevelView, i: int, bound: int)
    requires
        level.ok(),
        level.before(bound),
        0 <= i < level.orders.len(),
    ensures
        level.without(i).ok(),
        level.without(i).before(bound),
{
    let rest = level.without(i).orders;
    assert forall|k: int| 0 <= k < rest.len() implies (#[trigger] rest[k]) == (if k < i {
        level.orders[k]
    } else {
        level.orders[k + 1]
    }) by {}
}

/// A fill of the head, of no more than it has open, keeps the queue in
/// order.
pub proof fn lemma_filled_ok(level: LevelView, qty: int, bound: int)
    requires
        level.ok(),
        level.before(bound),
        level.orders.len() > 0,
        0 < qty <= level.orders[0].open_quantity(),
    ensures
        level.filled(qty).ok(),
        level.filled(qty).before(bound),
{
    if qty == level.orders[0].open_quantity() {
        lemma_popped_ok(level, bound);
    } else {
        let after = level.filled(qty).orders;
        assert forall|k: int| 0 <= k < after.len() implies (#[trigger] after[k]).sequence
            == level.orders[k].sequence && after[k].is_resting() by {
            assert(level.orders[k].is_resting());
        }
    }
}

/// Cutting the quantity of an order, to more than it has filled, keeps the
/// queue in order.
pub proof fn lemma_with_quantity_ok(level: LevelView, i: int, quantity: u64, bound: int)
    requires
        level.ok(),
        level.before(bound),
        0 <= i < level.orders.len(),
        level.orders[i].filled < quantity <= level.orders[i].quantity,
    ensures
        level.with_order(i, level.orders[i].with_quantity(quantity)).ok(),
        level.with_order(i, level.orders[i].with_quantity(quantity)).before(bound),
{
    let after = level.with_order(i, level.orders[i].with_quantity(quantity)).orders;
    assert forall|k: int| 0 <= k < after.len() implies (#[trigger] after[k]).sequence
        == level.orders[k].sequence && after[k].is_resting() by {
        assert(level.orders[k].is_resting());
    }
}

/// The queue of the orders resting at one price.
#[derive(Debug)]
pub struct PriceLevel {
    price: u64,
    orders: Vec<RestingOrder>,
    aggregate: u128,
}

impl View for PriceLevel {
    type V = LevelView;

    closed spec fn view(&self) -> LevelView {
        LevelView { price: self.price, orders: self.orders@ }
    }
}

impl PriceLevel {
    /// The aggregate as it is stored.
    pub closed spec fn stored_aggregate(&self) -> int {
        self.aggregate as int
    }

    /// The queue is in order and the stored aggregate is the sum of the open
    /// quantities.
    pub open spec fn wf(&self) -> bool {
        &&& self@.ok()
        &&& self.stored_aggregate() == self@.aggregate()
    }

    /// An empty level at `price`.
    pub fn new(price: u64) -> (level: PriceLevel)
        ensures
            level.wf(),
            level@ == (LevelView { price, orders: Seq::empty() }),
    {
        PriceLevel { price, orders: Vec::new(), aggregate: 0 }
    }

    pub fn price(&self) -> (p: u64)
        ensures
            p == self@.price,
    {
        self.price
    }

    /// How many orders are queued.
    pub fn len(&self) -> (n: usize)
        ensures
            n == self@.orders.len(),
    {
        self.orders.len()
    }

    pub fn is_empty(&self) -> (b: bool)
        ensures
            b == (self@.orders.len() == 0),
    {
        self.orders.len() == 0
    }

    /// The stored aggregate, which is the sum of `original - filled` over the
    /// queue.
    pub fn total_quantity(&self) -> (q: u128)
        requires
            self.wf(),
        ensures
            q == total_open(self@.orders),
            q <= 0x7fff_ffff_ffff_ffff_ffff_ffff_ffff_ffff,
    {
        let n: usize = self.orders.len();
        proof {
            lemma_aggregate_fits(self@);
        }
        self.aggregate
    }

    /// A copy of the level.
    pub fn snapshot(&self) -> (copy: PriceLevel)
        requires
            self.wf(),
        ensures
            copy.wf(),
            copy@ == self@,
    {
        let mut orders: Vec<RestingOrder> = Vec::new();
        let mut i: usize = 0;
        while i < self.orders.len()
            invariant
                i <= self.orders@.len(),
                orders@ == self.orders@.take(i as int),
            decreases self.orders@.len() - i,
        {
            orders.push(self.orders[i]);
            proof {
                assert(orders@ =~= self.orders@.take(i + 1));
            }
            i = i + 1;
        }
        proof {
            assert(self.orders@.take(i as int) =~= self.orders@);
        }
        PriceLevel { price: self.price, orders, aggregate: self.aggregate }
    }

    /// The order at place `i`, the head being at place 0.
    pub fn get(&self, i: usize) -> (order: RestingOrder)
        requires
            i < self@.orders.len(),
        ensures
            order == self@.orders[i as int],
    {
        self.orders[i]
    }

    /// The head of the queue, which stays queued.
    pub fn peek(&self) -> (head: Option<RestingOrder>)
        ensures
            self@.orders.len() == 0 ==> head is None,
            self@.orders.len() > 0 ==> head == Some(self@.orders[0]),
    {
        if self.orders.len() == 0 {
            None
        } else {
            Some(self.orders[0])
        }
    }

    /// Appends `order` to the tail and adds its open quantity to the
    /// aggregate.
    pub fn push(&mut self, order: RestingOrder)
        requires
            old(self).wf(),
            order.is_resting(),
            old(self)@.orders.len() > 0 ==> old(self)@.orders.last().sequence < order.sequence,
        ensures
            final(self).wf(),
            final(self)@ == old(self)@.pushed(order),
    {
        self.orders.push(order);
        let n: usize = self.orders.len();
        proof {
            let before = old(self)@.orders;
            let after = self.orders@;
            assert(after.drop_last() =~= before);
            assert forall|i: int, j: int| 0 <= i < j < after.len() implies (
            #[trigger] after[i]).sequence < (#[trigger] after[j]).sequence by {
                if j == before.len() && i < before.len() - 1 {
                    assert(before[i].sequence < before.last().sequence);
                }
            }
            lemma_total_open_bound(after);
            assert(after.len() * 0x7fff_ffff_ffff_ffff <= 0xffff_ffff_ffff_ffff
                * 0x7fff_ffff_ffff_ffff) by (nonlinear_arith)
                requires
                    after.len() == n,
                    n <= 0xffff_ffff_ffff_ffff,
            ;
        }
        self.aggregate = self.aggregate + (order.quantity - order.filled) as u128;
    }

    /// Removes the head and takes its open quantity off the aggregate.
    pub fn pop(&mut self) -> (head: Option<RestingOrder>)
        requires
            old(self).wf(),
        ensures
            final(self).wf(),
            old(self)@.orders.len() == 0 ==> head is None && final(self)@ == old(self)@,
            old(self)@.orders.len() > 0 ==> head == Some(old(self)@.orders[0]) && final(self)@
                == old(self)@.popped(),
    {
        if self.orders.len() == 0 {
            None
        } else {
            Some(self.remove_at(0))
        }
    }

    /// Removes the order at place `i`.
    pub fn remove_at(&mut self, i: usize) -> (order: RestingOrder)
        requires
            old(self).wf(),
            i < old(self)@.orders.len(),
        ensures
            final(self).wf(),
            order == old(self)@.orders[i as int],
            final(self)@ == old(self)@.without(i as int),
            i == 0 ==> final(self)@ == old(self)@.popped(),
    {
        proof {
            lemma_total_open_remove(self.orders@, i as int);
            lemma_total_open_bound(self.orders@.remove(i as int));
            assert(self.orders@.remove(0) =~= self.orders@.drop_first());
        }
        let order = self.orders.remove(i);
        self.aggregate = self.aggregate - (order.quantity - order.filled) as u128;
        order
    }

    /// The place of the first order with identifier `id`.
    pub fn position_of(&self, id: u128) -> (place: Option<usize>)
        ensures
            place is Some <==> first_with_id(self@.orders, id) < self@.orders.len(),
            place matches Some(i) ==> i == first_with_id(self@.orders, id),
    {
        let mut i: usize = 0;
        while i < self.orders.len()
            invariant
                i <= self.orders@.len(),
                forall|k: int| 0 <= k < i ==> (#[trigger] self.orders@[k]).id != id,
            decreases self.orders@.len() - i,
        {
            if self.orders[i].id == id {
                proof {
                    lemma_first_with_id(self.orders@, id, i as int);
                }
                return Some(i);
            }
            i = i + 1;
        }
        proof {
            lemma_first_with_id(self.orders@, id, i as int);
        }
        None
    }

    /// Removes the first order with identifier `id`, wherever it stands in
    /// the queue.
    pub fn remove_by_id(&mut self, id: u128) -> (order: Option<RestingOrder>)
        requires
            old(self).wf(),
        ensures
            final(self).wf(),
            first_with_id(old(self)@.orders, id) == old(self)@.orders.len() ==> order is None
                && final(self)@ == old(self)@,
            first_with_id(old(self)@.orders, id) < old(self)@.orders.len() ==> order == Some(
                old(self)@.orders[first_with_id(old(self)@.orders, id)],
            ) && final(self)@ == old(self)@.without(first_with_id(old(self)@.orders, id)),
    {
        proof {
            lemma_first_with_id_range(self@.orders, id);
        }
        match self.position_of(id) {
            Some(i) => Some(self.remove_at(i)),
            None => None,
        }
    }

    /// Fills `qty` against the head: its remaining quantity and the
    /// aggregate go down by `qty`, and the head leaves the queue when
    /// nothing of it remains. Returns the head as it was before.
    pub fn apply_fill(&mut self, qty: u64) -> (head: RestingOrder)
        requires
            old(self).wf(),
            old(self)@.orders.len() > 0,
            0 < qty <= old(self)@.orders[0].open_quantity(),
        ensures
            final(self).wf(),
            head == old(self)@.orders[0],
            final(self)@ == old(self)@.filled(qty as int),
    {
        let head = self.orders[0];
        if qty == head.quantity - head.filled {
            self.remove_at(0)
        } else {
            let after = RestingOrder {
                id: head.id,
                account: head.account,
                quantity: head.quantity,
                filled: head.filled + qty,
                sequence: head.sequence,
            };
            proof {
                lemma_total_open_update(self.orders@, 0, after);
                lemma_total_open_bound(self.orders@.update(0, after));
            }
            self.orders.set(0, after);
            self.aggregate = self.aggregate - qty as u128;
            head
        }
    }

    /// Cuts the original quantity of the order at place `i` to `quantity`,
    /// which leaves it its place in the queue.
    pub fn reduce_quantity(&mut self, i: usize, quantity: u64)
        requires
            old(self).wf(),
            i < old(self)@.orders.len(),
            old(self)@.orders[i as int].filled < quantity <= old(self)@.orders[i as int].quantity,
        ensures
            final(self).wf(),
            final(self)@ == old(self)@.with_order(
                i as int,
                old(self)@.orders[i as int].with_quantity(quantity),
            ),
    {
        let before = self.orders[i];
        let after = RestingOrder {
            id: before.id,
            account: before.account,
            quantity,
            filled: before.filled,
            sequence: before.sequence,
        };
        proof {
            lemma_total_open_update(self.orders@, i as int, after);
            lemma_total_open_bound(self.orders@.update(i as int, after));
        }
        self.orders.set(i, after);
        self.aggregate = self.aggregate - (before.quantity - quantity) as u128;
    }
}

} // verus!
