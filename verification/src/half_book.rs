//! One side of the book: the price levels of the bids or of the asks, best
//! price first.
//!
//! The levels are held in a vector sorted by priority, which stands for the
//! ordered map from price to level: no price occurs twice, bids run from the
//! highest price down, asks from the lowest up, and a level is dropped as
//! soon as its queue is empty.

use crate::models::OrderSide;
use crate::price_level::{first_with_id, LevelView, PriceLevel, RestingOrder};
use vstd::prelude::*;

verus! {

/// Whether price `a` has priority over price `b` on `side`: the higher bid,
/// the lower ask.
pub open spec fn better(side: OrderSide, a: u64, b: u64) -> bool {
    match side {
        OrderSide::Buy => a > b,
        OrderSide::Sell => a < b,
    }
}

/// The levels are in strict priority order and each queue is in order.
pub open spec fn book_sorted(side: OrderSide, levels: Seq<LevelView>) -> bool {
    &&& forall|i: int| 0 <= i < levels.len() ==> (#[trigger] levels[i]).ok()
    &&& forall|i: int, j: int|
        0 <= i < j < levels.len() ==> better(
            side,
            (#[trigger] levels[i]).price,
            (#[trigger] levels[j]).price,
        )
}

/// A book at rest: sorted, and no level is empty.
pub open spec fn book_ok(side: OrderSide, levels: Seq<LevelView>) -> bool {
    &&& book_sorted(side, levels)
    &&& forall|i: int| 0 <= i < levels.len() ==> (#[trigger] levels[i]).orders.len() > 0
}

/// Every resting order came to rest before sequence `bound`.
pub open spec fn all_before(levels: Seq<LevelView>, bound: int) -> bool {
    forall|i: int| 0 <= i < levels.len() ==> (#[trigger] levels[i]).before(bound)
}

/// How many levels have priority over `price`: the place of the level at
/// `price`, or the place where one would go.
pub open spec fn rank(side: OrderSide, levels: Seq<LevelView>, price: u64) -> int
    decreases levels.len(),
{
    if levels.len() == 0 || !better(side, levels[0].price, price) {
        0
    } else {
        1 + rank(side, levels.drop_first(), price)
    }
}

/// Whether a level at `price` exists.
pub open spec fn has_level(side: OrderSide, levels: Seq<LevelView>, price: u64) -> bool {
    let i = rank(side, levels, price);
    i < levels.len() && levels[i].price == price
}

/// The levels with level `i` replaced by `level`, or dropped if `level` is
/// empty.
pub open spec fn with_level(levels: Seq<LevelView>, i: int, level: LevelView) -> Seq<LevelView> {
    if level.orders.len() == 0 {
        levels.remove(i)
    } else {
        levels.update(i, level)
    }
}

/// The book after `order` came to rest at `price`: at the tail of that
/// price's level, which is created in its place if it was missing.
pub open spec fn inserted(
    side: OrderSide,
    levels: Seq<LevelView>,
    price: u64,
    order: RestingOrder,
) -> Seq<LevelView> {
    let i = rank(side, levels, price);
    if has_level(side, levels, price) {
        levels.update(i, levels[i].pushed(order))
    } else {
        levels.insert(i, LevelView { price, orders: seq![order] })
    }
}

/// The book after `qty` was filled against the head of the best level.
pub open spec fn filled_best(levels: Seq<LevelView>, qty: int) -> Seq<LevelView> {
    with_level(levels, 0, levels[0].filled(qty))
}

/// The book without the head of the best level.
pub open spec fn popped_best(levels: Seq<LevelView>) -> Seq<LevelView> {
    with_level(levels, 0, levels[0].popped())
}

/// The book without the first order with identifier `id` at `price`; the
/// book itself if there is no such order.
pub open spec fn removed(side: OrderSide, levels: Seq<LevelView>, price: u64, id: u128) -> Seq<
    LevelView,
> {
    let i = rank(side, levels, price);
    if has_level(side, levels, price) && first_with_id(levels[i].orders, id)
        < levels[i].orders.len() {
        with_level(levels, i, levels[i].without(first_with_id(levels[i].orders, id)))
    } else {
        levels
    }
}

/// The first order with identifier `id` at `price`, if there is one.
pub open spec fn found(side: OrderSide, levels: Seq<LevelView>, price: u64, id: u128) -> Option<
    RestingOrder,
> {
    let i = rank(side, levels, price);
    if has_level(side, levels, price) && first_with_id(levels[i].orders, id)
        < levels[i].orders.len() {
        Some(levels[i].orders[first_with_id(levels[i].orders, id)])
    } else {
        None
    }
}

/// The book with the original quantity of the first order with identifier
/// `id` at `price` cut to `quantity`.
pub open spec fn reduced(
    side: OrderSide,
    levels: Seq<LevelView>,
    price: u64,
    id: u128,
    quantity: u64,
) -> Seq<LevelView> {
    let i = rank(side, levels, price);
    let j = first_with_id(levels[i].orders, id);
    levels.update(i, levels[i].with_order(j, levels[i].orders[j].with_quantity(quantity)))
}

/// The book without the level at `price`, if that level is empty.
pub open spec fn dropped_if_empty(side: OrderSide, levels: Seq<LevelView>, price: u64) -> Seq<
    LevelView,
> {
    let i = rank(side, levels, price);
    if has_level(side, levels, price) && levels[i].orders.len() == 0 {
        levels.remove(i)
    } else {
        levels
    }
}

/// How many orders rest in the book.
pub open spec fn total_orders(levels: Seq<LevelView>) -> int
    decreases levels.len(),
{
    if levels.len() == 0 {
        0
    } else {
        levels[0].orders.len() + total_orders(levels.drop_first())
    }
}

/// The rank of a price is a place of the book or its end; every level before
/// it has a better price, and the level at it has not.
pub proof fn lemma_rank_range(side: OrderSide, levels: Seq<LevelView>, price: u64)
    ensures
        0 <= rank(side, levels, price) <= levels.len(),
        forall|k: int|
            0 <= k < rank(side, levels, price) ==> better(side, (#[trigger] levels[k]).price, price),
        rank(side, levels, price) < levels.len() ==> !better(
            side,
            levels[rank(side, levels, price)].price,
            price,
        ),
    decreases levels.len(),
{
    if levels.len() > 0 && better(side, levels[0].price, price) {
        let rest = levels.drop_first();
        lemma_rank_range(side, rest, price);
        assert forall|k: int| 0 <= k < rank(side, levels, price) implies better(
            side,
            (#[trigger] levels[k]).price,
            price,
        ) by {
            if k > 0 {
                assert(levels[k] == rest[k - 1]);
            }
        }
    }
}

/// The rank of a price is the first place whose level has no better price.
pub proof fn lemma_rank_is(side: OrderSide, levels: Seq<LevelView>, price: u64, i: int)
    requires
        0 <= i <= levels.len(),
        forall|k: int| 0 <= k < i ==> better(side, (#[trigger] levels[k]).price, price),
        i < levels.len() ==> !better(side, levels[i].price, price),
    ensures
        rank(side, levels, price) == i,
    decreases levels.len(),
{
    if levels.len() > 0 && i > 0 {
        let rest = levels.drop_first();
        assert(better(side, levels[0].price, price));
        assert forall|k: int| 0 <= k < i - 1 implies better(
            side,
            (#[trigger] rest[k]).price,
            price,
        ) by {
            assert(rest[k] == levels[k + 1]);
        }
        lemma_rank_is(side, rest, price, i - 1);
    }
}

/// A book holds no fewer than zero orders.
pub proof fn lemma_total_orders_nonneg(levels: Seq<LevelView>)
    ensures
        total_orders(levels) >= 0,
    decreases levels.len(),
{
    if levels.len() > 0 {
        lemma_total_orders_nonneg(levels.drop_first());
    }
}

/// Taking the best level's head out of the book takes one order out.
pub proof fn lemma_total_orders_popped(levels: Seq<LevelView>)
    requires
        levels.len() > 0,
        levels[0].orders.len() > 0,
    ensures
        total_orders(popped_best(levels)) == total_orders(levels) - 1,
{
    let l = levels[0].popped();
    if l.orders.len() == 0 {
        assert(levels.remove(0) =~= levels.drop_first());
    } else {
        assert(levels.update(0, l).drop_first() =~= levels.drop_first());
    }
}

/// A partial fill of the best level's head takes no order out.
pub proof fn lemma_total_orders_filled(levels: Seq<LevelView>, qty: int)
    requires
        levels.len() > 0,
        levels[0].orders.len() > 0,
        0 < qty < levels[0].orders[0].open_quantity(),
    ensures
        total_orders(filled_best(levels, qty)) == total_orders(levels),
{
    let l = levels[0].filled(qty);
    assert(levels.update(0, l).drop_first() =~= levels.drop_first());
}

/// Replacing a level by one of the same price with a queue in order, or
/// dropping it when that queue is empty, keeps the book in order, brings in
/// no newer order, and leaves no better best price than before.
pub proof fn lemma_with_level(
    side: OrderSide,
    levels: Seq<LevelView>,
    i: int,
    level: LevelView,
    bound: int,
)
    requires
        book_ok(side, levels),
        all_before(levels, bound),
        0 <= i < levels.len(),
        level.ok(),
        level.before(bound),
        level.price == levels[i].price,
    ensures
        book_ok(side, with_level(levels, i, level)),
        all_before(with_level(levels, i, level), bound),
        with_level(levels, i, level).len() > 0 ==> !better(
            side,
            with_level(levels, i, level)[0].price,
            levels[0].price,
        ),
{
    let after = with_level(levels, i, level);
    if level.orders.len() == 0 {
        assert forall|k: int| 0 <= k < after.len() implies (#[trigger] after[k]) == (if k < i {
            levels[k]
        } else {
            levels[k + 1]
        }) by {}
        assert forall|a: int, b: int| 0 <= a < b < after.len() implies better(
            side,
            (#[trigger] after[a]).price,
            (#[trigger] after[b]).price,
        ) by {
            let ia = if a < i {
                a
            } else {
                a + 1
            };
            let ib = if b < i {
                b
            } else {
                b + 1
            };
            assert(after[a] == levels[ia]);
            assert(after[b] == levels[ib]);
        }
        if after.len() > 0 {
            if i == 0 {
                assert(after[0] == levels[1]);
                assert(better(side, levels[0].price, levels[1].price));
            } else {
                assert(after[0] == levels[0]);
            }
        }
    } else {
        assert forall|k: int| 0 <= k < after.len() implies (#[trigger] after[k]).price
            == levels[k].price && (k != i ==> after[k] == levels[k]) by {}
        assert forall|a: int, b: int| 0 <= a < b < after.len() implies better(
            side,
            (#[trigger] after[a]).price,
            (#[trigger] after[b]).price,
        ) by {
            assert(after[a].price == levels[a].price);
            assert(after[b].price == levels[b].price);
        }
        assert(after[0].price == levels[0].price);
    }
}

/// Resting a newer order keeps the book in order; the best price is then
/// the better of the old best and the order's price.
pub proof fn lemma_inserted(
    side: OrderSide,
    levels: Seq<LevelView>,
    price: u64,
    order: RestingOrder,
    bound: int,
)
    requires
        book_ok(side, levels),
        all_before(levels, order.sequence as int),
        all_before(levels, bound),
        order.is_resting(),
        order.sequence < bound,
    ensures
        book_ok(side, inserted(side, levels, price, order)),
        all_before(inserted(side, levels, price, order), bound),
        inserted(side, levels, price, order).len() > 0,
        inserted(side, levels, price, order)[0].price == (if levels.len() == 0 || better(
            side,
            price,
            levels[0].price,
        ) {
            price
        } else {
            levels[0].price
        }),
{
    let i = rank(side, levels, price);
    let after = inserted(side, levels, price, order);
    lemma_rank_range(side, levels, price);
    if has_level(side, levels, price) {
        crate::price_level::lemma_pushed_ok(levels[i], order, bound);
        assert forall|k: int| 0 <= k < after.len() implies (#[trigger] after[k]).price
            == levels[k].price && (k != i ==> after[k] == levels[k]) by {}
        assert forall|a: int, b: int| 0 <= a < b < after.len() implies better(
            side,
            (#[trigger] after[a]).price,
            (#[trigger] after[b]).price,
        ) by {
            assert(after[a].price == levels[a].price);
            assert(after[b].price == levels[b].price);
        }
        if i > 0 {
            assert(better(side, levels[0].price, price));
        }
    } else {
        let fresh = LevelView { price, orders: seq![order] };
        assert forall|k: int| 0 <= k < after.len() implies (#[trigger] after[k]) == (if k < i {
            levels[k]
        } else if k == i {
            fresh
        } else {
            levels[k - 1]
        }) by {}
        assert(fresh.ok());
        assert(fresh.before(bound));
        assert forall|a: int, b: int| 0 <= a < b < after.len() implies better(
            side,
            (#[trigger] after[a]).price,
            (#[trigger] after[b]).price,
        ) by {
            let pa = if a < i {
                levels[a]
            } else if a == i {
                fresh
            } else {
                levels[a - 1]
            };
            let pb = if b < i {
                levels[b]
            } else if b == i {
                fresh
            } else {
                levels[b - 1]
            };
            assert(after[a] == pa);
            assert(after[b] == pb);
            if i < levels.len() {
                assert(!better(side, levels[i].price, price));
                assert(levels[i].price != price);
            }
        }
        if i > 0 {
            assert(better(side, levels[0].price, price));
            assert(after[0] == levels[0]);
        } else {
            assert(after[0] == fresh);
            if levels.len() > 0 {
                assert(!better(side, levels[0].price, price));
                assert(levels[0].price != price);
            }
        }
    }
}

/// One side of the book.
#[derive(Debug)]
pub struct HalfBook {
    side: OrderSide,
    levels: Vec<PriceLevel>,
}

impl View for HalfBook {
    type V = Seq<LevelView>;

    /// The levels, best price first.
    closed spec fn view(&self) -> Seq<LevelView> {
        Seq::new(self.levels@.len(), |i: int| self.levels@[i]@)
    }
}

impl HalfBook {
    pub closed spec fn spec_side(&self) -> OrderSide {
        self.side
    }

    /// Each level's stored aggregate is the sum of its queue's open
    /// quantities.
    pub closed spec fn aggregates_ok(&self) -> bool {
        forall|i: int|
            0 <= i < self.levels@.len() ==> (#[trigger] self.levels@[i]).stored_aggregate()
                == self.levels@[i]@.aggregate()
    }

    /// The invariant that holds while a level may still be empty.
    pub open spec fn inv(&self) -> bool {
        &&& book_sorted(self.spec_side(), self@)
        &&& self.aggregates_ok()
    }

    /// The invariant of a book at rest.
    pub open spec fn wf(&self) -> bool {
        &&& book_ok(self.spec_side(), self@)
        &&& self.aggregates_ok()
    }

    proof fn lemma_levels_wf(&self)
        requires
            self.inv(),
        ensures
            self@.len() == self.levels@.len(),
            forall|i: int| 0 <= i < self.levels@.len() ==> (#[trigger] self.levels@[i]).wf(),
            forall|i: int| 0 <= i < self.levels@.len() ==> (#[trigger] self.levels@[i])@ == self@[i],
    {
        assert forall|i: int| 0 <= i < self.levels@.len() implies (
        #[trigger] self.levels@[i]).wf() by {
            assert(self@[i].ok());
        }
    }

    /// An empty half-book for `side`.
    pub fn new(side: OrderSide) -> (book: HalfBook)
        ensures
            book.wf(),
            book@ == Seq::<LevelView>::empty(),
            book.spec_side() == side,
    {
        let book = HalfBook { side, levels: Vec::new() };
        assert(book@ =~= Seq::<LevelView>::empty());
        book
    }

    #[verifier::when_used_as_spec(spec_side)]
    pub fn side(&self) -> (s: OrderSide)
        ensures
            s == self.spec_side(),
    {
        self.side
    }

    pub fn is_empty(&self) -> (b: bool)
        ensures
            b == (self@.len() == 0),
    {
        self.levels.len() == 0
    }

    /// How many price levels the side has.
    pub fn level_count(&self) -> (n: usize)
        ensures
            n == self@.len(),
    {
        self.levels.len()
    }

    /// The best price: the highest bid, the lowest ask.
    pub fn best_price(&self) -> (p: Option<u64>)
        ensures
            self@.len() == 0 ==> p is None,
            self@.len() > 0 ==> p == Some(self@[0].price),
    {
        if self.levels.len() == 0 {
            None
        } else {
            Some(self.levels[0].price())
        }
    }

    /// The order that is first in line: the head of the best level.
    pub fn best_head(&self) -> (head: Option<RestingOrder>)
        requires
            self.wf(),
        ensures
            self@.len() == 0 ==> head is None,
            self@.len() > 0 ==> head == Some(self@[0].orders[0]),
    {
        if self.levels.len() == 0 {
            None
        } else {
            assert(self@[0].orders.len() > 0);
            self.levels[0].peek()
        }
    }

    /// The level at place `i` in priority order.
    pub fn level_at(&self, i: usize) -> (level: &PriceLevel)
        requires
            self.inv(),
            i < self@.len(),
        ensures
            level@ == self@[i as int],
            level.wf(),
    {
        proof {
            self.lemma_levels_wf();
        }
        &self.levels[i]
    }

    /// The place of the level at `price`, or where it would be put.
    fn locate(&self, price: u64) -> (i: usize)
        ensures
            i == rank(self.spec_side(), self@, price),
            i <= self@.len(),
    {
        let mut i: usize = 0;
        while i < self.levels.len()
            invariant
                i <= self.levels@.len(),
                self@.len() == self.levels@.len(),
                forall|k: int|
                    0 <= k < i ==> better(self.spec_side(), (#[trigger] self@[k]).price, price),
            decreases self.levels@.len() - i,
        {
            let p: u64 = self.levels[i].price();
            let ahead: bool = match self.side {
                OrderSide::Buy => p > price,
                OrderSide::Sell => p < price,
            };
            if !ahead {
                proof {
                    lemma_rank_is(self.spec_side(), self@, price, i as int);
                }
                return i;
            }
            i = i + 1;
        }
        proof {
            lemma_rank_is(self.spec_side(), self@, price, i as int);
        }
        i
    }

    /// The level at exactly `price`.
    pub fn level(&self, price: u64) -> (level: Option<&PriceLevel>)
        requires
            self.inv(),
        ensures
            level is Some <==> has_level(self.spec_side(), self@, price),
            level matches Some(l) ==> l@ == self@[rank(self.spec_side(), self@, price)] && l.wf(),
    {
        let i: usize = self.locate(price);
        if i < self.levels.len() && self.levels[i].price() == price {
            Some(self.level_at(i))
        } else {
            None
        }
    }

    /// Puts `order` at the tail of the level at `price`, creating the level
    /// if it is missing.
    pub fn insert(&mut self, price: u64, order: RestingOrder)
        requires
            old(self).wf(),
            order.is_resting(),
            all_before(old(self)@, order.sequence as int),
        ensures
            final(self).wf(),
            final(self).spec_side() == old(self).spec_side(),
            final(self)@ == inserted(old(self).spec_side(), old(self)@, price, order),
    {
        let i: usize = self.locate(price);
        proof {
            self.lemma_levels_wf();
            lemma_rank_range(self.spec_side(), self@, price);
        }
        if i < self.levels.len() && self.levels[i].price() == price {
            assert(self@[i as int].orders.len() > 0);
            assert(self@[i as int].orders.last() == self@[i as int].orders[self@[i as int].orders.len()
                - 1]);
            self.levels[i].push(order);
            proof {
                let target = old(self)@.update(i as int, old(self)@[i as int].pushed(order));
                assert(self.levels@.len() == old(self).levels@.len());
                assert forall|k: int| 0 <= k < self.levels@.len() && k != i implies (
                #[trigger] self.levels@[k]) == old(self).levels@[k] by {}
                assert(self@ =~= target);
                assert(book_ok(self.spec_side(), self@)) by {
                    assert forall|k: int| 0 <= k < self@.len() implies (#[trigger] self@[k]).ok()
                        && self@[k].orders.len() > 0 by {
                        if k != i {
                            assert(old(self)@[k].ok());
                        }
                    }
                    assert forall|a: int, b: int| 0 <= a < b < self@.len() implies better(
                        self.spec_side(),
                        (#[trigger] self@[a]).price,
                        (#[trigger] self@[b]).price,
                    ) by {
                        assert(self@[a].price == old(self)@[a].price);
                        assert(self@[b].price == old(self)@[b].price);
                    }
                }
            }
        } else {
            let mut level = PriceLevel::new(price);
            level.push(order);
            assert(level@.orders =~= seq![order]);
            self.levels.insert(i, level);
            proof {
                let fresh = LevelView { price, orders: seq![order] };
                let target = old(self)@.insert(i as int, fresh);
                assert(self@ =~= target);
                assert forall|k: int| 0 <= k < self@.len() implies (#[trigger] self@[k]).ok()
                    && self@[k].orders.len() > 0 by {
                    if k < i {
                        assert(self@[k] == old(self)@[k]);
                    } else if k > i {
                        assert(self@[k] == old(self)@[k - 1]);
                    }
                }
                assert forall|a: int, b: int| 0 <= a < b < self@.len() implies better(
                    self.spec_side(),
                    (#[trigger] self@[a]).price,
                    (#[trigger] self@[b]).price,
                ) by {
                    let pa = if a < i {
                        old(self)@[a]
                    } else if a == i {
                        fresh
                    } else {
                        old(self)@[a - 1]
                    };
                    let pb = if b < i {
                        old(self)@[b]
                    } else if b == i {
                        fresh
                    } else {
                        old(self)@[b - 1]
                    };
                    assert(self@[a] == pa);
                    assert(self@[b] == pb);
                    if i < old(self)@.len() {
                        assert(!better(self.spec_side(), old(self)@[i as int].price, price));
                        assert(old(self)@[i as int].price != price);
                    }
                }
                assert forall|k: int| 0 <= k < self.levels@.len() implies (
                #[trigger] self.levels@[k]).stored_aggregate() == self.levels@[k]@.aggregate() by {
                    if k < i {
                        assert(self.levels@[k] == old(self).levels@[k]);
                    } else if k > i {
                        assert(self.levels@[k] == old(self).levels@[k - 1]);
                    }
                }
            }
        }
    }

    /// Drops the level at `price` if its queue is empty.
    pub fn drop_level_if_empty(&mut self, price: u64)
        requires
            old(self).inv(),
        ensures
            final(self).inv(),
            final(self).spec_side() == old(self).spec_side(),
            final(self)@ == dropped_if_empty(old(self).spec_side(), old(self)@, price),
    {
        let i: usize = self.locate(price);
        if i < self.levels.len() && self.levels[i].price() == price && self.levels[i].is_empty() {
            self.drop_level(i);
        }
    }

    /// Drops the level at place `i`.
    fn drop_level(&mut self, i: usize)
        requires
            old(self).inv(),
            i < old(self)@.len(),
        ensures
            final(self).inv(),
            final(self).spec_side() == old(self).spec_side(),
            final(self)@ == old(self)@.remove(i as int),
    {
        self.levels.remove(i);
        proof {
            assert(self@ =~= old(self)@.remove(i as int));
            assert forall|k: int| 0 <= k < self@.len() implies (#[trigger] self@[k]).ok() by {
                if k < i {
                    assert(self@[k] == old(self)@[k]);
                } else {
                    assert(self@[k] == old(self)@[k + 1]);
                }
            }
            assert forall|a: int, b: int| 0 <= a < b < self@.len() implies better(
                self.spec_side(),
                (#[trigger] self@[a]).price,
                (#[trigger] self@[b]).price,
            ) by {
                let pa = if a < i {
                    old(self)@[a]
                } else {
                    old(self)@[a + 1]
                };
                let pb = if b < i {
                    old(self)@[b]
                } else {
                    old(self)@[b + 1]
                };
                assert(self@[a] == pa);
                assert(self@[b] == pb);
            }
            assert forall|k: int| 0 <= k < self.levels@.len() implies (
            #[trigger] self.levels@[k]).stored_aggregate() == self.levels@[k]@.aggregate() by {
                if k < i {
                    assert(self.levels@[k] == old(self).levels@[k]);
                } else {
                    assert(self.levels@[k] == old(self).levels@[k + 1]);
                }
            }
        }
    }

    /// After level `i` alone was changed to `level`, keeping its price and a
    /// queue in order: the book is the old one with that level, dropped if
    /// it is empty.
    fn settle(&mut self, i: usize, Ghost(before): Ghost<Seq<LevelView>>)
        requires
            book_ok(old(self).spec_side(), before),
            i < before.len(),
            old(self).levels@.len() == before.len(),
            forall|k: int|
                0 <= k < before.len() && k != i ==> (#[trigger] old(self).levels@[k])@ == before[k]
                    && old(self).levels@[k].wf(),
            old(self).levels@[i as int].wf(),
            old(self).levels@[i as int]@.price == before[i as int].price,
        ensures
            final(self).wf(),
            final(self).spec_side() == old(self).spec_side(),
            final(self)@ == with_level(before, i as int, old(self).levels@[i as int]@),
    {
        proof {
            let level = self.levels@[i as int]@;
            assert(self@ =~= before.update(i as int, level));
            assert forall|k: int| 0 <= k < self@.len() implies (#[trigger] self@[k]).ok() by {
                if k != i {
                    assert(before[k].ok());
                }
            }
            assert forall|a: int, b: int| 0 <= a < b < self@.len() implies better(
                self.spec_side(),
                (#[trigger] self@[a]).price,
                (#[trigger] self@[b]).price,
            ) by {
                assert(self@[a].price == before[a].price);
                assert(self@[b].price == before[b].price);
            }
        }
        if self.levels[i].is_empty() {
            self.drop_level(i);
            proof {
                assert(self@ =~= before.remove(i as int));
                assert forall|k: int| 0 <= k < self@.len() implies (
                #[trigger] self@[k]).orders.len() > 0 by {
                    if k < i {
                        assert(self@[k] == before[k]);
                    } else {
                        assert(self@[k] == before[k + 1]);
                    }
                }
            }
        } else {
            proof {
                assert forall|k: int| 0 <= k < self@.len() implies (
                #[trigger] self@[k]).orders.len() > 0 by {
                    if k != i {
                        assert(self@[k] == before[k]);
                    }
                }
            }
        }
    }

    /// Fills `qty` against the order that is first in line, which leaves the
    /// book when nothing of it remains, and its level with it when it was
    /// the last there. Returns that order as it was before.
    pub fn fill_best(&mut self, qty: u64) -> (head: RestingOrder)
        requires
            old(self).wf(),
            old(self)@.len() > 0,
            0 < qty <= old(self)@[0].orders[0].open_quantity(),
        ensures
            final(self).wf(),
            final(self).spec_side() == old(self).spec_side(),
            head == old(self)@[0].orders[0],
            final(self)@ == filled_best(old(self)@, qty as int),
    {
        proof {
            self.lemma_levels_wf();
        }
        let head = self.levels[0].apply_fill(qty);
        self.settle(0, Ghost(old(self)@));
        head
    }

    /// Takes the order that is first in line out of the book.
    pub fn pop_best(&mut self) -> (head: RestingOrder)
        requires
            old(self).wf(),
            old(self)@.len() > 0,
        ensures
            final(self).wf(),
            final(self).spec_side() == old(self).spec_side(),
            head == old(self)@[0].orders[0],
            final(self)@ == popped_best(old(self)@),
    {
        proof {
            self.lemma_levels_wf();
        }
        let head = self.levels[0].remove_at(0);
        self.settle(0, Ghost(old(self)@));
        head
    }

    /// Takes the first order with identifier `id` out of the level at
    /// `price`.
    pub fn remove(&mut self, price: u64, id: u128) -> (order: Option<RestingOrder>)
        requires
            old(self).wf(),
        ensures
            final(self).wf(),
            final(self).spec_side() == old(self).spec_side(),
            order == found(old(self).spec_side(), old(self)@, price, id),
            final(self)@ == removed(old(self).spec_side(), old(self)@, price, id),
    {
        proof {
            self.lemma_levels_wf();
        }
        let i: usize = self.locate(price);
        if i < self.levels.len() && self.levels[i].price() == price {
            proof {
                crate::price_level::lemma_first_with_id_range(self@[i as int].orders, id);
            }
            let order = self.levels[i].remove_by_id(id);
            if order.is_some() {
                self.settle(i, Ghost(old(self)@));
            } else {
                proof {
                    assert(self@ =~= old(self)@);
                    assert forall|k: int| 0 <= k < self.levels@.len() implies (
                    #[trigger] self.levels@[k]).stored_aggregate()
                        == self.levels@[k]@.aggregate() by {
                        if k != i {
                            assert(self.levels@[k] == old(self).levels@[k]);
                        }
                    }
                }
            }
            order
        } else {
            None
        }
    }

    /// Finds the first order with identifier `id` at `price`.
    pub fn find(&self, price: u64, id: u128) -> (order: Option<RestingOrder>)
        requires
            self.wf(),
        ensures
            order == found(self.spec_side(), self@, price, id),
    {
        match self.level(price) {
            Some(level) => match level.position_of(id) {
                Some(j) => Some(level.get(j)),
                None => {
                    proof {
                        crate::price_level::lemma_first_with_id_range(level@.orders, id);
                    }
                    None
                },
            },
            None => None,
        }
    }

    /// Cuts the original quantity of the first order with identifier `id`
    /// at `price` to `quantity`. The order keeps its place in the queue.
    pub fn reduce(&mut self, price: u64, id: u128, quantity: u64)
        requires
            old(self).wf(),
            found(old(self).spec_side(), old(self)@, price, id) matches Some(o) && o.filled
                < quantity <= o.quantity,
        ensures
            final(self).wf(),
            final(self).spec_side() == old(self).spec_side(),
            final(self)@ == reduced(old(self).spec_side(), old(self)@, price, id, quantity),
    {
        proof {
            self.lemma_levels_wf();
        }
        let i: usize = self.locate(price);
        let j: usize = match self.levels[i].position_of(id) {
            Some(j) => j,
            None => 0,
        };
        self.levels[i].reduce_quantity(j, quantity);
        self.settle(i, Ghost(old(self)@));
    }

    /// A copy of this side of the book.
    pub fn snapshot(&self) -> (copy: HalfBook)
        requires
            self.wf(),
        ensures
            copy.wf(),
            copy@ == self@,
            copy.spec_side() == self.spec_side(),
    {
        proof {
            self.lemma_levels_wf();
        }
        let mut levels: Vec<PriceLevel> = Vec::new();
        let mut i: usize = 0;
        while i < self.levels.len()
            invariant
                i <= self.levels@.len(),
                levels@.len() == i,
                forall|k: int| 0 <= k < self.levels@.len() ==> (#[trigger] self.levels@[k]).wf(),
                forall|k: int|
                    0 <= k < i ==> (#[trigger] levels@[k])@ == self.levels@[k]@ && levels@[k].wf(),
            decreases self.levels@.len() - i,
        {
            let level = self.levels[i].snapshot();
            levels.push(level);
            i = i + 1;
        }
        let copy = HalfBook { side: self.side, levels };
        proof {
            assert(copy@ =~= self@);
        }
        copy
    }

    /// How many orders rest on this side.
    pub fn order_count(&self) -> (n: u128)
        requires
            self.wf(),
        ensures
            n == total_orders(self@),
    {
        let mut n: u128 = 0;
        let count: usize = self.levels.len();
        let mut i: usize = count;
        proof {
            assert(self@.skip(i as int) =~= Seq::<LevelView>::empty());
        }
        while i > 0
            invariant
                i <= self.levels@.len(),
                count == self.levels@.len(),
                self@.len() == self.levels@.len(),
                forall|k: int|
                    0 <= k < self.levels@.len() ==> (#[trigger] self.levels@[k])@ == self@[k],
                n == total_orders(self@.skip(i as int)),
                n <= (self@.len() - i) * 0xffff_ffff_ffff_ffff,
            decreases i,
        {
            i = i - 1;
            let c: usize = self.levels[i].len();
            proof {
                let tail = self@.skip(i as int);
                assert(tail.drop_first() =~= self@.skip(i + 1));
                assert(tail[0] == self@[i as int]);
                assert((self@.len() - i) * 0xffff_ffff_ffff_ffff == (self@.len() - (i + 1))
                    * 0xffff_ffff_ffff_ffff + 0xffff_ffff_ffff_ffff) by (nonlinear_arith);
                assert((self@.len() - i) * 0xffff_ffff_ffff_ffff <= 0xffff_ffff_ffff_ffff
                    * 0xffff_ffff_ffff_ffff) by (nonlinear_arith)
                    requires
                        0 <= self@.len() - i <= count,
                        count <= 0xffff_ffff_ffff_ffff,
                ;
            }
            n = n + c as u128;
        }
        proof {
            assert(self@.skip(0) =~= self@);
        }
        n
    }
}

} // verus!
