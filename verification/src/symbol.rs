//! The static description of a trading symbol: tick size, lot size, price
//! bounds and the largest order quantity.
//!
//! The engine counts prices and quantities in whole units: a price unit is
//! `10^-s` for the finest scale `s` among tick size and price bounds, a
//! quantity unit likewise for lot size and largest quantity. A valid price
//! or quantity is a whole number of units, which `price_units` and
//! `quantity_units` compute.

use crate::decimal::{
    lemma_multiple_at_scale, lemma_multiple_has_units, lemma_value_of_order, value_of, Decimal,
    MAX_SCALE,
};
use crate::price_level::MAX_QUANTITY;
use vstd::prelude::*;

verus! {

/// Why a symbol's description is refused.
#[derive(Clone, Copy, Debug, PartialEq, Eq, Structural)]
pub enum SymbolError {
    /// The tick size is not above zero.
    InvalidTickSize,
    /// The lot size is not above zero.
    InvalidLotSize,
    /// The lowest price is below zero or above the highest.
    InvalidPriceBounds,
    /// The largest quantity is not above zero.
    InvalidMaxQuantity,
    /// A value does not fit the engine's 64-bit units.
    PrecisionOverflow,
}

/// Whether `v`, in units of `10^-28`, is a whole number `u` of units of
/// scale `scale`, with `u` at most `limit`.
pub open spec fn fits_units(v: int, scale: nat, limit: int) -> bool {
    exists|u: i128| value_of(u as int, scale) == v && u <= limit
}

/// Whether `v` is above zero, within the bounds `lo` and `hi` and a
/// multiple of the step `unit`, all three counted in units of scale `scale`.
pub open spec fn on_grid(v: int, scale: nat, unit: int, lo: int, hi: int) -> bool {
    &&& v > 0
    &&& value_of(lo, scale) <= v <= value_of(hi, scale)
    &&& v % value_of(unit, scale) == 0
}

/// Dividing the value of `u` units by the unit gives `u` back.
pub proof fn lemma_units_of(u: int, scale: nat)
    requires
        scale <= MAX_SCALE,
    ensures
        value_of(u, scale) / crate::decimal::pow10((MAX_SCALE - scale) as nat) == u,
{
    let k = crate::decimal::pow10((MAX_SCALE - scale) as nat);
    crate::decimal::lemma_pow10_positive((MAX_SCALE - scale) as nat);
    vstd::arithmetic::div_mod::lemma_fundamental_div_mod_converse(u * k, k, u, 0);
}

/// The larger of two scales.
pub open spec fn finer(a: u32, b: u32) -> u32 {
    if a >= b {
        a
    } else {
        b
    }
}

fn finer_exec(a: u32, b: u32) -> (r: u32)
    ensures
        r == finer(a, b),
{
    if a >= b {
        a
    } else {
        b
    }
}

/// The number of units of scale `scale` that `d` is, if it is a whole
/// number of them and at most `limit`.
fn units_upto(d: &Decimal, scale: u32, limit: u64) -> (r: Option<u64>)
    requires
        scale <= MAX_SCALE,
        d@ >= 0,
    ensures
        r is Some <==> fits_units(d@, scale as nat, limit as int),
        r matches Some(u) ==> value_of(u as int, scale as nat) == d@ && u <= limit,
{
    match d.units_at(scale) {
        None => None,
        Some(u) => {
            proof {
                lemma_value_of_order(u as int, 0, scale as nat);
                assert(value_of(0, scale as nat) == 0);
                assert forall|w: i128| value_of(w as int, scale as nat) == d@ implies w == u by {
                    lemma_value_of_order(w as int, u as int, scale as nat);
                }
            }
            if u > limit as i128 {
                None
            } else {
                Some(u as u64)
            }
        },
    }
}

/// The number of units of scale `scale` that `d` is, if `d` is on the grid.
fn units_on_grid(d: &Decimal, scale: u32, unit: u64, lo: u64, hi: u64) -> (r: Option<u64>)
    requires
        scale <= MAX_SCALE,
        unit > 0,
    ensures
        r is Some <==> on_grid(d@, scale as nat, unit as int, lo as int, hi as int),
        r matches Some(u) ==> value_of(u as int, scale as nat) == d@ && lo <= u <= hi && u > 0 && u
            % unit == 0,
{
    let ghost s = scale as nat;
    match d.units_at(scale) {
        None => {
            proof {
                if on_grid(d@, s, unit as int, lo as int, hi as int) {
                    let w = (d@ / value_of(unit as int, s)) * unit;
                    lemma_multiple_has_units(d@, unit as int, s);
                    lemma_value_of_order(w, hi as int, s);
                    lemma_value_of_order(w, 0, s);
                    assert(value_of(0, s) == 0);
                    assert(value_of((w as i128) as int, s) == d@);
                }
            }
            None
        },
        Some(u) => {
            proof {
                assert(value_of(0, s) == 0);
                lemma_value_of_order(u as int, 0, s);
                lemma_value_of_order(u as int, lo as int, s);
                lemma_value_of_order(u as int, hi as int, s);
                if u >= 0 {
                    lemma_multiple_at_scale(u as int, unit as int, s);
                }
            }
            if u <= 0 || u < lo as i128 || u > hi as i128 {
                None
            } else {
                let w: u64 = u as u64;
                if w % unit != 0 {
                    None
                } else {
                    Some(w)
                }
            }
        },
    }
}

/// The description of one symbol.
#[derive(Clone, Copy, Debug)]
pub struct SymbolMeta {
    tick_size: Decimal,
    lot_size: Decimal,
    min_price: Decimal,
    max_price: Decimal,
    max_quantity: Decimal,
    price_scale: u32,
    quantity_scale: u32,
    tick: u64,
    lot: u64,
    min_units: u64,
    max_units: u64,
    max_quantity_units: u64,
}

impl SymbolMeta {
    #[verifier::type_invariant]
    spec fn inv(self) -> bool {
        &&& self.price_scale <= MAX_SCALE
        &&& self.quantity_scale <= MAX_SCALE
        &&& self.tick > 0
        &&& self.lot > 0
        &&& self.max_quantity_units <= MAX_QUANTITY
        &&& value_of(self.tick as int, self.price_scale as nat) == self.tick_size@
        &&& value_of(self.min_units as int, self.price_scale as nat) == self.min_price@
        &&& value_of(self.max_units as int, self.price_scale as nat) == self.max_price@
        &&& value_of(self.lot as int, self.quantity_scale as nat) == self.lot_size@
        &&& value_of(self.max_quantity_units as int, self.quantity_scale as nat)
            == self.max_quantity@
    }

    /// The description is consistent: what the engine counts in units is
    /// what the five decimals say. Every description that `new` gave is.
    pub closed spec fn wf(&self) -> bool {
        self.inv()
    }

    /// Every description at hand is consistent.
    pub fn attest(&self)
        ensures
            self.wf(),
    {
        proof {
            use_type_invariant(self);
        }
    }

    pub closed spec fn spec_tick_size(&self) -> Decimal {
        self.tick_size
    }

    pub closed spec fn spec_lot_size(&self) -> Decimal {
        self.lot_size
    }

    pub closed spec fn spec_min_price(&self) -> Decimal {
        self.min_price
    }

    pub closed spec fn spec_max_price(&self) -> Decimal {
        self.max_price
    }

    pub closed spec fn spec_max_quantity(&self) -> Decimal {
        self.max_quantity
    }

    /// The scale of a price unit.
    pub closed spec fn spec_price_scale(&self) -> u32 {
        self.price_scale
    }

    /// The scale of a quantity unit.
    pub closed spec fn spec_quantity_scale(&self) -> u32 {
        self.quantity_scale
    }

    /// A price the engine accepts: above zero, within the bounds, and a
    /// whole multiple of the tick size.
    pub open spec fn valid_price(&self, price: Decimal) -> bool {
        &&& price@ > 0
        &&& self.spec_min_price()@ <= price@ <= self.spec_max_price()@
        &&& price@ % self.spec_tick_size()@ == 0
    }

    /// A quantity the engine accepts: above zero, at most the largest
    /// quantity, and a whole multiple of the lot size.
    pub open spec fn valid_quantity(&self, quantity: Decimal) -> bool {
        &&& quantity@ > 0
        &&& quantity@ <= self.spec_max_quantity()@
        &&& quantity@ % self.spec_lot_size()@ == 0
    }

    /// The number of price units that `price` is, rounded down.
    pub open spec fn units_of_price(&self, price: Decimal) -> u64 {
        (price@ / crate::decimal::pow10((MAX_SCALE - self.spec_price_scale()) as nat)) as u64
    }

    /// The number of quantity units that `quantity` is, rounded down.
    pub open spec fn units_of_quantity(&self, quantity: Decimal) -> u64 {
        (quantity@ / crate::decimal::pow10((MAX_SCALE - self.spec_quantity_scale()) as nat)) as u64
    }

    /// The decimal that `units` price units are.
    pub open spec fn price_of(&self, units: u64) -> Decimal {
        Decimal::from_parts(units as i128, self.spec_price_scale())
    }

    /// The decimal that `units` quantity units are.
    pub open spec fn quantity_of(&self, units: u128) -> Decimal {
        Decimal::from_parts(units as i128, self.spec_quantity_scale())
    }

    /// Whether the five values describe a symbol.
    pub open spec fn describes(
        tick_size: Decimal,
        lot_size: Decimal,
        min_price: Decimal,
        max_price: Decimal,
        max_quantity: Decimal,
    ) -> bool {
        &&& tick_size@ > 0
        &&& lot_size@ > 0
        &&& 0 <= min_price@ <= max_price@
        &&& max_quantity@ > 0
    }

    /// Whether the five values are whole numbers of units that fit 64 bits,
    /// the largest quantity even 63.
    pub open spec fn representable(
        tick_size: Decimal,
        lot_size: Decimal,
        min_price: Decimal,
        max_price: Decimal,
        max_quantity: Decimal,
    ) -> bool {
        let ps = finer(
            finer(tick_size.spec_scale(), min_price.spec_scale()),
            max_price.spec_scale(),
        ) as nat;
        let qs = finer(lot_size.spec_scale(), max_quantity.spec_scale()) as nat;
        &&& fits_units(tick_size@, ps, u64::MAX as int)
        &&& fits_units(min_price@, ps, u64::MAX as int)
        &&& fits_units(max_price@, ps, u64::MAX as int)
        &&& fits_units(lot_size@, qs, u64::MAX as int)
        &&& fits_units(max_quantity@, qs, MAX_QUANTITY as int)
    }

    /// The description of a symbol with the given tick size, lot size, price
    /// bounds and largest order quantity.
    pub fn new(
        tick_size: Decimal,
        lot_size: Decimal,
        min_price: Decimal,
        max_price: Decimal,
        max_quantity: Decimal,
    ) -> (r: Result<SymbolMeta, SymbolError>)
        ensures
            r is Ok <==> SymbolMeta::describes(
                tick_size,
                lot_size,
                min_price,
                max_price,
                max_quantity,
            ) && SymbolMeta::representable(tick_size, lot_size, min_price, max_price, max_quantity),
            r matches Ok(m) ==> m.spec_tick_size() == tick_size && m.spec_lot_size() == lot_size
                && m.spec_min_price() == min_price && m.spec_max_price() == max_price
                && m.spec_max_quantity() == max_quantity && m.spec_price_scale() == finer(
                finer(tick_size.spec_scale(), min_price.spec_scale()),
                max_price.spec_scale(),
            ) && m.spec_quantity_scale() == finer(
                lot_size.spec_scale(),
                max_quantity.spec_scale(),
            ),
            r matches Err(e) ==> match e {
                SymbolError::InvalidTickSize => tick_size@ <= 0,
                SymbolError::InvalidLotSize => tick_size@ > 0 && lot_size@ <= 0,
                SymbolError::InvalidPriceBounds => tick_size@ > 0 && lot_size@ > 0 && !(0
                    <= min_price@ <= max_price@),
                SymbolError::InvalidMaxQuantity => tick_size@ > 0 && lot_size@ > 0 && 0
                    <= min_price@ <= max_price@ && max_quantity@ <= 0,
                SymbolError::PrecisionOverflow => SymbolMeta::describes(
                    tick_size,
                    lot_size,
                    min_price,
                    max_price,
                    max_quantity,
                ),
            },
    {
        if !tick_size.is_positive() {
            return Err(SymbolError::InvalidTickSize);
        }
        if !lot_size.is_positive() {
            return Err(SymbolError::InvalidLotSize);
        }
        if min_price.is_negative() || min_price.gt(&max_price) {
            return Err(SymbolError::InvalidPriceBounds);
        }
        if !max_quantity.is_positive() {
            return Err(SymbolError::InvalidMaxQuantity);
        }
        let price_scale: u32 = finer_exec(
            finer_exec(tick_size.scale(), min_price.scale()),
            max_price.scale(),
        );
        let quantity_scale: u32 = finer_exec(lot_size.scale(), max_quantity.scale());
        let tick: u64 = match units_upto(&tick_size, price_scale, u64::MAX) {
            Some(u) => u,
            None => {
                return Err(SymbolError::PrecisionOverflow);
            },
        };
        let min_units: u64 = match units_upto(&min_price, price_scale, u64::MAX) {
            Some(u) => u,
            None => {
                return Err(SymbolError::PrecisionOverflow);
            },
        };
        let max_units: u64 = match units_upto(&max_price, price_scale, u64::MAX) {
            Some(u) => u,
            None => {
                return Err(SymbolError::PrecisionOverflow);
            },
        };
        let lot: u64 = match units_upto(&lot_size, quantity_scale, u64::MAX) {
            Some(u) => u,
            None => {
                return Err(SymbolError::PrecisionOverflow);
            },
        };
        let max_quantity_units: u64 = match units_upto(&max_quantity, quantity_scale, MAX_QUANTITY) {
            Some(u) => u,
            None => {
                return Err(SymbolError::PrecisionOverflow);
            },
        };
        proof {
            assert(value_of(0, price_scale as nat) == 0);
            assert(value_of(0, quantity_scale as nat) == 0);
            lemma_value_of_order(tick as int, 0, price_scale as nat);
            lemma_value_of_order(lot as int, 0, quantity_scale as nat);
        }
        Ok(
            SymbolMeta {
                tick_size,
                lot_size,
                min_price,
                max_price,
                max_quantity,
                price_scale,
                quantity_scale,
                tick,
                lot,
                min_units,
                max_units,
                max_quantity_units,
            },
        )
    }

    pub fn tick_size(&self) -> (d: Decimal)
        ensures
            d == self.spec_tick_size(),
    {
        self.tick_size
    }

    pub fn lot_size(&self) -> (d: Decimal)
        ensures
            d == self.spec_lot_size(),
    {
        self.lot_size
    }

    pub fn min_price(&self) -> (d: Decimal)
        ensures
            d == self.spec_min_price(),
    {
        self.min_price
    }

    pub fn max_price(&self) -> (d: Decimal)
        ensures
            d == self.spec_max_price(),
    {
        self.max_price
    }

    pub fn max_quantity(&self) -> (d: Decimal)
        ensures
            d == self.spec_max_quantity(),
    {
        self.max_quantity
    }

    /// The number of price units that `price` is, if it is a valid price.
    pub fn price_units(&self, price: &Decimal) -> (r: Option<u64>)
        ensures
            r is Some <==> self.valid_price(*price),
            r matches Some(u) ==> self.price_of(u)@ == price@ && u > 0 && u == self.units_of_price(
                *price,
            ),
    {
        proof {
            use_type_invariant(self);
            Decimal::lemma_from_parts();
        }
        let r = units_on_grid(price, self.price_scale, self.tick, self.min_units, self.max_units);
        proof {
            if let Some(u) = r {
                lemma_units_of(u as int, self.price_scale as nat);
            }
        }
        r
    }

    /// The number of quantity units that `quantity` is, if it is a valid
    /// quantity.
    pub fn quantity_units(&self, quantity: &Decimal) -> (r: Option<u64>)
        ensures
            r is Some <==> self.valid_quantity(*quantity),
            r matches Some(u) ==> self.quantity_of(u as u128)@ == quantity@ && 0 < u
                <= MAX_QUANTITY && u == self.units_of_quantity(*quantity),
    {
        proof {
            use_type_invariant(self);
            Decimal::lemma_from_parts();
            assert(value_of(0, self.quantity_scale as nat) == 0);
        }
        let r = units_on_grid(quantity, self.quantity_scale, self.lot, 0, self.max_quantity_units);
        proof {
            if let Some(u) = r {
                lemma_units_of(u as int, self.quantity_scale as nat);
            }
        }
        r
    }

    /// The units of a valid price are above zero and give the price back.
    pub proof fn lemma_units_of_valid(&self, price: Decimal)
        requires
            self.valid_price(price),
            self.wf(),
        ensures
            self.units_of_price(price) > 0,
            self.price_of(self.units_of_price(price))@ == price@,
    {
        Decimal::lemma_from_parts();
        let s = self.price_scale as nat;
        let w = (price@ / value_of(self.tick as int, s)) * self.tick;
        lemma_multiple_has_units(price@, self.tick as int, s);
        lemma_value_of_order(w, self.max_units as int, s);
        lemma_value_of_order(w, 0, s);
        assert(value_of(0, s) == 0);
        lemma_units_of(w, s);
    }

    /// The units of a valid quantity are above zero, at most
    /// `MAX_QUANTITY`, and give the quantity back.
    pub proof fn lemma_units_of_valid_quantity(&self, quantity: Decimal)
        requires
            self.valid_quantity(quantity),
            self.wf(),
        ensures
            0 < self.units_of_quantity(quantity) <= MAX_QUANTITY,
            self.quantity_of(self.units_of_quantity(quantity) as u128)@ == quantity@,
    {
        Decimal::lemma_from_parts();
        let s = self.quantity_scale as nat;
        let w = (quantity@ / value_of(self.lot as int, s)) * self.lot;
        lemma_multiple_has_units(quantity@, self.lot as int, s);
        lemma_value_of_order(w, self.max_quantity_units as int, s);
        lemma_value_of_order(w, 0, s);
        assert(value_of(0, s) == 0);
        lemma_units_of(w, s);
    }

    /// The price that `units` price units are.
    pub fn price_decimal(&self, units: u64) -> (d: Decimal)
        ensures
            d == self.price_of(units),
    {
        proof {
            use_type_invariant(self);
        }
        Decimal::new(units as i128, self.price_scale)
    }

    /// The quantity that `units` quantity units are.
    pub fn quantity_decimal(&self, units: u128) -> (d: Decimal)
        requires
            units <= i128::MAX,
        ensures
            d == self.quantity_of(units),
    {
        proof {
            use_type_invariant(self);
        }
        Decimal::new(units as i128, self.quantity_scale)
    }
}

} // verus!
