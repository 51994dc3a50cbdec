//! Exact fixed-point decimals: a signed 128-bit mantissa and a decimal scale.
//!
//! A decimal with mantissa `m` and scale `s` stands for the rational number
//! `m / 10^s`. Its view is that number counted in units of `10^-28`, the
//! finest grain a scale can reach, so that contracts over views are plain
//! integer arithmetic.

use vstd::prelude::*;
use vstd::string::StrSliceExecFns;

verus! {

/// The largest scale a decimal can carry.
pub const MAX_SCALE: u32 = 28;

/// Why a decimal operation gave no result.
#[derive(Clone, Copy, Debug, PartialEq, Eq, Structural)]
pub enum DecimalError {
    /// The mantissa of the result does not fit in 128 bits.
    PrecisionOverflow,
    /// The scale asked for is above [`MAX_SCALE`].
    ScaleOutOfRange,
    /// The text is not a decimal number.
    Syntax,
}

/// How `rescale` treats the digits it has to drop.
#[derive(Clone, Copy, Debug, PartialEq, Eq, Structural)]
pub enum RoundingMode {
    /// To the nearest neighbour; a tie goes to the even one.
    HalfEven,
    /// Toward zero.
    TowardZero,
    /// Away from zero.
    AwayFromZero,
}

/// `10^e`.
pub open spec fn pow10(e: nat) -> int
    decreases e,
{
    if e == 0 {
        1
    } else {
        10 * pow10((e - 1) as nat)
    }
}

/// Whether `x` fits in a 128-bit signed mantissa.
pub open spec fn fits_i128(x: int) -> bool {
    i128::MIN <= x <= i128::MAX
}

/// The value of mantissa `m` at scale `s`, in units of `10^-28`.
pub open spec fn value_of(m: int, s: nat) -> int {
    m * pow10((MAX_SCALE - s) as nat)
}

/// `-1`, `0` or `1` as `a` is below, equal to or above `b`.
pub open spec fn order_of(a: int, b: int) -> int {
    if a < b {
        -1
    } else if a == b {
        0
    } else {
        1
    }
}

/// The quotient `m / p` rounded to an integer under `mode`, for `p > 0`.
pub open spec fn round_div(m: int, p: int, mode: RoundingMode) -> int {
    let q = m / p;
    let r = m % p;
    match mode {
        RoundingMode::TowardZero => if r == 0 || m >= 0 {
            q
        } else {
            q + 1
        },
        RoundingMode::AwayFromZero => if r == 0 || m < 0 {
            q
        } else {
            q + 1
        },
        RoundingMode::HalfEven => if 2 * r < p {
            q
        } else if 2 * r > p {
            q + 1
        } else if q % 2 == 0 {
            q
        } else {
            q + 1
        },
    }
}

/// A power of ten is at least one.
pub proof fn lemma_pow10_positive(e: nat)
    ensures
        pow10(e) >= 1,
    decreases e,
{
    if e > 0 {
        lemma_pow10_positive((e - 1) as nat);
    }
}

/// Powers of ten multiply as their exponents add.
pub proof fn lemma_pow10_adds(a: nat, b: nat)
    ensures
        pow10(a + b) == pow10(a) * pow10(b),
    decreases a,
{
    if a == 0 {
        assert(pow10(a + b) == 1 * pow10(b));
    } else {
        lemma_pow10_adds((a - 1) as nat, b);
        let x = pow10((a - 1) as nat);
        let y = pow10(b);
        assert(pow10(a + b) == 10 * pow10((a + b - 1) as nat));
        assert(((a - 1) as nat) + b == (a + b - 1) as nat);
        assert(10 * (x * y) == (10 * x) * y) by (nonlinear_arith);
    }
}

/// The powers of ten up to the largest scale are at most `10^28`.
pub proof fn lemma_pow10_bound(e: nat)
    requires
        e <= MAX_SCALE,
    ensures
        1 <= pow10(e) <= 10000000000000000000000000000,
{
    lemma_pow10_positive(e);
    lemma_pow10_positive((MAX_SCALE - e) as nat);
    lemma_pow10_adds(e, (MAX_SCALE - e) as nat);
    assert(e + ((MAX_SCALE - e) as nat) == 28);
    assert(pow10(28) == 10000000000000000000000000000) by {
        reveal_with_fuel(pow10, 29);
    }
    let x = pow10(e);
    let y = pow10((MAX_SCALE - e) as nat);
    assert(x <= x * y) by (nonlinear_arith)
        requires
            x >= 1,
            y >= 1,
    ;
}

/// Moving a mantissa to a finer scale keeps its value.
pub proof fn lemma_value_of_aligned(m: int, from: nat, to: nat)
    requires
        from <= to <= MAX_SCALE,
    ensures
        value_of(m * pow10((to - from) as nat), to) == value_of(m, from),
{
    let d = (to - from) as nat;
    let k = (MAX_SCALE - to) as nat;
    lemma_pow10_adds(d, k);
    assert(d + k == (MAX_SCALE - from) as nat);
    let pd = pow10(d);
    let pk = pow10(k);
    assert((m * pd) * pk == m * (pd * pk)) by (nonlinear_arith);
}

/// At one scale, values are ordered as their mantissas are.
pub proof fn lemma_value_of_order(a: int, b: int, s: nat)
    requires
        s <= MAX_SCALE,
    ensures
        order_of(value_of(a, s), value_of(b, s)) == order_of(a, b),
{
    let k = pow10((MAX_SCALE - s) as nat);
    lemma_pow10_positive((MAX_SCALE - s) as nat);
    assert(a < b ==> a * k < b * k) by (nonlinear_arith)
        requires
            k >= 1,
    ;
    assert(a > b ==> a * k > b * k) by (nonlinear_arith)
        requires
            k >= 1,
    ;
}

/// Among non-negative mantissas at one scale, one value is a multiple of
/// another just when its mantissa is.
pub proof fn lemma_multiple_at_scale(u: int, t: int, s: nat)
    requires
        u >= 0,
        t > 0,
        s <= MAX_SCALE,
    ensures
        value_of(t, s) > 0,
        (value_of(u, s) % value_of(t, s) == 0) <==> (u % t == 0),
{
    let k = pow10((MAX_SCALE - s) as nat);
    lemma_pow10_positive((MAX_SCALE - s) as nat);
    vstd::arithmetic::div_mod::lemma_truncate_middle(u, k, t);
    vstd::arithmetic::div_mod::lemma_mod_bound(u, t);
    assert(u * k == k * u) by (nonlinear_arith);
    assert(t * k == k * t) by (nonlinear_arith);
    let r = u % t;
    assert(k * r == 0 <==> r == 0) by (nonlinear_arith)
        requires
            k >= 1,
            r >= 0,
    ;
}

/// A multiple of the value of `t` at scale `s` can itself be written at
/// scale `s`.
pub proof fn lemma_multiple_has_units(v: int, t: int, s: nat)
    requires
        t > 0,
        s <= MAX_SCALE,
        v % value_of(t, s) == 0,
    ensures
        value_of((v / value_of(t, s)) * t, s) == v,
{
    let k = pow10((MAX_SCALE - s) as nat);
    lemma_pow10_positive((MAX_SCALE - s) as nat);
    let d = t * k;
    assert(d > 0) by (nonlinear_arith)
        requires
            t > 0,
            k >= 1,
            d == t * k,
    ;
    vstd::arithmetic::div_mod::lemma_fundamental_div_mod(v, d);
    let q = v / d;
    assert((q * t) * k == d * q) by (nonlinear_arith)
        requires
            d == t * k,
    ;
}

/// `10^e` as a machine integer.
fn pow10_exec(e: u32) -> (r: i128)
    requires
        e <= MAX_SCALE,
    ensures
        r == pow10(e as nat),
        1 <= r <= 10000000000000000000000000000,
{
    let mut r: i128 = 1;
    let mut i: u32 = 0;
    while i < e
        invariant
            i <= e <= MAX_SCALE,
            r == pow10(i as nat),
        decreases e - i,
    {
        proof {
            lemma_pow10_bound((i + 1) as nat);
        }
        r = r * 10;
        i = i + 1;
    }
    proof {
        lemma_pow10_bound(e as nat);
    }
    r
}

/// The mantissa `m` of scale `from`, written at the finer scale `to`.
fn align(m: i128, from: u32, to: u32) -> (r: Option<i128>)
    requires
        from <= to <= MAX_SCALE,
    ensures
        r is Some <==> fits_i128(m * pow10((to - from) as nat)),
        r matches Some(x) ==> x == m * pow10((to - from) as nat) && value_of(x as int, to as nat)
            == value_of(m as int, from as nat),
{
    let p: i128 = pow10_exec(to - from);
    proof {
        lemma_value_of_aligned(m as int, from as nat, to as nat);
    }
    m.checked_mul(p)
}

/// Orders `value_of(lo_m, lo_s)` against `value_of(hi_m, hi_s)`.
fn order_aligned(lo_m: i128, lo_s: u32, hi_m: i128, hi_s: u32) -> (r: i8)
    requires
        lo_s <= hi_s <= MAX_SCALE,
    ensures
        r == order_of(value_of(lo_m as int, lo_s as nat), value_of(hi_m as int, hi_s as nat)),
{
    let ghost p = pow10((hi_s - lo_s) as nat);
    proof {
        lemma_pow10_positive((hi_s - lo_s) as nat);
        lemma_value_of_aligned(lo_m as int, lo_s as nat, hi_s as nat);
        lemma_value_of_order(lo_m * p, hi_m as int, hi_s as nat);
    }
    match align(lo_m, lo_s, hi_s) {
        Some(x) => {
            if x < hi_m {
                -1
            } else if x == hi_m {
                0
            } else {
                1
            }
        },
        None => {
            if lo_m > 0 {
                assert(lo_m * p > 0) by (nonlinear_arith)
                    requires
                        lo_m > 0,
                        p >= 1,
                ;
                1
            } else {
                assert(lo_m * p <= 0) by (nonlinear_arith)
                    requires
                        lo_m <= 0,
                        p >= 1,
                ;
                -1
            }
        },
    }
}

/// An exact decimal number: `mantissa / 10^scale`, with `scale <= 28`.
#[derive(Clone, Copy, Debug)]
pub struct Decimal {
    mantissa: i128,
    scale: u32,
}

impl View for Decimal {
    type V = int;

    /// The number in units of `10^-28`.
    open spec fn view(&self) -> int {
        value_of(self.spec_mantissa() as int, self.spec_scale() as nat)
    }
}

impl Decimal {
    #[verifier::type_invariant]
    spec fn scale_in_range(self) -> bool {
        self.scale <= MAX_SCALE
    }

    pub closed spec fn spec_mantissa(&self) -> i128 {
        self.mantissa
    }

    pub closed spec fn spec_scale(&self) -> u32 {
        self.scale
    }

    /// The decimal with the given mantissa and scale.
    pub closed spec fn from_parts(mantissa: i128, scale: u32) -> Decimal {
        Decimal { mantissa, scale }
    }

    /// A decimal is its mantissa and its scale, and nothing else.
    pub proof fn lemma_from_parts()
        ensures
            forall|mantissa: i128, scale: u32|
                (#[trigger] Decimal::from_parts(mantissa, scale)).spec_mantissa() == mantissa
                    && Decimal::from_parts(mantissa, scale).spec_scale() == scale,
    {
    }

    /// Whether adding the mantissas at the finer of the two scales leaves the
    /// 128-bit range, in an operand or in the sum.
    pub open spec fn add_overflows(&self, other: &Decimal) -> bool {
        let s = if self.spec_scale() >= other.spec_scale() {
            self.spec_scale()
        } else {
            other.spec_scale()
        };
        let a = self.spec_mantissa() * pow10((s - self.spec_scale()) as nat);
        let b = other.spec_mantissa() * pow10((s - other.spec_scale()) as nat);
        !fits_i128(a) || !fits_i128(b) || !fits_i128(a + b)
    }

    /// As `add_overflows`, for the difference.
    pub open spec fn sub_overflows(&self, other: &Decimal) -> bool {
        let s = if self.spec_scale() >= other.spec_scale() {
            self.spec_scale()
        } else {
            other.spec_scale()
        };
        let a = self.spec_mantissa() * pow10((s - self.spec_scale()) as nat);
        let b = other.spec_mantissa() * pow10((s - other.spec_scale()) as nat);
        !fits_i128(a) || !fits_i128(b) || !fits_i128(a - b)
    }

    /// `mantissa / 10^scale`.
    pub fn new(mantissa: i128, scale: u32) -> (r: Decimal)
        requires
            scale <= MAX_SCALE,
        ensures
            r == Decimal::from_parts(mantissa, scale),
            r.spec_mantissa() == mantissa,
            r.spec_scale() == scale,
    {
        Decimal { mantissa, scale }
    }

    /// `mantissa / 10^scale`, or `ScaleOutOfRange` for a scale above 28.
    pub fn try_new(mantissa: i128, scale: u32) -> (r: Result<Decimal, DecimalError>)
        ensures
            scale <= MAX_SCALE ==> r == Ok::<Decimal, DecimalError>(
                Decimal::from_parts(mantissa, scale),
            ),
            scale > MAX_SCALE ==> r == Err::<Decimal, DecimalError>(DecimalError::ScaleOutOfRange),
    {
        if scale <= MAX_SCALE {
            Ok(Decimal { mantissa, scale })
        } else {
            Err(DecimalError::ScaleOutOfRange)
        }
    }

    /// The decimal that the text `s` writes: an optional sign, digits,
    /// and optionally a point and more digits, as in `-12.50`. The digits
    /// after the point give the scale. Text of another shape is a syntax
    /// error; more than 28 digits after the point are out of range; a
    /// number whose digits do not fit the mantissa overflows.
    pub open spec fn parsed(s: Seq<char>) -> Result<Decimal, DecimalError> {
        let signed = s.len() > 0 && (s[0] == '-' || s[0] == '+');
        let negative = s.len() > 0 && s[0] == '-';
        let body = if signed {
            s.skip(1)
        } else {
            s
        };
        let dot = crate::seqs::first_where(body, crate::text::is_point());
        let whole = body.take(dot);
        let fraction = if dot < body.len() {
            body.skip(dot + 1)
        } else {
            Seq::empty()
        };
        let magnitude = crate::text::value(whole + fraction);
        let mantissa = if negative {
            -magnitude
        } else {
            magnitude
        };
        if whole.len() == 0 || !crate::text::digits(whole) || (dot < body.len() && fraction.len()
            == 0) || !crate::text::digits(fraction) {
            Err(DecimalError::Syntax)
        } else if fraction.len() > MAX_SCALE {
            Err(DecimalError::ScaleOutOfRange)
        } else if !fits_i128(mantissa) {
            Err(DecimalError::PrecisionOverflow)
        } else {
            Ok(Decimal::from_parts(mantissa as i128, fraction.len() as u32))
        }
    }

    /// Reads a decimal from text.
    pub fn from_str(s: &str) -> (r: Result<Decimal, DecimalError>)
        ensures
            r == Decimal::parsed(s@),
    {
        let n: usize = s.unicode_len();
        let mut start: usize = 0;
        let mut negative: bool = false;
        if n > 0 {
            let c: char = s.get_char(0);
            if c == '-' {
                negative = true;
                start = 1;
            } else if c == '+' {
                start = 1;
            }
        }
        let ghost body = s@.skip(start as int);
        let ghost is_dot = crate::text::is_point();
        let mut dot: usize = start;
        let mut found: bool = false;
        while dot < n && !found
            invariant
                start <= dot <= n,
                n == s@.len(),
                body == s@.skip(start as int),
                is_dot == crate::text::is_point(),
                forall|k: int| 0 <= k < dot - start ==> !is_dot(#[trigger] body[k]),
                found ==> dot < n && is_dot(body[dot - start]),
            decreases n - dot + (if found { 0int } else { 1int }),
        {
            if s.get_char(dot) == '.' {
                found = true;
            } else {
                dot = dot + 1;
            }
        }
        proof {
            assert(s@.skip(0) =~= s@);
            crate::seqs::lemma_first_where_is(body, is_dot, dot - start);
            assert(body.take(dot - start) =~= s@.subrange(start as int, dot as int));
            if dot < n {
                assert(body.skip(dot - start + 1) =~= s@.subrange(dot + 1, n as int));
            } else {
                assert(s@.subrange(n as int, n as int) =~= Seq::<char>::empty());
            }
        }
        let after: usize = if dot < n {
            dot + 1
        } else {
            n
        };
        if dot == start || !crate::text::all_digits(s, start, dot) || (dot < n && after == n)
            || !crate::text::all_digits(s, after, n) {
            return Err(DecimalError::Syntax);
        }
        if n - after > MAX_SCALE as usize {
            return Err(DecimalError::ScaleOutOfRange);
        }
        let scale: u32 = (n - after) as u32;
        let limit: u128 = if negative {
            0x8000_0000_0000_0000_0000_0000_0000_0000
        } else {
            0x7fff_ffff_ffff_ffff_ffff_ffff_ffff_ffff
        };
        let ghost whole = s@.subrange(start as int, dot as int);
        let ghost fraction = s@.subrange(after as int, n as int);
        proof {
            assert(Seq::<char>::empty() + whole =~= whole);
            crate::text::lemma_value_nonneg(whole);
            assert forall|k: int| 0 <= k < (whole + fraction).len() implies crate::text::is_digit(
                #[trigger] (whole + fraction)[k],
            ) by {
                if k < whole.len() {
                    assert((whole + fraction)[k] == whole[k]);
                } else {
                    assert((whole + fraction)[k] == fraction[k - whole.len()]);
                }
            }
            crate::text::lemma_value_nonneg(whole + fraction);
            crate::text::lemma_value_prefix(whole + fraction, whole.len() as int);
            assert((whole + fraction).take(whole.len() as int) =~= whole);
        }
        let head: u128 = match crate::text::extend_digits(
            s,
            start,
            dot,
            0,
            Ghost(Seq::empty()),
            limit,
        ) {
            Some(v) => v,
            None => {
                return Err(DecimalError::PrecisionOverflow);
            },
        };
        let magnitude: u128 = match crate::text::extend_digits(
            s,
            after,
            n,
            head,
            Ghost(whole),
            limit,
        ) {
            Some(v) => v,
            None => {
                return Err(DecimalError::PrecisionOverflow);
            },
        };
        let mantissa: i128 = if negative {
            if magnitude == 0x8000_0000_0000_0000_0000_0000_0000_0000 {
                i128::MIN
            } else {
                -(magnitude as i128)
            }
        } else {
            magnitude as i128
        };
        Ok(Decimal { mantissa, scale })
    }

    /// Zero, at scale 0.
    pub fn zero() -> (r: Decimal)
        ensures
            r == Decimal::from_parts(0, 0),
            r@ == 0,
    {
        Decimal { mantissa: 0, scale: 0 }
    }

    #[verifier::when_used_as_spec(spec_mantissa)]
    pub fn mantissa(&self) -> (m: i128)
        ensures
            m == self.spec_mantissa(),
    {
        self.mantissa
    }

    #[verifier::when_used_as_spec(spec_scale)]
    pub fn scale(&self) -> (s: u32)
        ensures
            s == self.spec_scale(),
            s <= MAX_SCALE,
    {
        proof {
            use_type_invariant(self);
        }
        self.scale
    }

    pub fn is_zero(&self) -> (b: bool)
        ensures
            b == (self@ == 0),
    {
        proof {
            use_type_invariant(self);
            lemma_value_of_order(self.mantissa as int, 0, self.scale as nat);
        }
        self.mantissa == 0
    }

    pub fn is_positive(&self) -> (b: bool)
        ensures
            b == (self@ > 0),
    {
        proof {
            use_type_invariant(self);
            lemma_value_of_order(self.mantissa as int, 0, self.scale as nat);
        }
        self.mantissa > 0
    }

    pub fn is_negative(&self) -> (b: bool)
        ensures
            b == (self@ < 0),
    {
        proof {
            use_type_invariant(self);
            lemma_value_of_order(self.mantissa as int, 0, self.scale as nat);
        }
        self.mantissa < 0
    }

    /// `-1`, `0` or `1` as `self` is below, equal to or above `other` in
    /// value, whatever their scales.
    pub fn compare(&self, other: &Decimal) -> (r: i8)
        ensures
            r == order_of(self@, other@),
    {
        proof {
            use_type_invariant(self);
            use_type_invariant(other);
        }
        if self.scale <= other.scale {
            order_aligned(self.mantissa, self.scale, other.mantissa, other.scale)
        } else {
            let o: i8 = order_aligned(other.mantissa, other.scale, self.mantissa, self.scale);
            if o < 0 {
                1
            } else if o == 0 {
                0
            } else {
                -1
            }
        }
    }

    pub fn lt(&self, other: &Decimal) -> (b: bool)
        ensures
            b == (self@ < other@),
    {
        self.compare(other) < 0
    }

    pub fn le(&self, other: &Decimal) -> (b: bool)
        ensures
            b == (self@ <= other@),
    {
        self.compare(other) <= 0
    }

    pub fn gt(&self, other: &Decimal) -> (b: bool)
        ensures
            b == (self@ > other@),
    {
        self.compare(other) > 0
    }

    pub fn ge(&self, other: &Decimal) -> (b: bool)
        ensures
            b == (self@ >= other@),
    {
        self.compare(other) >= 0
    }

    /// The sum, at the finer of the two scales.
    pub fn checked_add(&self, other: &Decimal) -> (r: Result<Decimal, DecimalError>)
        ensures
            r is Ok <==> !self.add_overflows(other),
            r matches Ok(d) ==> d@ == self@ + other@ && d.spec_scale() == if self.spec_scale()
                >= other.spec_scale() {
                self.spec_scale()
            } else {
                other.spec_scale()
            },
            r matches Err(e) ==> e == DecimalError::PrecisionOverflow,
    {
        proof {
            use_type_invariant(self);
            use_type_invariant(other);
        }
        let s: u32 = if self.scale >= other.scale {
            self.scale
        } else {
            other.scale
        };
        let a: i128 = match align(self.mantissa, self.scale, s) {
            Some(a) => a,
            None => {
                return Err(DecimalError::PrecisionOverflow);
            },
        };
        let b: i128 = match align(other.mantissa, other.scale, s) {
            Some(b) => b,
            None => {
                return Err(DecimalError::PrecisionOverflow);
            },
        };
        match a.checked_add(b) {
            Some(m) => {
                proof {
                    let k = pow10((MAX_SCALE - s) as nat);
                    assert((a + b) * k == a * k + b * k) by (nonlinear_arith);
                }
                Ok(Decimal { mantissa: m, scale: s })
            },
            None => Err(DecimalError::PrecisionOverflow),
        }
    }

    /// The difference, at the finer of the two scales.
    pub fn checked_sub(&self, other: &Decimal) -> (r: Result<Decimal, DecimalError>)
        ensures
            r is Ok <==> !self.sub_overflows(other),
            r matches Ok(d) ==> d@ == self@ - other@ && d.spec_scale() == if self.spec_scale()
                >= other.spec_scale() {
                self.spec_scale()
            } else {
                other.spec_scale()
            },
            r matches Err(e) ==> e == DecimalError::PrecisionOverflow,
    {
        proof {
            use_type_invariant(self);
            use_type_invariant(other);
        }
        let s: u32 = if self.scale >= other.scale {
            self.scale
        } else {
            other.scale
        };
        let a: i128 = match align(self.mantissa, self.scale, s) {
            Some(a) => a,
            None => {
                return Err(DecimalError::PrecisionOverflow);
            },
        };
        let b: i128 = match align(other.mantissa, other.scale, s) {
            Some(b) => b,
            None => {
                return Err(DecimalError::PrecisionOverflow);
            },
        };
        match a.checked_sub(b) {
            Some(m) => {
                proof {
                    let k = pow10((MAX_SCALE - s) as nat);
                    assert((a - b) * k == a * k - b * k) by (nonlinear_arith);
                }
                Ok(Decimal { mantissa: m, scale: s })
            },
            None => Err(DecimalError::PrecisionOverflow),
        }
    }

    /// The decimal times the integer `k`, at the same scale.
    pub fn checked_mul_int(&self, k: i128) -> (r: Result<Decimal, DecimalError>)
        ensures
            r is Ok <==> fits_i128(self.spec_mantissa() * k),
            r matches Ok(d) ==> d@ == self@ * k && d.spec_scale() == self.spec_scale()
                && d.spec_mantissa() == self.spec_mantissa() * k,
            r matches Err(e) ==> e == DecimalError::PrecisionOverflow,
    {
        proof {
            use_type_invariant(self);
        }
        match self.mantissa.checked_mul(k) {
            Some(m) => {
                proof {
                    let p = pow10((MAX_SCALE - self.scale) as nat);
                    let a = self.mantissa as int;
                    assert((a * k) * p == (a * p) * k) by (nonlinear_arith);
                }
                Ok(Decimal { mantissa: m, scale: self.scale })
            },
            None => Err(DecimalError::PrecisionOverflow),
        }
    }

    /// The product: the mantissas multiplied, the scales added.
    pub fn checked_mul(&self, other: &Decimal) -> (r: Result<Decimal, DecimalError>)
        ensures
            r is Ok <==> self.spec_scale() + other.spec_scale() <= MAX_SCALE && fits_i128(
                self.spec_mantissa() * other.spec_mantissa(),
            ),
            r matches Ok(d) ==> d.spec_mantissa() == self.spec_mantissa() * other.spec_mantissa()
                && d.spec_scale() == self.spec_scale() + other.spec_scale() && d@ * pow10(
                MAX_SCALE as nat,
            ) == self@ * other@,
            r matches Err(e) ==> e == DecimalError::PrecisionOverflow,
    {
        proof {
            use_type_invariant(self);
            use_type_invariant(other);
        }
        if self.scale > MAX_SCALE - other.scale {
            return Err(DecimalError::PrecisionOverflow);
        }
        let s: u32 = self.scale + other.scale;
        match self.mantissa.checked_mul(other.mantissa) {
            Some(m) => {
                proof {
                    let sa = self.scale as nat;
                    let sb = other.scale as nat;
                    let a = self.mantissa as int;
                    let b = other.mantissa as int;
                    let pa = pow10((MAX_SCALE - sa) as nat);
                    let pb = pow10((MAX_SCALE - sb) as nat);
                    let pab = pow10((MAX_SCALE - sa - sb) as nat);
                    let pm = pow10(MAX_SCALE as nat);
                    // 10^(28-sa) * 10^(28-sb) == 10^(28-sa-sb) * 10^28
                    lemma_pow10_adds((MAX_SCALE - sa) as nat, (MAX_SCALE - sb) as nat);
                    lemma_pow10_adds((MAX_SCALE - sa - sb) as nat, MAX_SCALE as nat);
                    assert(((MAX_SCALE - sa) as nat) + ((MAX_SCALE - sb) as nat) == ((MAX_SCALE
                        - sa - sb) as nat) + (MAX_SCALE as nat));
                    assert(pa * pb == pab * pm);
                    assert(((a * b) * pab) * pm == (a * pa) * (b * pb)) by (nonlinear_arith)
                        requires
                            pa * pb == pab * pm,
                    ;
                }
                Ok(Decimal { mantissa: m, scale: s })
            },
            None => Err(DecimalError::PrecisionOverflow),
        }
    }

    /// The decimal at another scale. A finer scale keeps the value; a coarser
    /// one drops digits and rounds by `mode`.
    pub fn rescale(&self, scale: u32, mode: RoundingMode) -> (r: Result<Decimal, DecimalError>)
        ensures
            scale > MAX_SCALE ==> r == Err::<Decimal, DecimalError>(DecimalError::ScaleOutOfRange),
            self.spec_scale() <= scale <= MAX_SCALE ==> (r is Ok <==> fits_i128(
                self.spec_mantissa() * pow10((scale - self.spec_scale()) as nat),
            )) && (r matches Ok(d) ==> d@ == self@ && d.spec_scale() == scale) && (r matches Err(e)
                ==> e == DecimalError::PrecisionOverflow),
            scale < self.spec_scale() ==> r == Ok::<Decimal, DecimalError>(
                Decimal::from_parts(
                    round_div(
                        self.spec_mantissa() as int,
                        pow10((self.spec_scale() - scale) as nat),
                        mode,
                    ) as i128,
                    scale,
                ),
            ) && fits_i128(
                round_div(
                    self.spec_mantissa() as int,
                    pow10((self.spec_scale() - scale) as nat),
                    mode,
                ),
            ),
    {
        proof {
            use_type_invariant(self);
        }
        if scale > MAX_SCALE {
            return Err(DecimalError::ScaleOutOfRange);
        }
        if scale >= self.scale {
            return match align(self.mantissa, self.scale, scale) {
                Some(m) => Ok(Decimal { mantissa: m, scale }),
                None => Err(DecimalError::PrecisionOverflow),
            };
        }
        let p: i128 = pow10_exec(self.scale - scale);
        let m: i128 = self.mantissa;
        proof {
            // scale < self.scale, so p >= 10
            assert(pow10((self.scale - scale) as nat) == 10 * pow10((self.scale - scale - 1) as nat));
            lemma_pow10_positive((self.scale - scale - 1) as nat);
            vstd::arithmetic::div_mod::lemma_fundamental_div_mod(m as int, p as int);
            vstd::arithmetic::div_mod::lemma_mod_bound(m as int, p as int);
            let q = m as int / p as int;
            let r = m as int % p as int;
            assert(-17014118346046923173168730371588410573 <= q
                <= 17014118346046923173168730371588410573) by (nonlinear_arith)
                requires
                    m == p * q + r,
                    0 <= r < p,
                    p >= 10,
                    -170141183460469231731687303715884105728 <= m
                        <= 170141183460469231731687303715884105727,
            ;
        }
        let q: i128 = match m.checked_div_euclid(p) {
            Some(q) => q,
            None => 0,
        };
        let r: i128 = match m.checked_rem_euclid(p) {
            Some(r) => r,
            None => 0,
        };
        let up: bool = match mode {
            RoundingMode::TowardZero => !(r == 0 || m >= 0),
            RoundingMode::AwayFromZero => !(r == 0 || m < 0),
            RoundingMode::HalfEven => {
                let twice: i128 = 2 * r;
                if twice < p {
                    false
                } else if twice > p {
                    true
                } else {
                    let parity: i128 = match q.checked_rem_euclid(2) {
                        Some(x) => x,
                        None => 0,
                    };
                    parity != 0
                }
            },
        };
        let rounded: i128 = if up {
            q + 1
        } else {
            q
        };
        Ok(Decimal { mantissa: rounded, scale })
    }

    /// The mantissa that writes this decimal at `scale` without loss, if a
    /// 128-bit one exists.
    pub fn units_at(&self, scale: u32) -> (r: Option<i128>)
        requires
            scale <= MAX_SCALE,
        ensures
            r is Some <==> exists|u: i128| value_of(u as int, scale as nat) == self@,
            r matches Some(u) ==> value_of(u as int, scale as nat) == self@,
    {
        proof {
            use_type_invariant(self);
        }
        if scale >= self.scale {
            let r = align(self.mantissa, self.scale, scale);
            proof {
                if r is None {
                    let x = self.mantissa * pow10((scale - self.scale) as nat);
                    lemma_value_of_aligned(self.mantissa as int, self.scale as nat, scale as nat);
                    assert forall|u: i128| value_of(u as int, scale as nat) != self@ by {
                        lemma_value_of_order(u as int, x, scale as nat);
                    }
                }
            }
            r
        } else {
            let p: i128 = pow10_exec(self.scale - scale);
            let m: i128 = self.mantissa;
            proof {
                vstd::arithmetic::div_mod::lemma_fundamental_div_mod(m as int, p as int);
                vstd::arithmetic::div_mod::lemma_mod_bound(m as int, p as int);
                let q = m as int / p as int;
                let r = m as int % p as int;
                assert(-170141183460469231731687303715884105728 <= q
                    <= 170141183460469231731687303715884105727) by (nonlinear_arith)
                    requires
                        m == p * q + r,
                        0 <= r < p,
                        p >= 1,
                        -170141183460469231731687303715884105728 <= m
                            <= 170141183460469231731687303715884105727,
                ;
                // u at `scale` has the value of u * p at `self.scale`
                assert forall|u: i128|
                    value_of(u as int, scale as nat) == self@ implies m as int == u * p by {
                    lemma_value_of_aligned(u as int, scale as nat, self.scale as nat);
                    lemma_value_of_order(u * p, m as int, self.scale as nat);
                }
                if r != 0 {
                    assert forall|u: i128| value_of(u as int, scale as nat) != self@ by {
                        if value_of(u as int, scale as nat) == self@ {
                            vstd::arithmetic::div_mod::lemma_fundamental_div_mod_converse(
                                m as int,
                                p as int,
                                u as int,
                                0,
                            );
                        }
                    }
                } else {
                    lemma_value_of_aligned(q, scale as nat, self.scale as nat);
                    assert(q * p == m) by (nonlinear_arith)
                        requires
                            m == p * q + r,
                            r == 0,
                    ;
                }
            }
            let r: i128 = match m.checked_rem_euclid(p) {
                Some(r) => r,
                None => 0,
            };
            if r != 0 {
                None
            } else {
                m.checked_div_euclid(p)
            }
        }
    }
}

impl PartialEq for Decimal {
    /// Equality of value: `1.0` equals `1.00`.
    fn eq(&self, other: &Decimal) -> (r: bool) {
        self.compare(other) == 0
    }
}

impl vstd::std_specs::cmp::PartialEqSpecImpl for Decimal {
    open spec fn obeys_eq_spec() -> bool {
        true
    }

    open spec fn eq_spec(&self, other: &Decimal) -> bool {
        self@ == other@
    }
}

} // verus!
