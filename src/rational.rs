//! Exact rational numbers, with their arithmetic delegated to the
//! `fraction` crate.
use vstd::prelude::*;
use fraction::{GenericFraction, Ratio, Sign};
use fraction::{CheckedAdd, CheckedDiv, CheckedMul, CheckedSub};

verus! {

/// A rational number `±numer/denom`, held as plain values.
#[derive(Clone, Copy, Debug, PartialEq, Eq, Structural)]
pub struct Rational {
    pub negative: bool,
    pub numer: u64,
    pub denom: u64,
}

impl Rational {
    /// A rational is well formed when its denominator is positive.
    pub open spec fn wf(self) -> bool {
        self.denom > 0
    }

    /// The signed numerator.
    pub open spec fn num(self) -> int {
        if self.negative {
            -(self.numer as int)
        } else {
            self.numer as int
        }
    }

    /// The denominator.
    pub open spec fn den(self) -> int {
        self.denom as int
    }

    /// The rational `n/1`.
    pub fn from_integer(n: u64) -> (r: Rational)
        ensures
            r.wf(),
            r.num() == n as int,
            r.den() == 1,
            r == (Rational { negative: false, numer: n, denom: 1 }),
    {
        Rational { negative: false, numer: n, denom: 1 }
    }

    /// The rational `±numer/denom`.
    pub fn new(negative: bool, numer: u64, denom: u64) -> (r: Rational)
        requires
            denom > 0,
        ensures
            r.wf(),
            r == (Rational { negative, numer, denom }),
    {
        Rational { negative, numer, denom }
    }

    /// Whether the value is zero.
    pub fn is_zero(&self) -> (r: bool)
        ensures
            r == (self.num() == 0),
    {
        self.numer == 0
    }
}

/// The bound below which the checked operations of `fraction` never
/// overflow a `u64`.
pub const SMALL: u64 = 0x8000_0000;

/// Numerator and denominator are below `SMALL`.
pub open spec fn small(q: Rational) -> bool {
    q.numer < SMALL && q.denom < SMALL
}

/// Two rationals denote the same number.
pub open spec fn same_value(a: Rational, b: Rational) -> bool {
    a.num() * b.den() == b.num() * a.den()
}

/// What `fraction`'s decimal parser reads from a text, when it reads a
/// finite value.
pub uninterp spec fn fraction_of(s: Seq<char>) -> Option<Rational>;

/// The digit character of `d < 10`.
pub open spec fn digit_char(d: nat) -> char {
    ('0' as u32 + d) as char
}

/// The decimal digits of `n`, without leading zeros.
pub open spec fn digits_of(n: nat) -> Seq<char>
    decreases n,
{
    if n < 10 {
        seq![digit_char(n)]
    } else {
        digits_of(n / 10).push(digit_char(n % 10))
    }
}

/// Every character is an ASCII digit.
pub open spec fn all_digits(s: Seq<char>) -> bool {
    forall|i: int| 0 <= i < s.len() ==> '0' <= #[trigger] s[i] && s[i] <= '9'
}

/// The number that a string of decimal digits spells.
pub open spec fn digits_value(s: Seq<char>) -> nat
    decreases s.len(),
{
    if s.len() == 0 {
        0
    } else {
        digits_value(s.drop_last()) * 10 + (s.last() as u32 - '0' as u32) as nat
    }
}

/// Some character is an ASCII letter.
pub open spec fn has_letter(s: Seq<char>) -> bool {
    exists|i: int| 0 <= i < s.len() && crate::text::ascii_letter(#[trigger] s[i])
}

/// What `fraction`'s parser reads from a text: a string of digits is the
/// integer it spells (when it fits in a `u64`), a text with a letter is no
/// number, other texts are named by `fraction_of`.
pub open spec fn number_of(s: Seq<char>) -> Option<Rational> {
    if s.len() > 0 && all_digits(s) {
        if digits_value(s) <= u64::MAX {
            Some(Rational { negative: false, numer: digits_value(s) as u64, denom: 1 })
        } else {
            None
        }
    } else if has_letter(s) {
        None
    } else {
        fraction_of(s)
    }
}

/// What `fraction`'s `Display` writes: `-` for a negative value, the digits
/// of the numerator, and `/` with the digits of the denominator unless the
/// numerator is zero or the denominator is one.
pub open spec fn decimal_text(q: Rational) -> Seq<char> {
    (if q.negative {
        seq!['-']
    } else {
        Seq::empty()
    }) + digits_of(q.numer as nat) + (if q.numer != 0 && q.denom != 1 {
        seq!['/'] + digits_of(q.denom as nat)
    } else {
        Seq::empty()
    })
}

/// Relies on `FromStr for GenericFraction<u64>`: reads an optional sign and a
/// decimal integer, a decimal point number or `n/d`, with digits only; the
/// denominator it builds is positive. A text with `/` is kept out, since `n/0`
/// panics there.
#[verifier::external_body]
pub(crate) fn parse_decimal(s: &str) -> (r: Option<Rational>)
    requires
        !s@.contains('/'),
    ensures
        s@.len() > 0 && all_digits(s@) ==> r == (if digits_value(s@) <= u64::MAX {
            Some(Rational { negative: false, numer: digits_value(s@) as u64, denom: 1 })
        } else {
            None
        }),
        !(s@.len() > 0 && all_digits(s@)) && has_letter(s@) ==> r is None,
        !(s@.len() > 0 && all_digits(s@)) && !has_letter(s@) ==> r == fraction_of(s@),
        r matches Some(q) ==> q.wf(),
{
    match <GenericFraction<u64> as std::str::FromStr>::from_str(s) {
        Ok(GenericFraction::Rational(sign, v)) =>
            Some(Rational { negative: sign == Sign::Minus, numer: *v.numer(), denom: *v.denom() }),
        _ => None,
    }
}

/// Relies on `Display for GenericFraction<u64>` (`format_fraction`): sign,
/// numerator in decimal digits and, unless the numerator is zero or the
/// denominator one, `/` and the denominator.
#[verifier::external_body]
pub(crate) fn render_decimal(q: Rational) -> (r: Vec<char>)
    ensures
        r@ == decimal_text(q),
{
    let f = GenericFraction::Rational(if q.negative { Sign::Minus } else { Sign::Plus }, Ratio::new_raw(q.numer, q.denom));
    f.to_string().chars().collect()
}

/// Relies on `CheckedAdd for GenericFraction<u64>` and `Ratio::checked_add`:
/// the exact sum of two finite values, reduced from `(a*lcm/b + c*lcm/d)/lcm`,
/// or `None` where a `u64` overflows, which cannot happen below `SMALL`.
#[verifier::external_body]
pub(crate) fn checked_sum(a: Rational, b: Rational) -> (r: Option<Rational>)
    requires
        a.wf(),
        b.wf(),
    ensures
        r matches Some(q) ==> q.wf() && q.num() * (a.den() * b.den()) == (a.num() * b.den()
            + b.num() * a.den()) * q.den(),
        small(a) && small(b) ==> r is Some,
        r matches Some(q) ==> q.numer <= a.numer * b.denom + b.numer * a.denom && q.denom <= a.denom
            * b.denom,
{
    let f = |q: Rational| GenericFraction::Rational(if q.negative { Sign::Minus } else { Sign::Plus }, Ratio::new_raw(q.numer, q.denom));
    match f(a).checked_add(&f(b)) {
        Some(GenericFraction::Rational(s, v)) => Some(Rational { negative: s == Sign::Minus, numer: *v.numer(), denom: *v.denom() }),
        _ => None,
    }
}

/// Relies on `CheckedSub for GenericFraction<u64>` and `Ratio::checked_add`
/// and `checked_sub`: the exact difference of two finite values, or `None`
/// where a `u64` overflows, which cannot happen below `SMALL`.
#[verifier::external_body]
pub(crate) fn checked_difference(a: Rational, b: Rational) -> (r: Option<Rational>)
    requires
        a.wf(),
        b.wf(),
    ensures
        r matches Some(q) ==> q.wf() && q.num() * (a.den() * b.den()) == (a.num() * b.den()
            - b.num() * a.den()) * q.den(),
        small(a) && small(b) ==> r is Some,
        r matches Some(q) ==> q.numer <= a.numer * b.denom + b.numer * a.denom && q.denom <= a.denom
            * b.denom,
{
    let f = |q: Rational| GenericFraction::Rational(if q.negative { Sign::Minus } else { Sign::Plus }, Ratio::new_raw(q.numer, q.denom));
    match f(a).checked_sub(&f(b)) {
        Some(GenericFraction::Rational(s, v)) => Some(Rational { negative: s == Sign::Minus, numer: *v.numer(), denom: *v.denom() }),
        _ => None,
    }
}

/// Relies on `CheckedMul for GenericFraction<u64>` and `Ratio::checked_mul`:
/// the exact product, cross-reduced and reduced, or `None` where a `u64`
/// overflows, which cannot happen below `SMALL`.
#[verifier::external_body]
pub(crate) fn checked_product(a: Rational, b: Rational) -> (r: Option<Rational>)
    requires
        a.wf(),
        b.wf(),
    ensures
        r matches Some(q) ==> q.wf() && q.num() * (a.den() * b.den()) == (a.num() * b.num())
            * q.den(),
        small(a) && small(b) ==> r is Some,
        r matches Some(q) ==> q.numer <= a.numer * b.numer && q.denom <= a.denom * b.denom,
{
    let f = |q: Rational| GenericFraction::Rational(if q.negative { Sign::Minus } else { Sign::Plus }, Ratio::new_raw(q.numer, q.denom));
    match f(a).checked_mul(&f(b)) {
        Some(GenericFraction::Rational(s, v)) => Some(Rational { negative: s == Sign::Minus, numer: *v.numer(), denom: *v.denom() }),
        _ => None,
    }
}

/// Relies on `CheckedDiv for GenericFraction<u64>` and `Ratio::checked_div`:
/// the exact quotient of a finite value by a nonzero one, reduced, or `None`
/// where a `u64` overflows, which cannot happen below `SMALL`.
#[verifier::external_body]
pub(crate) fn checked_quotient(a: Rational, b: Rational) -> (r: Option<Rational>)
    requires
        a.wf(),
        b.wf(),
        b.num() != 0,
    ensures
        r matches Some(q) ==> q.wf() && q.num() * (a.den() * b.num()) == (a.num() * b.den())
            * q.den(),
        small(a) && small(b) ==> r is Some,
        r matches Some(q) ==> q.numer <= a.numer * b.denom && q.denom <= a.denom * b.numer,
{
    let f = |q: Rational| GenericFraction::Rational(if q.negative { Sign::Minus } else { Sign::Plus }, Ratio::new_raw(q.numer, q.denom));
    match f(a).checked_div(&f(b)) {
        Some(GenericFraction::Rational(s, v)) => Some(Rational { negative: s == Sign::Minus, numer: *v.numer(), denom: *v.denom() }),
        _ => None,
    }
}

} // verus!
