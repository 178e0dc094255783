//! Fixed-point arithmetic in micro-units.
//!
//! A value is an `i64` count of millionths. Addition and subtraction are
//! exact. Multiplication and division round half to even at exactly one
//! point: after the full product has been formed in `i128`. Division exists
//! only as named operations that state their rounding rule.
//!
//! Micro rather than milli because the game needs four decimals: the Rogue's
//! base Action Speed is 7.8125%, which micro-units carry exactly as
//! `7_812_500`.

use vstd::prelude::*;

use crate::text::{chars_of, string_of};

verus! {

/// Number of micro-units per whole unit.
pub const SCALE: i64 = 1_000_000i64;

/// Rounds `n / d` half to even, for a positive divisor: the Euclidean
/// quotient, raised by one when the remainder is more than half of `d`, or
/// exactly half and the quotient is odd.
pub open spec fn round_half_even(n: int, d: int) -> int {
    let q = n / d;
    let r = n % d;
    if 2 * r > d || (2 * r == d && q % 2 != 0) {
        q + 1
    } else {
        q
    }
}

/// `a * b / c` rounded half to even, with the sign of the divisor moved
/// onto the product so the rounding is always done by a positive divisor.
pub open spec fn mul_div_spec(a: int, b: int, c: int) -> int {
    if c < 0 {
        round_half_even(-(a * b), -c)
    } else {
        round_half_even(a * b, c)
    }
}

/// Whether a mathematical integer fits the `i64` micro range.
pub open spec fn in_micro_range(v: int) -> bool {
    i64::MIN <= v <= i64::MAX
}

/// Smallest whole count of `step` that reaches `total`, both positive.
pub open spec fn ceil_div(total: int, step: int) -> int {
    total / step + if total % step != 0 { 1int } else { 0int }
}

/// Fixed-point number, scale 1e-6. `7.8125` is stored as `7_812_500`.
#[derive(Copy, Clone, PartialEq, Eq, Structural, PartialOrd, Ord, Debug)]
pub struct Fixed(i64);

impl View for Fixed {
    type V = int;

    /// The micro-unit count as a mathematical integer.
    closed spec fn view(&self) -> int {
        self.0 as int
    }
}

/// Two values with the same micro count are the same value, and every value
/// lies in the micro range.
pub broadcast proof fn lemma_fixed_view(x: Fixed, y: Fixed)
    ensures
        #![trigger x@, y@]
        x@ == y@ <==> x == y,
        in_micro_range(x@),
{
}

impl Fixed {
    /// Zero.
    pub fn zero() -> (r: Fixed)
        ensures
            r@ == 0,
    {
        Fixed(0)
    }

    /// One whole unit.
    pub fn one() -> (r: Fixed)
        ensures
            r@ == SCALE,
    {
        Fixed(SCALE)
    }

    /// Wraps a raw micro-unit count.
    pub fn from_micro(micro: i64) -> (r: Fixed)
        ensures
            r@ == micro,
    {
        Fixed(micro)
    }

    /// Converts a whole number of units, which must fit the micro range.
    pub fn from_int(units: i64) -> (r: Fixed)
        requires
            in_micro_range(units * SCALE),
        ensures
            r@ == units * SCALE,
    {
        Fixed(units * SCALE)
    }

    /// The raw micro-unit count: the canonical wire representation.
    pub fn micro(self) -> (r: i64)
        ensures
            r == self@,
    {
        self.0
    }

    /// True if the value is exactly zero.
    pub fn is_zero(self) -> (r: bool)
        ensures
            r == (self@ == 0),
    {
        self.0 == 0
    }

    /// Exact sum; the operands must not leave the micro range.
    pub fn plus(self, rhs: Fixed) -> (r: Fixed)
        requires
            in_micro_range(self@ + rhs@),
        ensures
            r@ == self@ + rhs@,
    {
        Fixed(self.0 + rhs.0)
    }

    /// Exact difference; the operands must not leave the micro range.
    pub fn minus(self, rhs: Fixed) -> (r: Fixed)
        requires
            in_micro_range(self@ - rhs@),
        ensures
            r@ == self@ - rhs@,
    {
        Fixed(self.0 - rhs.0)
    }

    /// Exact negation.
    pub fn negate(self) -> (r: Fixed)
        requires
            self@ != i64::MIN,
        ensures
            r@ == -self@,
    {
        Fixed(-self.0)
    }

    /// The larger of two values.
    pub fn max_of(self, rhs: Fixed) -> (r: Fixed)
        ensures
            r@ == if self@ >= rhs@ { self@ } else { rhs@ },
    {
        if self.0 >= rhs.0 {
            self
        } else {
            rhs
        }
    }

    /// The smaller of two values.
    pub fn min_of(self, rhs: Fixed) -> (r: Fixed)
        ensures
            r@ == if self@ <= rhs@ { self@ } else { rhs@ },
    {
        if self.0 <= rhs.0 {
            self
        } else {
            rhs
        }
    }

    /// Multiplies and divides in one step: `self * num / den`, rounded half
    /// to even at the single final division. The full product is formed in
    /// `i128` first, so nothing rounds in between.
    ///
    /// The divisor must be non-zero and the result must fit the micro range.
    pub fn mul_div_half_even(self, num: Fixed, den: Fixed) -> (r: Fixed)
        requires
            den@ != 0,
            in_micro_range(mul_div_spec(self@, num@, den@)),
        ensures
            r@ == mul_div_spec(self@, num@, den@),
    {
        let a: i128 = self.0 as i128;
        let b: i128 = num.0 as i128;
        proof {
            lemma_product_fits(a as int, b as int);
        }
        let mut product: i128 = a * b;
        let mut divisor: i128 = den.0 as i128;
        if divisor < 0 {
            product = -product;
            divisor = -divisor;
        }
        let q = div_round_half_even(product, divisor);
        Fixed(q as i64)
    }

    /// [`Fixed::mul_div_half_even`], or `None` when the result leaves the
    /// micro range.
    pub fn checked_mul_div_half_even(self, num: Fixed, den: Fixed) -> (r: Option<Fixed>)
        requires
            den@ != 0,
        ensures
            in_micro_range(mul_div_spec(self@, num@, den@)) ==> r is Some && r->0@ == mul_div_spec(self@, num@, den@),
            !in_micro_range(mul_div_spec(self@, num@, den@)) ==> r is None,
    {
        let a: i128 = self.0 as i128;
        let b: i128 = num.0 as i128;
        proof {
            lemma_product_fits(a as int, b as int);
        }
        let mut product: i128 = a * b;
        let mut divisor: i128 = den.0 as i128;
        if divisor < 0 {
            product = -product;
            divisor = -divisor;
        }
        let q = div_round_half_even(product, divisor);
        if q < i64::MIN as i128 || q > i64::MAX as i128 {
            None
        } else {
            Some(Fixed(q as i64))
        }
    }

    /// The exact sum, or `None` when it leaves the micro range.
    pub fn checked_plus(self, rhs: Fixed) -> (r: Option<Fixed>)
        ensures
            in_micro_range(self@ + rhs@) ==> r is Some && r->0@ == self@ + rhs@,
            !in_micro_range(self@ + rhs@) ==> r is None,
    {
        let v = self.0 as i128 + rhs.0 as i128;
        if v < i64::MIN as i128 || v > i64::MAX as i128 {
            None
        } else {
            Some(Fixed(v as i64))
        }
    }

    /// The exact difference, or `None` when it leaves the micro range.
    pub fn checked_minus(self, rhs: Fixed) -> (r: Option<Fixed>)
        ensures
            in_micro_range(self@ - rhs@) ==> r is Some && r->0@ == self@ - rhs@,
            !in_micro_range(self@ - rhs@) ==> r is None,
    {
        let v = self.0 as i128 - rhs.0 as i128;
        if v < i64::MIN as i128 || v > i64::MAX as i128 {
            None
        } else {
            Some(Fixed(v as i64))
        }
    }

    /// Banker's-rounded product: `self * rhs / 1`, one rounding.
    pub fn times(self, rhs: Fixed) -> (r: Fixed)
        requires
            in_micro_range(mul_div_spec(self@, rhs@, SCALE as int)),
        ensures
            r@ == mul_div_spec(self@, rhs@, SCALE as int),
    {
        self.mul_div_half_even(rhs, Fixed(SCALE))
    }

    /// Division rounding half to even. The divisor must be non-zero.
    pub fn div_half_even(self, rhs: Fixed) -> (r: Fixed)
        requires
            rhs@ != 0,
            in_micro_range(mul_div_spec(self@, SCALE as int, rhs@)),
        ensures
            r@ == mul_div_spec(self@, SCALE as int, rhs@),
    {
        self.mul_div_half_even(Fixed(SCALE), rhs)
    }

    /// How many whole `self` it takes to cover `total`, rounded up: three
    /// point nine swings is four swings.
    ///
    /// `None` when `self` is zero or negative, because an attack that takes
    /// nothing off never finishes; `Some(0)` when there is nothing to cover.
    pub fn hits_to_cover(self, total: Fixed) -> (r: Option<i64>)
        ensures
            self@ <= 0 ==> r is None,
            self@ > 0 && total@ <= 0 ==> r == Some(0i64),
            self@ > 0 && total@ > 0 ==> r is Some && r->0 == ceil_div(total@, self@),
    {
        if self.0 <= 0 {
            return None;
        }
        if total.0 <= 0 {
            return Some(0);
        }
        proof {
            lemma_small_quotient(total@, self@);
        }
        let q = total.0.checked_div_euclid(self.0).unwrap();
        let m = total.0.checked_rem_euclid(self.0).unwrap();
        if m != 0 {
            Some(q + 1)
        } else {
            Some(q)
        }
    }

    /// How many whole `self` fit inside `total`, rounded down.
    ///
    /// `None` when `self` is zero or negative; `Some(0)` when `total` is not
    /// positive.
    pub fn whole_multiples_in(self, total: Fixed) -> (r: Option<i64>)
        ensures
            self@ <= 0 ==> r is None,
            self@ > 0 && total@ <= 0 ==> r == Some(0i64),
            self@ > 0 && total@ > 0 ==> r == Some((total@ / self@) as i64),
            self@ > 0 && total@ > 0 ==> r->0 == total@ / self@,
    {
        if self.0 <= 0 {
            return None;
        }
        if total.0 <= 0 {
            return Some(0);
        }
        proof {
            lemma_small_quotient(total@, self@);
        }
        let q = total.0.checked_div_euclid(self.0).unwrap();
        Some(q)
    }
}

impl core::ops::Add for Fixed {
    type Output = Fixed;

    /// Exact sum (the operator form of [`Fixed::plus`]).
    fn add(self, rhs: Fixed) -> (r: Fixed) {
        Fixed(self.0 + rhs.0)
    }
}

impl vstd::std_specs::ops::AddSpecImpl for Fixed {
    open spec fn obeys_add_spec() -> bool {
        true
    }

    open spec fn add_req(self, rhs: Fixed) -> bool {
        in_micro_range(self@ + rhs@)
    }

    closed spec fn add_spec(self, rhs: Fixed) -> Fixed {
        Fixed((self.0 + rhs.0) as i64)
    }
}

impl core::ops::Sub for Fixed {
    type Output = Fixed;

    /// Exact difference (the operator form of [`Fixed::minus`]).
    fn sub(self, rhs: Fixed) -> (r: Fixed) {
        Fixed(self.0 - rhs.0)
    }
}

impl vstd::std_specs::ops::SubSpecImpl for Fixed {
    open spec fn obeys_sub_spec() -> bool {
        true
    }

    open spec fn sub_req(self, rhs: Fixed) -> bool {
        in_micro_range(self@ - rhs@)
    }

    closed spec fn sub_spec(self, rhs: Fixed) -> Fixed {
        Fixed((self.0 - rhs.0) as i64)
    }
}

impl core::ops::Neg for Fixed {
    type Output = Fixed;

    /// Exact negation.
    fn neg(self) -> (r: Fixed) {
        Fixed(-self.0)
    }
}

impl vstd::std_specs::ops::NegSpecImpl for Fixed {
    open spec fn obeys_neg_spec() -> bool {
        true
    }

    open spec fn neg_req(self) -> bool {
        self@ != i64::MIN
    }

    closed spec fn neg_spec(self) -> Fixed {
        Fixed((-self.0) as i64)
    }
}

impl core::ops::Mul for Fixed {
    type Output = Fixed;

    /// Full product in `i128`, then one banker's rounding back to micro-units.
    fn mul(self, rhs: Fixed) -> (r: Fixed) {
        self.mul_div_half_even(rhs, Fixed(SCALE))
    }
}

impl vstd::std_specs::ops::MulSpecImpl for Fixed {
    open spec fn obeys_mul_spec() -> bool {
        true
    }

    open spec fn mul_req(self, rhs: Fixed) -> bool {
        in_micro_range(mul_div_spec(self@, rhs@, SCALE as int))
    }

    closed spec fn mul_spec(self, rhs: Fixed) -> Fixed {
        Fixed(mul_div_spec(self@, rhs@, SCALE as int) as i64)
    }
}

/// The operators agree with their named forms.
pub broadcast proof fn lemma_operators(x: Fixed, y: Fixed)
    ensures
        #![trigger vstd::std_specs::ops::AddSpec::add_spec(x, y)]
        #![trigger vstd::std_specs::ops::SubSpec::sub_spec(x, y)]
        #![trigger vstd::std_specs::ops::MulSpec::mul_spec(x, y)]
        in_micro_range(x@ + y@) ==> vstd::std_specs::ops::AddSpec::add_spec(x, y)@ == x@ + y@,
        in_micro_range(x@ - y@) ==> vstd::std_specs::ops::SubSpec::sub_spec(x, y)@ == x@ - y@,
        in_micro_range(mul_div_spec(x@, y@, SCALE as int))
            ==> vstd::std_specs::ops::MulSpec::mul_spec(x, y)@ == mul_div_spec(x@, y@, SCALE as int),
{
}

/// `a * b` fits in `i128` when both factors fit in `i64`.
proof fn lemma_product_fits(a: int, b: int)
    requires
        i64::MIN <= a <= i64::MAX,
        i64::MIN <= b <= i64::MAX,
    ensures
        -0x4000_0000_0000_0000_0000_0000_0000_0000 <= a * b <= 0x4000_0000_0000_0000_0000_0000_0000_0000,
{
    assert(-0x4000_0000_0000_0000_0000_0000_0000_0000 <= a * b <= 0x4000_0000_0000_0000_0000_0000_0000_0000)
        by (nonlinear_arith)
        requires
            -0x8000_0000_0000_0000 <= a <= 0x8000_0000_0000_0000,
            -0x8000_0000_0000_0000 <= b <= 0x8000_0000_0000_0000,
    ;
}

/// A positive quotient of positive `i64` values is at most the dividend.
proof fn lemma_small_quotient(n: int, d: int)
    requires
        0 < n <= i64::MAX,
        0 < d,
    ensures
        0 <= n / d <= n,
        0 <= n % d < d,
        n % d != 0 ==> n / d < i64::MAX,
{
    vstd::arithmetic::div_mod::lemma_div_pos_is_pos(n, d);
    vstd::arithmetic::div_mod::lemma_div_is_ordered_by_denominator(n, 1, d);
    vstd::arithmetic::div_mod::lemma_mod_pos_bound(n, d);
    if d == 1 {
        assert(n / d == n);
        assert(n % d == 0);
    }
    assert(n / 1 == n);
    if d >= 2 {
        vstd::arithmetic::div_mod::lemma_div_is_ordered_by_denominator(n, 2, d);
        assert(n / 2 < i64::MAX);
    }
}

/// Rounds `n / d` half to even. The divisor is positive (callers move the
/// sign onto the dividend) and both stay far inside `i128`.
fn div_round_half_even(n: i128, d: i128) -> (r: i128)
    requires
        0 < d <= 0x8000_0000_0000_0000,
        -0x4000_0000_0000_0000_0000_0000_0000_0000 <= n <= 0x4000_0000_0000_0000_0000_0000_0000_0000,
    ensures
        r == round_half_even(n as int, d as int),
{
    proof {
        vstd::arithmetic::div_mod::lemma_mod_bound(n as int, d as int);
        lemma_quotient_bound(n as int, d as int);
        vstd::arithmetic::div_mod::lemma_mod_bound((n as int) / (d as int), 2);
    }
    let q = n.checked_div_euclid(d).unwrap();
    let m = n.checked_rem_euclid(d).unwrap();
    let twice = m * 2;
    let parity = q.checked_rem_euclid(2).unwrap();
    if twice > d || (twice == d && parity != 0) {
        q + 1
    } else {
        q
    }
}

/// The Euclidean quotient by a positive divisor stays within the dividend's
/// magnitude (plus one, on the negative side).
proof fn lemma_quotient_bound(n: int, d: int)
    requires
        d > 0,
    ensures
        n >= 0 ==> 0 <= n / d <= n,
        n < 0 ==> n <= n / d < 0,
{
    if n >= 0 {
        vstd::arithmetic::div_mod::lemma_div_pos_is_pos(n, d);
        vstd::arithmetic::div_mod::lemma_div_is_ordered_by_denominator(n, 1, d);
        assert(n / 1 == n);
    } else {
        vstd::arithmetic::div_mod::lemma_fundamental_div_mod(n, d);
        vstd::arithmetic::div_mod::lemma_mod_bound(n, d);
        assert(d * (n / d) == n - n % d);
        assert(n / d < 0) by (nonlinear_arith)
            requires
                d > 0,
                n < 0,
                0 <= n % d < d,
                d * (n / d) == n - n % d,
        ;
        assert(n <= n / d) by (nonlinear_arith)
            requires
                d > 0,
                n < 0,
                n / d < 0,
                0 <= n % d < d,
                d * (n / d) == n - n % d,
        ;
    }
}

// ── Decimal text ────────────────────────────────────────────────────────

/// Why parsing a decimal into [`Fixed`] failed.
#[derive(Debug, Clone, Copy, PartialEq, Eq, Structural)]
pub enum ParseFixedError {
    /// Empty input, stray characters, or a malformed number.
    Malformed,
    /// More than six fraction digits. Over-precision is rejected, never
    /// rounded.
    TooPrecise,
    /// The value does not fit in the `i64` micro range.
    OutOfRange,
}

/// What a parse failure says.
pub open spec fn parse_error_text(e: ParseFixedError) -> Seq<char> {
    match e {
        ParseFixedError::Malformed => "malformed fixed-point literal"@,
        ParseFixedError::TooPrecise => "more than six fraction digits (micro precision)"@,
        ParseFixedError::OutOfRange => "outside the i64 micro range"@,
    }
}

impl ParseFixedError {
    /// The message a reader sees.
    pub fn to_string(&self) -> (r: String)
        ensures
            r@ == parse_error_text(*self),
    {
        match self {
            ParseFixedError::Malformed => crate::text::owned("malformed fixed-point literal"),
            ParseFixedError::TooPrecise => crate::text::owned("more than six fraction digits (micro precision)"),
            ParseFixedError::OutOfRange => crate::text::owned("outside the i64 micro range"),
        }
    }
}

/// The character for a decimal digit.
pub open spec fn digit_char(d: int) -> char {
    if d == 0 { '0' }
    else if d == 1 { '1' }
    else if d == 2 { '2' }
    else if d == 3 { '3' }
    else if d == 4 { '4' }
    else if d == 5 { '5' }
    else if d == 6 { '6' }
    else if d == 7 { '7' }
    else if d == 8 { '8' }
    else { '9' }
}

/// Whether a character is an ASCII decimal digit.
pub open spec fn is_digit(c: char) -> bool {
    '0' <= c && c <= '9'
}

/// The value of an ASCII decimal digit.
pub open spec fn digit_value(c: char) -> int {
    (c as int) - ('0' as int)
}

/// The decimal digits of a natural number, most significant first, with no
/// leading zeros (`"0"` for zero).
pub open spec fn decimal_digits(n: nat) -> Seq<char>
    decreases n,
{
    if n < 10 {
        seq![digit_char(n as int)]
    } else {
        decimal_digits(n / 10).push(digit_char((n % 10) as int))
    }
}

/// Exactly `k` decimal digits of `f`, zero-padded on the left.
pub open spec fn padded_digits(f: nat, k: nat) -> Seq<char>
    decreases k,
{
    if k == 0 {
        Seq::empty()
    } else {
        padded_digits(f / 10, (k - 1) as nat).push(digit_char((f % 10) as int))
    }
}

/// A digit sequence without its trailing zeros.
pub open spec fn trim_trailing_zeros(s: Seq<char>) -> Seq<char>
    decreases s.len(),
{
    if s.len() > 0 && s.last() == '0' {
        trim_trailing_zeros(s.drop_last())
    } else {
        s
    }
}

/// Absolute value.
pub open spec fn abs(m: int) -> int {
    if m < 0 { -m } else { m }
}

/// The exact decimal rendering of a micro count: an optional sign (`-` for
/// negatives, `+` for the rest when `plus` is asked for), the whole units,
/// and — only when there is one — a fraction with its trailing zeros
/// trimmed. `7_812_500` renders as `7.8125`, `306_000_000` as `306`.
pub open spec fn render_spec(m: int, plus: bool) -> Seq<char> {
    let sign: Seq<char> = if m < 0 { seq!['-'] } else if plus { seq!['+'] } else { Seq::empty() };
    let whole = (abs(m) / SCALE as int) as nat;
    let frac = (abs(m) % SCALE as int) as nat;
    if frac == 0 {
        sign + decimal_digits(whole)
    } else {
        sign + decimal_digits(whole) + seq!['.'] + trim_trailing_zeros(padded_digits(frac, 6))
    }
}

/// Number of bytes a character takes in UTF-8.
pub open spec fn utf8_width(c: char) -> int {
    if (c as u32) < 0x80 { 1 } else if (c as u32) < 0x800 { 2 } else if (c as u32) < 0x10000 { 3 } else { 4 }
}

/// Number of bytes a character sequence takes in UTF-8.
pub open spec fn utf8_len(s: Seq<char>) -> int
    decreases s.len(),
{
    if s.len() == 0 { 0 } else { utf8_len(s.drop_last()) + utf8_width(s.last()) }
}

/// Position of the first `.`, or -1.
pub open spec fn find_dot(s: Seq<char>) -> int
    decreases s.len(),
{
    if s.len() == 0 {
        -1
    } else if s[0] == '.' {
        0
    } else {
        let r = find_dot(s.drop_first());
        if r < 0 { -1 } else { r + 1 }
    }
}

/// The whole part read left to right, stopping at the first non-digit
/// (malformed) or at the first prefix that leaves the `i64` range.
pub open spec fn parse_whole(ds: Seq<char>) -> Result<int, ParseFixedError>
    decreases ds.len(),
{
    if ds.len() == 0 {
        Ok(0)
    } else {
        match parse_whole(ds.drop_last()) {
            Err(e) => Err(e),
            Ok(m) => if !is_digit(ds.last()) {
                Err(ParseFixedError::Malformed)
            } else if m * 10 + digit_value(ds.last()) > i64::MAX {
                Err(ParseFixedError::OutOfRange)
            } else {
                Ok(m * 10 + digit_value(ds.last()))
            },
        }
    }
}

/// The value of a digit string, or `None` if a character is not a digit.
pub open spec fn digits_value(ds: Seq<char>) -> Option<int>
    decreases ds.len(),
{
    if ds.len() == 0 {
        Some(0)
    } else {
        match digits_value(ds.drop_last()) {
            None => None,
            Some(v) => if is_digit(ds.last()) { Some(v * 10 + digit_value(ds.last())) } else { None },
        }
    }
}

/// Ten to the `k`.
pub open spec fn pow10(k: nat) -> int
    decreases k,
{
    if k == 0 { 1 } else { 10 * pow10((k - 1) as nat) }
}

/// Parses an exact decimal literal: an optional sign (only when something
/// follows it), digits, and an optional fraction of at most six digits. The
/// errors come in the order the text is read: an empty number, then the
/// whole part digit by digit, then its scaling, then the fraction's
/// emptiness, its length in bytes, its digits, and the final sum.
pub open spec fn parse_spec(s: Seq<char>) -> Result<int, ParseFixedError> {
    let negative = s.len() >= 2 && s[0] == '-';
    let body = if s.len() >= 2 && (s[0] == '-' || s[0] == '+') { s.drop_first() } else { s };
    let k = find_dot(body);
    let whole = if k < 0 { body } else { body.take(k) };
    let frac = body.skip(k + 1);
    if whole.len() == 0 && (k < 0 || frac.len() == 0) {
        Err(ParseFixedError::Malformed)
    } else {
        match parse_whole(whole) {
            Err(e) => Err(e),
            Ok(w) => if w * SCALE > i64::MAX {
                Err(ParseFixedError::OutOfRange)
            } else if k < 0 {
                Ok(if negative { -(w * SCALE) } else { w * SCALE })
            } else if frac.len() == 0 {
                Err(ParseFixedError::Malformed)
            } else if utf8_len(frac) > 6 {
                Err(ParseFixedError::TooPrecise)
            } else {
                match digits_value(frac) {
                    None => Err(ParseFixedError::Malformed),
                    Some(f) => {
                        let total = w * SCALE + f * pow10((6 - frac.len()) as nat);
                        if total > i64::MAX {
                            Err(ParseFixedError::OutOfRange)
                        } else {
                            Ok(if negative { -total } else { total })
                        }
                    },
                }
            },
        }
    }
}

/// The decimal digit character for `d` in `0..10`.
fn digit_to_char(d: u64) -> (c: char)
    requires
        d < 10,
    ensures
        c == digit_char(d as int),
{
    if d == 0 { '0' }
    else if d == 1 { '1' }
    else if d == 2 { '2' }
    else if d == 3 { '3' }
    else if d == 4 { '4' }
    else if d == 5 { '5' }
    else if d == 6 { '6' }
    else if d == 7 { '7' }
    else if d == 8 { '8' }
    else { '9' }
}

/// Appends the decimal digits of `n`.
pub fn push_decimal(n: u64, out: &mut Vec<char>)
    ensures
        final(out)@ == old(out)@ + decimal_digits(n as nat),
    decreases n,
{
    if n >= 10 {
        push_decimal(n / 10, out);
    }
    out.push(digit_to_char(n % 10));
    proof {
        if n >= 10 {
            assert(old(out)@ + decimal_digits(n as nat) =~= old(out)@ + decimal_digits((n / 10) as nat) + seq![digit_char((n % 10) as int)]);
        } else {
            assert(n % 10 == n);
        }
    }
}

/// Appends exactly `k` digits of `f`, zero-padded.
fn push_padded(f: u64, k: u64, out: &mut Vec<char>)
    ensures
        final(out)@ == old(out)@ + padded_digits(f as nat, k as nat),
    decreases k,
{
    if k > 0 {
        push_padded(f / 10, k - 1, out);
        out.push(digit_to_char(f % 10));
        assert(old(out)@ + padded_digits(f as nat, k as nat) =~= old(out)@ + padded_digits((f / 10) as nat, (k - 1) as nat) + seq![digit_char((f % 10) as int)]);
    } else {
        assert(old(out)@ + padded_digits(f as nat, k as nat) =~= old(out)@);
    }
}

/// Decimal rendering of a whole number, with `-` for negatives.
pub open spec fn int_render(n: int) -> Seq<char> {
    (if n < 0 { seq!['-'] } else { Seq::<char>::empty() }) + decimal_digits(abs(n) as nat)
}

/// Appends the decimal rendering of a whole number.
pub fn push_int(n: i64, out: &mut Vec<char>)
    ensures
        final(out)@ == old(out)@ + int_render(n as int),
{
    if n < 0 {
        out.push('-');
    }
    let a: u64 = if n < 0 { (0i128 - (n as i128)) as u64 } else { n as u64 };
    assert(a as int == abs(n as int));
    push_decimal(a, out);
    proof {
        if n < 0 {
            assert(old(out)@ + int_render(n as int) =~= old(out)@.push('-') + decimal_digits(a as nat));
        } else {
            assert(old(out)@ + int_render(n as int) =~= old(out)@ + decimal_digits(a as nat));
        }
    }
}

/// The decimal rendering of a whole number.
pub fn int_to_string(n: i64) -> (r: String)
    ensures
        r@ == int_render(n as int),
{
    let mut out: Vec<char> = Vec::new();
    push_int(n, &mut out);
    assert(out@ =~= int_render(n as int));
    string_of(&out)
}

impl Fixed {
    /// Exact decimal rendering from integers: trailing zeros of the
    /// fraction trimmed, whole numbers without a point. Presentation only;
    /// canonical encodings carry [`Fixed::micro`].
    pub fn to_string(&self) -> (r: String)
        ensures
            r@ == render_spec(self@, false),
    {
        self.render(false)
    }

    /// The same rendering with the sign always written: `+0`, `+5`, `-5`.
    pub fn to_string_signed(&self) -> (r: String)
        ensures
            r@ == render_spec(self@, true),
    {
        self.render(true)
    }

    /// Renders the value, with a `+` for non-negative values when `plus`.
    pub fn render(&self, plus: bool) -> (r: String)
        ensures
            r@ == render_spec(self@, plus),
    {
        let m = self.0;
        let mut out: Vec<char> = Vec::new();
        if m < 0 {
            out.push('-');
        } else if plus {
            out.push('+');
        }
        let sign = out.clone();
        let a: u64 = if m < 0 { (0i128 - (m as i128)) as u64 } else { m as u64 };
        assert(a as int == abs(self@));
        let whole = a / 1_000_000;
        let frac = a % 1_000_000;
        push_decimal(whole, &mut out);
        if frac != 0 {
            out.push('.');
            let mut digits: Vec<char> = Vec::new();
            push_padded(frac, 6, &mut digits);
            let ghost padded = digits@;
            assert(digits@ =~= padded_digits(frac as nat, 6));
            while digits.len() > 0 && digits[digits.len() - 1] == '0'
                invariant
                    trim_trailing_zeros(digits@) == trim_trailing_zeros(padded),
                decreases digits.len(),
            {
                digits.pop();
            }
            let mut i: usize = 0;
            while i < digits.len()
                invariant
                    i <= digits.len(),
                    out@ == sign@ + decimal_digits(whole as nat) + seq!['.'] + digits@.subrange(0, i as int),
                decreases digits.len() - i,
            {
                out.push(digits[i]);
                i = i + 1;
                assert(out@ =~= sign@ + decimal_digits(whole as nat) + seq!['.'] + digits@.subrange(0, i as int));
            }
            assert(digits@.subrange(0, i as int) =~= digits@);
            assert(trim_trailing_zeros(digits@) == digits@);
        }
        string_of(&out)
    }

    /// Parses an exact decimal literal: `"7.8125"` is `7_812_500` micro.
    /// Over-precision is refused rather than rounded.
    pub fn parse_decimal(s: &str) -> (r: Result<Fixed, ParseFixedError>)
        ensures
            match parse_spec(s@) {
                Ok(m) => r is Ok && r->Ok_0@ == m,
                Err(e) => r == Err::<Fixed, ParseFixedError>(e),
            },
    {
        let cs = chars_of(s);
        let n = cs.len();
        let negative = n >= 2 && cs[0] == '-';
        let start: usize = if n >= 2 && (cs[0] == '-' || cs[0] == '+') { 1 } else { 0 };
        let ghost body = if n >= 2 && (cs@[0] == '-' || cs@[0] == '+') { cs@.drop_first() } else { cs@ };
        assert(body =~= cs@.subrange(start as int, n as int));
        let k = find_dot_exec(&cs, start);
        let has_dot = k < n;
        proof {
            lemma_find_dot(body, (k - start) as int);
        }
        let frac_start: usize = if has_dot { k + 1 } else { n };
        let ghost whole_s = cs@.subrange(start as int, k as int);
        let ghost frac_s = cs@.subrange(frac_start as int, n as int);
        assert(whole_s =~= if find_dot(body) < 0 { body } else { body.take(find_dot(body)) });
        assert(has_dot ==> frac_s =~= body.skip(find_dot(body) + 1));
        if k == start && (!has_dot || frac_start == n) {
            return Err(ParseFixedError::Malformed);
        }
        let w = match parse_whole_exec(&cs, start, k) {
            Ok(w) => w,
            Err(e) => {
                return Err(e);
            },
        };
        proof { lemma_scale_bound(w as int); }
        if w > i64::MAX / SCALE {
            return Err(ParseFixedError::OutOfRange);
        }
        let base = w * SCALE;
        if !has_dot {
            let v = if negative { -base } else { base };
            return Ok(Fixed(v));
        }
        if frac_start == n {
            return Err(ParseFixedError::Malformed);
        }
        let bytes = utf8_len_capped(&cs, frac_start, n);
        if bytes > 6 {
            return Err(ParseFixedError::TooPrecise);
        }
        proof { lemma_utf8_len_at_least_len(frac_s); }
        let f = match digits_value_exec(&cs, frac_start, n) {
            Some(f) => f,
            None => {
                return Err(ParseFixedError::Malformed);
            },
        };
        let scaled = scale_fraction(f, n - frac_start);
        if base > i64::MAX - scaled {
            return Err(ParseFixedError::OutOfRange);
        }
        let total = base + scaled;
        let v = if negative { -total } else { total };
        Ok(Fixed(v))
    }
}

/// Index of the first `.` at or after `from`, or the length.
fn find_dot_exec(cs: &Vec<char>, from: usize) -> (k: usize)
    requires
        from <= cs.len(),
    ensures
        from <= k <= cs.len(),
        forall|j: int| from <= j < k ==> cs@[j] != '.',
        k < cs.len() ==> cs@[k as int] == '.',
{
    let mut k: usize = from;
    while k < cs.len() && cs[k] != '.'
        invariant
            from <= k <= cs.len(),
            forall|j: int| from <= j < k ==> cs@[j] != '.',
        decreases cs.len() - k,
    {
        k = k + 1;
    }
    k
}

/// The whole part of a literal, digit by digit: [`parse_whole`].
fn parse_whole_exec(cs: &Vec<char>, lo: usize, hi: usize) -> (r: Result<i64, ParseFixedError>)
    requires
        lo <= hi <= cs.len(),
    ensures
        match parse_whole(cs@.subrange(lo as int, hi as int)) {
            Ok(w) => r is Ok && r->Ok_0 == w,
            Err(e) => r == Err::<i64, ParseFixedError>(e),
        },
        r is Ok ==> r->Ok_0 >= 0,
{
    let ghost all = cs@.subrange(lo as int, hi as int);
    let mut w: i64 = 0;
    let mut i: usize = lo;
    while i < hi
        invariant
            lo <= i <= hi <= cs.len(),
            all == cs@.subrange(lo as int, hi as int),
            parse_whole(cs@.subrange(lo as int, i as int)) == Ok::<int, ParseFixedError>(w as int),
            0 <= w,
        decreases hi - i,
    {
        let c = cs[i];
        let ghost next = cs@.subrange(lo as int, i + 1);
        assert(next.drop_last() =~= cs@.subrange(lo as int, i as int));
        assert(next =~= all.take(i + 1 - lo));
        if !('0' <= c && c <= '9') {
            proof { lemma_parse_whole_sticks(next, all); }
            return Err(ParseFixedError::Malformed);
        }
        let d = (c as u32 - '0' as u32) as i64;
        if w > (i64::MAX - d) / 10 {
            assert(w * 10 + d > i64::MAX);
            proof { lemma_parse_whole_sticks(next, all); }
            return Err(ParseFixedError::OutOfRange);
        }
        w = w * 10 + d;
        i = i + 1;
    }
    assert(cs@.subrange(lo as int, i as int) =~= all);
    Ok(w)
}

/// The UTF-8 byte length of a stretch of characters, exact up to 6 and
/// otherwise merely known to exceed it.
fn utf8_len_capped(cs: &Vec<char>, lo: usize, hi: usize) -> (r: u64)
    requires
        lo <= hi <= cs.len(),
    ensures
        r <= 6 ==> r == utf8_len(cs@.subrange(lo as int, hi as int)),
        r > 6 ==> utf8_len(cs@.subrange(lo as int, hi as int)) > 6,
{
    let ghost all = cs@.subrange(lo as int, hi as int);
    let mut bytes: u64 = 0;
    let mut j: usize = lo;
    while j < hi && bytes <= 6
        invariant
            lo <= j <= hi <= cs.len(),
            all == cs@.subrange(lo as int, hi as int),
            bytes as int == utf8_len(cs@.subrange(lo as int, j as int)),
            bytes <= 10,
        decreases hi - j,
    {
        let c = cs[j];
        let cv = c as u32;
        let width: u64 = if cv < 0x80 { 1 } else if cv < 0x800 { 2 } else if cv < 0x10000 { 3 } else { 4 };
        assert(cs@.subrange(lo as int, j + 1).drop_last() =~= cs@.subrange(lo as int, j as int));
        bytes = bytes + width;
        j = j + 1;
    }
    proof {
        assert(cs@.subrange(lo as int, j as int) =~= all.take(j - lo));
        lemma_utf8_len_prefix(all, j - lo);
        if j == hi {
            assert(cs@.subrange(lo as int, j as int) =~= all);
        }
    }
    bytes
}

/// The value of a short digit string: [`digits_value`].
fn digits_value_exec(cs: &Vec<char>, lo: usize, hi: usize) -> (r: Option<i64>)
    requires
        lo <= hi <= cs.len(),
        hi - lo <= 6,
    ensures
        r matches Some(v) ==> digits_value(cs@.subrange(lo as int, hi as int)) == Some(v as int)
            && 0 <= v < pow10((hi - lo) as nat),
        r is None ==> digits_value(cs@.subrange(lo as int, hi as int)) is None,
{
    let ghost all = cs@.subrange(lo as int, hi as int);
    let mut f: i64 = 0;
    let mut j: usize = lo;
    while j < hi
        invariant
            lo <= j <= hi <= cs.len(),
            hi - lo <= 6,
            all == cs@.subrange(lo as int, hi as int),
            digits_value(cs@.subrange(lo as int, j as int)) == Some(f as int),
            0 <= f < pow10((j - lo) as nat),
        decreases hi - j,
    {
        let c = cs[j];
        let ghost next = cs@.subrange(lo as int, j + 1);
        assert(next.drop_last() =~= cs@.subrange(lo as int, j as int));
        assert(next =~= all.take(j + 1 - lo));
        if !('0' <= c && c <= '9') {
            proof { lemma_digits_value_sticks(next, all); }
            return None;
        }
        let d = (c as u32 - '0' as u32) as i64;
        proof {
            lemma_pow10_small((j - lo) as nat);
            assert(((j + 1 - lo) as nat) == ((j - lo) as nat) + 1);
        }
        f = f * 10 + d;
        j = j + 1;
    }
    assert(cs@.subrange(lo as int, j as int) =~= all);
    Some(f)
}

/// Pads a fraction of `len` digits out to six: `f * 10^(6 - len)`.
fn scale_fraction(f: i64, len: usize) -> (r: i64)
    requires
        len <= 6,
        0 <= f < pow10(len as nat),
    ensures
        r == f * pow10((6 - len) as nat),
        0 <= r < 1_000_000,
{
    let mut v: i64 = f;
    let mut p: usize = len;
    while p < 6
        invariant
            len <= p <= 6,
            v as int == f * pow10((p - len) as nat),
            0 <= v < pow10(p as nat),
        decreases 6 - p,
    {
        proof {
            lemma_pow10_small(p as nat);
            lemma_pow10_small((p - len) as nat);
            assert(((p + 1 - len) as nat) == ((p - len) as nat) + 1);
            assert(f * pow10(((p - len) as nat) + 1) == f * (10 * pow10((p - len) as nat))) ;
            assert(f * (10 * pow10((p - len) as nat)) == 10 * (f * pow10((p - len) as nat))) by (nonlinear_arith);
        }
        v = v * 10;
        p = p + 1;
    }
    proof { lemma_pow10_small(6); }
    v
}


/// The exec dot search agrees with [`find_dot`].
proof fn lemma_find_dot(body: Seq<char>, k: int)
    requires
        0 <= k <= body.len(),
        forall|j: int| 0 <= j < k ==> body[j] != '.',
        k < body.len() ==> body[k] == '.',
    ensures
        k < body.len() ==> find_dot(body) == k,
        k == body.len() ==> find_dot(body) == -1,
    decreases body.len(),
{
    if body.len() > 0 && k > 0 {
        lemma_find_dot(body.drop_first(), k - 1);
    }
}

/// Once a prefix of the whole part fails, the whole part fails the same way.
proof fn lemma_parse_whole_sticks(prefix: Seq<char>, all: Seq<char>)
    requires
        prefix.len() <= all.len(),
        prefix == all.take(prefix.len() as int),
        parse_whole(prefix) is Err,
    ensures
        parse_whole(all) == parse_whole(prefix),
    decreases all.len(),
{
    if all.len() > prefix.len() {
        assert(all.drop_last().take(prefix.len() as int) =~= prefix);
        lemma_parse_whole_sticks(prefix, all.drop_last());
    } else {
        assert(all =~= prefix);
    }
}

/// Once a prefix of the fraction holds a non-digit, the fraction does too.
proof fn lemma_digits_value_sticks(prefix: Seq<char>, all: Seq<char>)
    requires
        prefix.len() <= all.len(),
        prefix == all.take(prefix.len() as int),
        digits_value(prefix) is None,
    ensures
        digits_value(all) is None,
    decreases all.len(),
{
    if all.len() > prefix.len() {
        assert(all.drop_last().take(prefix.len() as int) =~= prefix);
        lemma_digits_value_sticks(prefix, all.drop_last());
    } else {
        assert(all =~= prefix);
    }
}

/// A prefix takes no more bytes than the whole.
proof fn lemma_utf8_len_prefix(s: Seq<char>, k: int)
    requires
        0 <= k <= s.len(),
    ensures
        utf8_len(s.take(k)) <= utf8_len(s),
    decreases s.len(),
{
    if k < s.len() {
        assert(s.drop_last().take(k) =~= s.take(k));
        lemma_utf8_len_prefix(s.drop_last(), k);
    } else {
        assert(s.take(k) =~= s);
    }
}

/// Scaling a whole part overflows exactly when it exceeds `MAX / SCALE`.
proof fn lemma_scale_bound(w: int)
    requires
        w >= 0,
    ensures
        (w * SCALE > i64::MAX) == (w > i64::MAX / SCALE),
{
    assert((w * 1_000_000 > 9223372036854775807) == (w > 9223372036854)) by (nonlinear_arith)
        requires w >= 0;
}

/// Every character takes at least one byte.
proof fn lemma_utf8_len_at_least_len(s: Seq<char>)
    ensures
        utf8_len(s) >= s.len(),
    decreases s.len(),
{
    if s.len() > 0 {
        lemma_utf8_len_at_least_len(s.drop_last());
    }
}

/// Small powers of ten, concretely.
proof fn lemma_pow10_small(k: nat)
    requires
        k <= 6,
    ensures
        pow10(k) <= 1_000_000,
        pow10(k + 1) == 10 * pow10(k),
        pow10(0) == 1,
        pow10(6) == 1_000_000,
{
    reveal_with_fuel(pow10, 8);
}

impl core::str::FromStr for Fixed {
    type Err = ParseFixedError;

    /// Parses an exact decimal literal (see [`Fixed::parse_decimal`]).
    fn from_str(s: &str) -> (r: Result<Fixed, ParseFixedError>)
        ensures
            match parse_spec(s@) {
                Ok(m) => r is Ok && r->Ok_0@ == m,
                Err(e) => r == Err::<Fixed, ParseFixedError>(e),
            },
    {
        Fixed::parse_decimal(s)
    }
}

// ── Laws ────────────────────────────────────────────────────────────────

/// Addition and subtraction are exact: adding a value and taking it away
/// again gives back what you started with.
pub proof fn law_add_sub_roundtrip(a: Fixed, b: Fixed)
    requires
        in_micro_range(a@ + b@),
    ensures
        (a@ + b@) - b@ == a@,
{
}

/// Fixed-point multiplication is commutative, rounding included.
pub proof fn law_mul_commutative(a: Fixed, b: Fixed)
    ensures
        mul_div_spec(a@, b@, SCALE as int) == mul_div_spec(b@, a@, SCALE as int),
{
    assert(a@ * b@ == b@ * a@) by (nonlinear_arith);
}

/// Multiplying by one whole unit changes nothing.
pub proof fn law_mul_by_one(a: Fixed)
    ensures
        mul_div_spec(a@, SCALE as int, SCALE as int) == a@,
{
    let n = a@ * SCALE;
    vstd::arithmetic::div_mod::lemma_div_multiples_vanish(a@, SCALE as int);
    vstd::arithmetic::div_mod::lemma_mod_multiples_basic(a@, SCALE as int);
    assert(SCALE * a@ == a@ * SCALE) by (nonlinear_arith);
}

/// Half-even rounding is off by at most half a unit of the divisor: the
/// rounded quotient times the divisor is within `d / 2` of the dividend.
pub proof fn law_rounding_error_at_most_half(n: int, d: int)
    requires
        d > 0,
    ensures
        2 * abs(n - d * round_half_even(n, d)) <= d,
{
    vstd::arithmetic::div_mod::lemma_fundamental_div_mod(n, d);
    vstd::arithmetic::div_mod::lemma_mod_bound(n, d);
    let q = n / d;
    let r = n % d;
    assert(n - d * q == r);
    assert(d * (q + 1) == d * q + d) by (nonlinear_arith);
}

/// Half-even rounding never reverses an order: a larger dividend never
/// rounds to a smaller quotient.
pub proof fn law_rounding_is_monotone(n1: int, n2: int, d: int)
    requires
        d > 0,
        n1 <= n2,
    ensures
        round_half_even(n1, d) <= round_half_even(n2, d),
{
    vstd::arithmetic::div_mod::lemma_div_is_ordered(n1, n2, d);
    vstd::arithmetic::div_mod::lemma_fundamental_div_mod(n1, d);
    vstd::arithmetic::div_mod::lemma_fundamental_div_mod(n2, d);
    vstd::arithmetic::div_mod::lemma_mod_bound(n1, d);
    vstd::arithmetic::div_mod::lemma_mod_bound(n2, d);
    let q1 = n1 / d;
    let q2 = n2 / d;
    if q1 < q2 {
        assert(round_half_even(n1, d) <= q1 + 1);
    } else {
        assert(q1 == q2);
        assert(n1 % d <= n2 % d);
    }
}

/// A product rounded by a positive divisor never reverses an order either.
pub proof fn law_mul_div_is_monotone(a1: int, b1: int, a2: int, b2: int, c: int)
    requires
        c > 0,
        a1 * b1 <= a2 * b2,
    ensures
        mul_div_spec(a1, b1, c) <= mul_div_spec(a2, b2, c),
{
    law_rounding_is_monotone(a1 * b1, a2 * b2, c);
}

/// A tie rounds to the even neighbour: when the dividend lies exactly half
/// way, the result is even.
pub proof fn law_ties_round_to_even(n: int, d: int)
    requires
        d > 0,
        2 * (n % d) == d,
    ensures
        round_half_even(n, d) % 2 == 0,
{
    vstd::arithmetic::div_mod::lemma_mod_bound(n / d, 2);
}

/// A fixed-point product is within half a micro-unit of the exact product.
pub proof fn law_product_error_at_most_half_micro(a: Fixed, b: Fixed)
    ensures
        2 * abs(a@ * b@ - SCALE * mul_div_spec(a@, b@, SCALE as int)) <= SCALE,
{
    law_rounding_error_at_most_half(a@ * b@, SCALE as int);
}

/// Rendering a value as a decimal and parsing the text back gives the
/// same value, with or without a forced sign. The one exception is
/// `i64::MIN`, whose magnitude does not fit the range the parser reads the
/// digits into.
pub proof fn law_render_parse_roundtrip(m: Fixed, plus: bool)
    requires
        m@ != i64::MIN,
    ensures
        parse_spec(render_spec(m@, plus)) == Ok::<int, ParseFixedError>(m@),
{
    let v = m@;
    let a = abs(v);
    assert(0 <= a <= i64::MAX);
    let w = (a / SCALE as int) as nat;
    let f = (a % SCALE as int) as nat;
    vstd::arithmetic::div_mod::lemma_fundamental_div_mod(a, SCALE as int);
    vstd::arithmetic::div_mod::lemma_mod_bound(a, SCALE as int);
    vstd::arithmetic::div_mod::lemma_div_pos_is_pos(a, SCALE as int);
    assert(a == SCALE * w + f);
    assert(w * SCALE == SCALE * w) by (nonlinear_arith);
    assert(w * SCALE <= i64::MAX);
    let d = decimal_digits(w);
    lemma_decimal_digits_shape(w);
    lemma_parse_whole_decimal(w);
    let sign: Seq<char> = if v < 0 { seq!['-'] } else if plus { seq!['+'] } else { Seq::empty() };
    let s = render_spec(v, plus);
    let tail: Seq<char> = if f == 0 { Seq::empty() } else { seq!['.'] + trim_trailing_zeros(padded_digits(f, 6)) };
    let body = d + tail;
    assert(s =~= sign + body);
    // The sign is read exactly when there is one.
    let read = if s.len() >= 2 && (s[0] == '-' || s[0] == '+') { s.drop_first() } else { s };
    if sign.len() == 1 {
        assert(s.len() >= 2);
        assert(read =~= body);
    } else {
        assert(s =~= body);
        assert(s[0] == d[0]);
        assert(read =~= body);
    }
    assert((s.len() >= 2 && s[0] == '-') == (v < 0));
    lemma_find_dot_append(d, tail);
    if f == 0 {
        assert(find_dot(tail) == -1);
        assert(find_dot(body) == -1);
        assert(body =~= d);
    } else {
        let t = trim_trailing_zeros(padded_digits(f, 6));
        assert(tail[0] == '.');
        assert(find_dot(tail) == 0);
        assert(find_dot(body) == d.len());
        assert(body.take(d.len() as int) =~= d);
        assert(body.skip(d.len() as int + 1) =~= t);
        lemma_trimmed_fraction(f);
        lemma_utf8_len_ascii(t);
        lemma_pow10_small((6 - t.len()) as nat);
    }
}

/// The digits of a number are non-empty digit characters without a dot.
proof fn lemma_decimal_digits_shape(n: nat)
    ensures
        decimal_digits(n).len() >= 1,
        forall|i: int| 0 <= i < decimal_digits(n).len() ==> is_digit(#[trigger] decimal_digits(n)[i]),
        forall|i: int| 0 <= i < decimal_digits(n).len() ==> #[trigger] decimal_digits(n)[i] != '.',
        forall|i: int| 0 <= i < decimal_digits(n).len() ==> decimal_digits(n)[i] != '-' && decimal_digits(n)[i] != '+',
    decreases n,
{
    if n >= 10 {
        lemma_decimal_digits_shape(n / 10);
        lemma_digit_char((n % 10) as int);
    } else {
        lemma_digit_char(n as int);
    }
}

/// Facts about one digit character.
proof fn lemma_digit_char(d: int)
    requires
        0 <= d < 10,
    ensures
        is_digit(digit_char(d)),
        digit_value(digit_char(d)) == d,
        digit_char(d) != '.',
        (digit_char(d) as u32) < 0x80,
{
}

/// Reading back the digits of a number gives the number.
proof fn lemma_parse_whole_decimal(n: nat)
    requires
        n <= i64::MAX,
    ensures
        parse_whole(decimal_digits(n)) == Ok::<int, ParseFixedError>(n as int),
    decreases n,
{
    let d = decimal_digits(n);
    if n >= 10 {
        lemma_parse_whole_decimal(n / 10);
        lemma_digit_char((n % 10) as int);
        assert(d.drop_last() =~= decimal_digits(n / 10));
        assert(d.last() == digit_char((n % 10) as int));
        assert(parse_whole(d.drop_last()) == Ok::<int, ParseFixedError>((n / 10) as int));
        assert((n / 10) * 10 + n % 10 == n);
    } else {
        lemma_digit_char(n as int);
        assert(d.drop_last() =~= Seq::<char>::empty());
        assert(d.last() == digit_char(n as int));
        assert(parse_whole(d.drop_last()) == Ok::<int, ParseFixedError>(0));
    }
}

/// A dot search across a concatenation whose first part has no dot.
proof fn lemma_find_dot_append(a: Seq<char>, b: Seq<char>)
    requires
        forall|i: int| 0 <= i < a.len() ==> a[i] != '.',
    ensures
        find_dot(b) < 0 ==> find_dot(a + b) == -1,
        find_dot(b) >= 0 ==> find_dot(a + b) == a.len() + find_dot(b),
    decreases a.len(),
{
    if a.len() > 0 {
        lemma_find_dot_append(a.drop_first(), b);
        assert((a + b).drop_first() =~= a.drop_first() + b);
    } else {
        assert(a + b =~= b);
    }
}

/// A padded fraction trimmed of its trailing zeros: non-empty when the
/// fraction is, at most six digits, all digits, and reading it back and
/// scaling by the dropped zeros gives the fraction.
proof fn lemma_trimmed_fraction(f: nat)
    requires
        0 < f < 1_000_000,
    ensures
        trim_trailing_zeros(padded_digits(f, 6)).len() >= 1,
        trim_trailing_zeros(padded_digits(f, 6)).len() <= 6,
        forall|i: int| 0 <= i < trim_trailing_zeros(padded_digits(f, 6)).len()
            ==> (#[trigger] trim_trailing_zeros(padded_digits(f, 6))[i] as u32) < 0x80,
        digits_value(trim_trailing_zeros(padded_digits(f, 6))) is Some,
        digits_value(trim_trailing_zeros(padded_digits(f, 6)))->0
            * pow10((6 - trim_trailing_zeros(padded_digits(f, 6)).len()) as nat) == f,
{
    lemma_padded_digits(f, 6);
    lemma_pow10_small(6);
    lemma_trim_value(padded_digits(f, 6), f as int);
}

/// Padded digits: length `k`, all digits, and their value is `f` when `f`
/// has at most `k` digits.
proof fn lemma_padded_digits(f: nat, k: nat)
    ensures
        padded_digits(f, k).len() == k,
        forall|i: int| 0 <= i < k ==> is_digit(#[trigger] padded_digits(f, k)[i]),
        forall|i: int| 0 <= i < k ==> (#[trigger] padded_digits(f, k)[i] as u32) < 0x80,
        f < pow10(k) ==> digits_value(padded_digits(f, k)) == Some(f as int),
    decreases k,
{
    if k > 0 {
        lemma_padded_digits(f / 10, (k - 1) as nat);
        lemma_digit_char((f % 10) as int);
        let p = padded_digits(f, k);
        assert(p.drop_last() =~= padded_digits(f / 10, (k - 1) as nat));
        if f < pow10(k) {
            assert(f / 10 < pow10((k - 1) as nat)) by {
                vstd::arithmetic::div_mod::lemma_div_is_ordered(f as int, pow10(k) - 1, 10);
                assert(pow10(k) == 10 * pow10((k - 1) as nat));
                vstd::arithmetic::div_mod::lemma_fundamental_div_mod(pow10(k) - 1, 10);
                vstd::arithmetic::div_mod::lemma_mod_bound(pow10(k) - 1, 10);
                vstd::arithmetic::div_mod::lemma_fundamental_div_mod(f as int, 10);
                vstd::arithmetic::div_mod::lemma_mod_bound(f as int, 10);
                assert((f / 10) * 10 <= f) by (nonlinear_arith)
                    requires f == 10 * (f / 10) + f % 10, f % 10 >= 0;
                assert(f / 10 < pow10((k - 1) as nat)) by (nonlinear_arith)
                    requires (f / 10) * 10 <= f, f < 10 * pow10((k - 1) as nat);
            }
            assert((f / 10) * 10 + f % 10 == f);
        }
    } else {
        if f < pow10(k) {
            assert(f == 0);
        }
    }
}

/// Trimming trailing zeros divides the value by the dropped powers of ten.
proof fn lemma_trim_value(s: Seq<char>, v: int)
    requires
        digits_value(s) == Some(v),
        forall|i: int| 0 <= i < s.len() ==> is_digit(#[trigger] s[i]),
        forall|i: int| 0 <= i < s.len() ==> (#[trigger] s[i] as u32) < 0x80,
        v > 0,
        s.len() <= 6,
    ensures
        trim_trailing_zeros(s).len() >= 1,
        trim_trailing_zeros(s).len() <= s.len(),
        forall|i: int| 0 <= i < trim_trailing_zeros(s).len() ==> (#[trigger] trim_trailing_zeros(s)[i] as u32) < 0x80,
        digits_value(trim_trailing_zeros(s)) is Some,
        digits_value(trim_trailing_zeros(s))->0 * pow10((s.len() - trim_trailing_zeros(s).len()) as nat) == v,
    decreases s.len(),
{
    if s.len() > 0 && s.last() == '0' {
        let t = s.drop_last();
        let vt = digits_value(t)->0;
        assert(digits_value(t) is Some);
        assert(v == vt * 10);
        assert(vt > 0);
        lemma_trim_value(t, vt);
        let tt = trim_trailing_zeros(t);
        let z = (t.len() - tt.len()) as nat;
        assert(((s.len() - tt.len()) as nat) == z + 1);
        lemma_pow10_small(z);
        assert(digits_value(tt)->0 * pow10(z + 1) == (digits_value(tt)->0 * pow10(z)) * 10) by (nonlinear_arith)
            requires pow10(z + 1) == 10 * pow10(z);
    } else {
        if s.len() == 0 {
            assert(v == 0);
        }
        assert(pow10(0) == 1);
    }
}

/// ASCII text takes one byte per character.
proof fn lemma_utf8_len_ascii(s: Seq<char>)
    requires
        forall|i: int| 0 <= i < s.len() ==> (#[trigger] s[i] as u32) < 0x80,
    ensures
        utf8_len(s) == s.len(),
    decreases s.len(),
{
    if s.len() > 0 {
        lemma_utf8_len_ascii(s.drop_last());
    }
}

} // verus!
