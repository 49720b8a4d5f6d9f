use vstd::prelude::*;
use vstd::arithmetic::div_mod::*;
use vstd::string::StringSliceAdditionalSpecFns;

verus! {

/// The raw value of one whole unit: a [`Decimal`] keeps eighteen decimal places.
pub const SCALE: i128 = 1_000_000_000_000_000_000;

const SCALE_U: u128 = 1_000_000_000_000_000_000;

/// 2^127, the magnitude of `i128::MIN`.
const HALF_RANGE: u128 = 170141183460469231731687303715884105728;

/// A signed fixed-point number with eighteen decimal places.
///
/// The number it stands for is `raw / 10^18`; all contracts speak of `raw`
/// through [`Decimal::val`].
#[derive(Clone, Copy, Debug, PartialEq, Eq, Structural)]
pub struct Decimal {
    pub raw: i128,
}

/// Whether an integer fits the raw representation of a [`Decimal`].
pub open spec fn fits(x: int) -> bool {
    i128::MIN <= x <= i128::MAX
}

pub open spec fn abs(x: int) -> int {
    if x < 0 {
        -x
    } else {
        x
    }
}

/// Integer division rounded towards zero (`d` must not be zero).
pub open spec fn quot(n: int, d: int) -> int {
    let q = abs(n) / abs(d);
    if (n < 0) == (d < 0) {
        q
    } else {
        -q
    }
}

/// Raw value of the product of two decimals of raw values `a` and `b`.
pub open spec fn mul_val(a: int, b: int) -> int {
    quot(a * b, SCALE as int)
}

/// Raw value of the quotient of two decimals of raw values `a` and `b`.
pub open spec fn div_val(a: int, b: int) -> int {
    quot(a * SCALE, b)
}

/// Raw value of the largest whole number not above the decimal of raw value `a`.
pub open spec fn floor_val(a: int) -> int {
    (a / (SCALE as int)) * SCALE
}

/// The raw value of the whole number `n`.
pub open spec fn whole(n: int) -> int {
    n * SCALE
}

pub open spec fn ten_pow(n: nat) -> nat
    decreases n,
{
    if n == 0 {
        1
    } else {
        10 * ten_pow((n - 1) as nat)
    }
}

/// Whether `c` is the byte of an ASCII digit.
pub open spec fn is_digit(c: u8) -> bool {
    48 <= c <= 57
}

/// The number that the ASCII digits `s` write in base ten.
pub open spec fn digits_value(s: Seq<u8>) -> int
    decreases s.len(),
{
    if s.len() == 0 {
        0
    } else {
        digits_value(s.drop_last()) * 10 + (s.last() - 48)
    }
}

/// The number of ASCII digits `s` starts with.
pub open spec fn leading_digits(s: Seq<u8>) -> int
    decreases s.len(),
{
    if s.len() == 0 || !is_digit(s[0]) {
        0
    } else {
        1 + leading_digits(s.skip(1))
    }
}

/// The raw value the text `b` writes, if it is a decimal: an optional minus
/// sign, one or more ASCII digits, and optionally a point followed by one to
/// eighteen ASCII digits; the value must be representable.
pub open spec fn text_value(b: Seq<u8>) -> Option<int> {
    let negative = b.len() > 0 && b[0] == 45;
    let body = text_body(b);
    let p = leading_digits(body);
    let frac = body.skip(p + 1);
    let well_formed = p > 0 && (p == body.len() || (body[p] == 46 && 1 <= frac.len() <= 18
        && leading_digits(frac) == frac.len()));
    let magnitude = digits_value(body.take(p)) * SCALE + if p == body.len() {
        0
    } else {
        digits_value(frac) * ten_pow((18 - frac.len()) as nat)
    };
    let v = if negative {
        -magnitude
    } else {
        magnitude
    };
    if well_formed && fits(v) {
        Some(v)
    } else {
        None
    }
}

impl Decimal {
    /// The raw (scaled) integer this decimal holds.
    pub open spec fn val(self) -> int {
        self.raw as int
    }

    pub fn zero() -> (d: Decimal)
        ensures
            d.val() == 0,
    {
        Decimal { raw: 0 }
    }

    pub fn one() -> (d: Decimal)
        ensures
            d.val() == SCALE,
    {
        Decimal { raw: SCALE }
    }

    /// The whole number `n`.
    pub fn from_u64(n: u64) -> (d: Decimal)
        ensures
            d.val() == whole(n as int),
    {
        assert(n * SCALE <= 18446744073709551615 * SCALE) by (nonlinear_arith)
            requires
                n <= 18446744073709551615u64,
        ;
        Decimal { raw: (n as i128) * SCALE }
    }

    /// Exact sum; the sum must be representable.
    pub fn add(self, other: Decimal) -> (d: Decimal)
        requires
            fits(self.val() + other.val()),
        ensures
            d.val() == self.val() + other.val(),
    {
        Decimal { raw: self.raw + other.raw }
    }

    /// Exact difference; the difference must be representable.
    pub fn sub(self, other: Decimal) -> (d: Decimal)
        requires
            fits(self.val() - other.val()),
        ensures
            d.val() == self.val() - other.val(),
    {
        Decimal { raw: self.raw - other.raw }
    }

    pub fn le(self, other: Decimal) -> (b: bool)
        ensures
            b == (self.val() <= other.val()),
    {
        self.raw <= other.raw
    }

    pub fn lt(self, other: Decimal) -> (b: bool)
        ensures
            b == (self.val() < other.val()),
    {
        self.raw < other.raw
    }

    /// Product rounded towards zero; the result must be representable.
    pub fn mul(self, other: Decimal) -> (d: Decimal)
        requires
            fits(mul_val(self.val(), other.val())),
        ensures
            d.val() == mul_val(self.val(), other.val()),
    {
        let ua = magnitude(self.raw);
        let ub = magnitude(other.raw);
        let negative = (self.raw < 0) != (other.raw < 0);
        proof {
            lemma_abs_mul(self.val(), other.val());
        }
        let m = mul_magnitudes(ua, ub);
        if m == 0 {
            return Decimal { raw: 0 };
        }
        Decimal { raw: with_sign(m, negative) }
    }

    /// Quotient rounded towards zero; the divisor must not be zero and the
    /// result must be representable.
    pub fn div(self, other: Decimal) -> (d: Decimal)
        requires
            other.val() != 0,
            fits(div_val(self.val(), other.val())),
        ensures
            d.val() == div_val(self.val(), other.val()),
    {
        let ua = magnitude(self.raw);
        let ub = magnitude(other.raw);
        let negative = (self.raw < 0) != (other.raw < 0);
        proof {
            lemma_abs_mul(self.val(), SCALE as int);
        }
        let m = div_magnitudes(ua, ub);
        if m == 0 {
            return Decimal { raw: 0 };
        }
        Decimal { raw: with_sign(m, negative) }
    }

    /// The largest whole number not above `self`; it must be representable.
    pub fn floor(self) -> (d: Decimal)
        requires
            fits(floor_val(self.val())),
        ensures
            d.val() == floor_val(self.val()),
            d.val() % SCALE as int == 0,
            d.val() <= self.val() < d.val() + SCALE,
    {
        let m = magnitude(self.raw);
        let r = m % SCALE_U;
        proof {
            lemma_fundamental_div_mod(self.val(), SCALE as int);
            lemma_fundamental_div_mod(m as int, SCALE as int);
            lemma_mod_pos_bound(m as int, SCALE as int);
            lemma_mod_multiples_basic(self.val() / (SCALE as int), SCALE as int);
        }
        if self.raw >= 0 {
            proof {
                assert(floor_val(self.val()) == self.val() - self.val() % (SCALE as int));
            }
            Decimal { raw: self.raw - (r as i128) }
        } else if r == 0 {
            proof {
                lemma_neg_mod_zero(self.val(), m as int, SCALE as int);
            }
            Decimal { raw: self.raw }
        } else {
            proof {
                lemma_neg_floor(self.val(), m as int, r as int, SCALE as int);
            }
            Decimal { raw: self.raw + (r as i128) - SCALE }
        }
    }

    /// The sum, when it is representable.
    pub fn checked_add(self, other: Decimal) -> (r: Option<Decimal>)
        ensures
            r is Some <==> fits(self.val() + other.val()),
            r matches Some(d) ==> d.val() == self.val() + other.val(),
    {
        match self.raw.checked_add(other.raw) {
            Some(raw) => Some(Decimal { raw }),
            None => None,
        }
    }

    /// The difference, when it is representable.
    pub fn checked_sub(self, other: Decimal) -> (r: Option<Decimal>)
        ensures
            r is Some <==> fits(self.val() - other.val()),
            r matches Some(d) ==> d.val() == self.val() - other.val(),
    {
        match self.raw.checked_sub(other.raw) {
            Some(raw) => Some(Decimal { raw }),
            None => None,
        }
    }

    /// The product rounded towards zero, when it is representable.
    pub fn checked_mul(self, other: Decimal) -> (r: Option<Decimal>)
        ensures
            r is Some <==> fits(mul_val(self.val(), other.val())),
            r matches Some(d) ==> d.val() == mul_val(self.val(), other.val()),
    {
        let ua = magnitude(self.raw);
        let ub = magnitude(other.raw);
        let negative = (self.raw < 0) != (other.raw < 0);
        proof {
            lemma_abs_mul(self.val(), other.val());
        }
        match mul_magnitudes_checked(ua, ub) {
            None => None,
            Some(m) => {
                if m == 0 {
                    Some(Decimal { raw: 0 })
                } else if !negative && m == HALF_RANGE {
                    None
                } else {
                    Some(Decimal { raw: with_sign(m, negative) })
                }
            },
        }
    }

    /// The quotient rounded towards zero, when the divisor is not zero and
    /// the quotient is representable.
    pub fn checked_div(self, other: Decimal) -> (r: Option<Decimal>)
        ensures
            r is Some <==> other.val() != 0 && fits(div_val(self.val(), other.val())),
            r matches Some(d) ==> d.val() == div_val(self.val(), other.val()),
    {
        if other.raw == 0 {
            return None;
        }
        let ua = magnitude(self.raw);
        let ub = magnitude(other.raw);
        let negative = (self.raw < 0) != (other.raw < 0);
        proof {
            lemma_abs_mul(self.val(), SCALE as int);
        }
        match div_magnitudes_checked(ua, ub) {
            None => None,
            Some(m) => {
                if m == 0 {
                    Some(Decimal { raw: 0 })
                } else if !negative && m == HALF_RANGE {
                    None
                } else {
                    Some(Decimal { raw: with_sign(m, negative) })
                }
            },
        }
    }

    /// The largest whole number not above `self`, when it is representable.
    pub fn checked_floor(self) -> (r: Option<Decimal>)
        ensures
            r is Some <==> fits(floor_val(self.val())),
            r matches Some(d) ==> d.val() == floor_val(self.val()),
    {
        if self.raw >= 0 {
            proof {
                lemma_floor_nonneg(self.val());
            }
            return Some(self.floor());
        }
        let m = magnitude(self.raw);
        let rem = m % SCALE_U;
        if rem == 0 {
            proof {
                lemma_neg_mod_zero(self.val(), m as int, SCALE as int);
            }
            Some(self)
        } else {
            proof {
                lemma_neg_floor(self.val(), m as int, rem as int, SCALE as int);
            }
            let up = self.raw + (rem as i128);
            match up.checked_sub(SCALE) {
                Some(raw) => Some(Decimal { raw }),
                None => None,
            }
        }
    }

    /// The decimal `text` writes (see [`text_value`]), if it writes one.
    pub fn parse(text: &str) -> (r: Option<Decimal>)
        ensures
            r matches Some(d) ==> text_value(text.spec_bytes()) == Some(d.val()),
            r is None ==> text_value(text.spec_bytes()) is None,
    {
        parse_bytes(text.as_bytes())
    }

    /// The whole number held, as a `u64`; `self` must be a whole number in
    /// the range of `u64`.
    pub fn to_u64(self) -> (n: u64)
        requires
            self.val() % SCALE as int == 0,
            0 <= self.val(),
            self.val() / SCALE as int <= u64::MAX,
        ensures
            whole(n as int) == self.val(),
    {
        proof {
            lemma_fundamental_div_mod(self.val(), SCALE as int);
        }
        (self.raw / SCALE) as u64
    }
}

/// Dividing by a number of at least one whole unit does not grow a value:
/// the quotient is representable and no larger in magnitude.
pub proof fn lemma_div_val_shrinks(a: int, b: int)
    requires
        fits(a),
        b >= SCALE,
    ensures
        fits(div_val(a, b)),
        abs(div_val(a, b)) <= abs(a),
{
    let s = SCALE as int;
    assert(abs(a * s) == abs(a) * s) by (nonlinear_arith)
        requires
            s > 0,
    ;
    lemma_div_is_ordered_by_denominator(abs(a) * s, s, b);
    lemma_div_multiples_vanish(abs(a), s);
    assert(s * abs(a) == abs(a) * s) by (nonlinear_arith);
    assert((a * s < 0) == (a < 0)) by (nonlinear_arith)
        requires
            s > 0,
    ;
    lemma_div_pos_is_pos(abs(a) * s, b);
}

/// Multiplying by the whole number `k` multiplies the raw value by `k`.
pub proof fn lemma_mul_whole(a: int, k: int)
    requires
        k > 0,
    ensures
        mul_val(a, whole(k)) == a * k,
{
    let s = SCALE as int;
    assert(abs(a * (k * s)) == abs(a) * k * s) by (nonlinear_arith)
        requires
            k > 0,
            s > 0,
    ;
    assert(abs(a) * k * s == s * (abs(a) * k) + 0) by (nonlinear_arith);
    lemma_fundamental_div_mod_converse(abs(a) * k * s, s, abs(a) * k, 0);
    assert((a * (k * s) < 0) == (a < 0)) by (nonlinear_arith)
        requires
            k > 0,
            s > 0,
    ;
    assert(a * k == (if a < 0 {
        -(abs(a) * k)
    } else {
        abs(a) * k
    })) by (nonlinear_arith);
}

proof fn lemma_digits_step(s: Seq<u8>, k: int)
    requires
        0 <= k < s.len(),
    ensures
        digits_value(s.take(k + 1)) == digits_value(s.take(k)) * 10 + (s[k] - 48),
{
    assert(s.take(k + 1).drop_last() =~= s.take(k));
}

proof fn lemma_digits_nonneg(s: Seq<u8>)
    requires
        forall|j: int| 0 <= j < s.len() ==> is_digit(s[j]),
    ensures
        digits_value(s) >= 0,
    decreases s.len(),
{
    if s.len() > 0 {
        lemma_digits_nonneg(s.drop_last());
    }
}

proof fn lemma_digits_grow(s: Seq<u8>, k: int)
    requires
        0 <= k <= s.len(),
        forall|j: int| 0 <= j < s.len() ==> is_digit(s[j]),
    ensures
        0 <= digits_value(s.take(k)) <= digits_value(s),
    decreases s.len() - k,
{
    if k == s.len() {
        assert(s.take(k) =~= s);
        lemma_digits_nonneg(s);
    } else {
        lemma_digits_grow(s, k + 1);
        lemma_digits_step(s, k);
        lemma_digits_nonneg(s.take(k));
    }
}

proof fn lemma_ten_pow_add(a: nat, b: nat)
    ensures
        ten_pow(a) * ten_pow(b) == ten_pow(a + b),
        ten_pow(a) >= 1,
    decreases b,
{
    lemma_ten_pow_pos(a);
    if b == 0 {
        assert(ten_pow(0) == 1);
        assert(a + b == a);
    } else {
        let c = (b - 1) as nat;
        lemma_ten_pow_add(a, c);
        let x = ten_pow(a);
        let y = ten_pow(c);
        assert(ten_pow(b) == 10 * y);
        assert(x * ten_pow(b) == x * (10 * y));
        assert(x * (10 * y) == 10 * (x * y)) by (nonlinear_arith);
        assert((a + c) as nat == (a + b - 1) as nat);
        assert(x * y == ten_pow((a + b - 1) as nat));
        assert(ten_pow(a + b) == 10 * ten_pow((a + b - 1) as nat));
    }
}

proof fn lemma_ten_pow_18()
    ensures
        ten_pow(18) == SCALE,
{
    reveal_with_fuel(ten_pow, 19);
}

proof fn lemma_ten_pow_le_scale(m: nat)
    requires
        m <= 18,
    ensures
        1 <= ten_pow(m) <= SCALE,
{
    lemma_ten_pow_add(m, (18 - m) as nat);
    lemma_ten_pow_pos((18 - m) as nat);
    lemma_ten_pow_18();
    assert(m + (18 - m) as nat == 18);
    let x = ten_pow(m);
    let y = ten_pow((18 - m) as nat);
    assert(x <= x * y) by (nonlinear_arith)
        requires
            y >= 1,
            x >= 1,
    ;
}

/// `leading_digits` counts the digits `s` starts with.
proof fn lemma_leading_digits_facts(s: Seq<u8>)
    ensures
        0 <= leading_digits(s) <= s.len(),
        forall|j: int| 0 <= j < leading_digits(s) ==> is_digit(s[j]),
        leading_digits(s) < s.len() ==> !is_digit(s[leading_digits(s)]),
    decreases s.len(),
{
    if s.len() > 0 && is_digit(s[0]) {
        let t = s.skip(1);
        lemma_leading_digits_facts(t);
        assert forall|j: int| 0 <= j < leading_digits(s) implies is_digit(s[j]) by {
            if j > 0 {
                assert(s[j] == t[j - 1]);
            }
        }
        if leading_digits(s) < s.len() {
            assert(s[leading_digits(s)] == t[leading_digits(t)]);
        }
    }
}

/// Digits up to `k` and none at `k` (or the end) make `k` leading digits.
proof fn lemma_leading_digits_at(s: Seq<u8>, k: int)
    requires
        0 <= k <= s.len(),
        forall|j: int| 0 <= j < k ==> is_digit(s[j]),
        k == s.len() || !is_digit(s[k]),
    ensures
        leading_digits(s) == k,
    decreases k,
{
    if k > 0 {
        let t = s.skip(1);
        assert forall|j: int| 0 <= j < k - 1 implies is_digit(t[j]) by {
            assert(t[j] == s[j + 1]);
        }
        if k < s.len() {
            assert(t[k - 1] == s[k]);
        }
        lemma_leading_digits_at(t, k - 1);
    }
}

/// A text whose first `k` digits already write more than 2 * 10^20 is no
/// representable decimal.
proof fn lemma_text_too_large(b: Seq<u8>, k: int)
    requires
        0 <= k <= text_body(b).len(),
        forall|j: int| 0 <= j < k ==> is_digit(text_body(b)[j]),
        digits_value(text_body(b).take(k)) > 200_000_000_000_000_000_000,
    ensures
        text_value(b) is None,
{
    let body = text_body(b);
    lemma_leading_digits_facts(body);
    let p = leading_digits(body);
    if p < k {
        assert(is_digit(body[p]));
    }
    let ip = body.take(p);
    lemma_digits_grow(ip, k);
    assert(ip.take(k) =~= body.take(k));
    let frac = body.skip(p + 1);
    if p < body.len() && body[p] == 46 && 1 <= frac.len() <= 18 && leading_digits(frac)
        == frac.len() {
        lemma_leading_digits_facts(frac);
        lemma_digits_nonneg(frac);
        lemma_ten_pow_pos((18 - frac.len()) as nat);
        assert(digits_value(frac) * ten_pow((18 - frac.len()) as nat) >= 0) by (nonlinear_arith)
            requires
                digits_value(frac) >= 0,
                ten_pow((18 - frac.len()) as nat) >= 1,
        ;
    }
    assert(digits_value(ip) * SCALE > 200_000_000_000_000_000_000 * SCALE) by (nonlinear_arith)
        requires
            digits_value(ip) > 200_000_000_000_000_000_000,
    ;
}

/// The body of the text `b`: what follows an optional minus sign.
pub open spec fn text_body(b: Seq<u8>) -> Seq<u8> {
    if b.len() > 0 && b[0] == 45 {
        b.skip(1)
    } else {
        b
    }
}

/// Reads the digits of `b` from `start` on, the start of the body of `b`:
/// their number and value, or `None` when they already write too much for
/// a decimal.
fn read_whole(b: &[u8], start: usize) -> (r: Option<(usize, u128)>)
    requires
        start == (if b@.len() > 0 && b@[0] == 45 {
            1usize
        } else {
            0usize
        }),
    ensures
        r matches Some((p, acc)) ==> {
            &&& p == leading_digits(text_body(b@))
            &&& p <= text_body(b@).len()
            &&& acc == digits_value(text_body(b@).take(p as int))
            &&& acc <= 200_000_000_000_000_000_000
        },
        r is None ==> text_value(b@) is None,
{
    let n = b.len();
    let ghost body = text_body(b@);
    assert(body.len() == n - start);
    assert(forall|j: int| 0 <= j < body.len() ==> body[j] == b@[j + start]);
    let mut acc: u128 = 0;
    let mut i: usize = start;
    while i < n && 48 <= b[i] && b[i] <= 57
        invariant
            start <= i <= n,
            n == b@.len(),
            body == text_body(b@),
            body.len() == n - start,
            forall|j: int| 0 <= j < body.len() ==> body[j] == b@[j + start],
            forall|j: int| 0 <= j < i - start ==> is_digit(body[j]),
            acc == digits_value(body.take(i - start)),
            acc <= 200_000_000_000_000_000_000,
        decreases n - i,
    {
        proof {
            lemma_digits_step(body, i - start);
        }
        let next = acc * 10 + (b[i] - 48) as u128;
        if next > 200_000_000_000_000_000_000 {
            proof {
                lemma_text_too_large(b@, i - start + 1);
            }
            return None;
        }
        acc = next;
        i = i + 1;
    }
    proof {
        lemma_leading_digits_at(body, i - start);
    }
    assert(body.take(i - start).len() == i - start);
    Some((i - start, acc))
}

/// Reads the fraction `b[from..]`: its value scaled to eighteen places, or
/// `None` when it is not one to eighteen digits.
fn read_fraction(b: &[u8], from: usize) -> (r: Option<u128>)
    requires
        from <= b@.len(),
    ensures
        ({
            let frac = b@.skip(from as int);
            &&& r is Some <==> (1 <= frac.len() <= 18 && leading_digits(frac) == frac.len())
            &&& r matches Some(v) ==> v == digits_value(frac) * ten_pow((18 - frac.len()) as nat)
                && v < SCALE
        }),
{
    let n = b.len();
    let ghost frac = b@.skip(from as int);
    assert(forall|k: int| 0 <= k < frac.len() ==> frac[k] == b@[k + from]);
    let mut f: u128 = 0;
    let mut j: usize = from;
    while j < n
        invariant
            from <= j <= n,
            n == b@.len(),
            frac == b@.skip(from as int),
            frac.len() == n - from,
            forall|k: int| 0 <= k < frac.len() ==> frac[k] == b@[k + from],
            forall|k: int| 0 <= k < j - from ==> is_digit(frac[k]),
            j - from <= 18,
            f == digits_value(frac.take(j - from)),
            f < ten_pow((j - from) as nat),
        decreases n - j,
    {
        if j - from == 18 {
            proof {
                lemma_leading_digits_facts(frac);
            }
            return None;
        }
        if !(48 <= b[j] && b[j] <= 57) {
            proof {
                lemma_leading_digits_at(frac, j - from);
            }
            return None;
        }
        proof {
            let m = (j - from) as nat;
            lemma_digits_step(frac, m as int);
            lemma_ten_pow_le_scale(m);
            assert(ten_pow(m + 1) == 10 * ten_pow(m));
        }
        f = f * 10 + (b[j] - 48) as u128;
        j = j + 1;
    }
    let flen = n - from;
    assert(frac.take(flen as int) =~= frac);
    proof {
        lemma_leading_digits_at(frac, flen as int);
    }
    if flen == 0 {
        return None;
    }
    proof {
        lemma_ten_pow_add(flen as nat, (18 - flen) as nat);
        lemma_ten_pow_18();
    }
    let mut pow: u128 = 1;
    let mut k: usize = flen;
    while k < 18
        invariant
            flen <= k <= 18,
            1 <= flen <= 18,
            pow * ten_pow(flen as nat) * ten_pow((18 - k) as nat) == SCALE,
            pow >= 1,
        decreases 18 - k,
    {
        proof {
            let r = (18 - k) as nat;
            assert(ten_pow(r) == 10 * ten_pow((r - 1) as nat));
            lemma_ten_pow_pos((r - 1) as nat);
            lemma_ten_pow_pos(flen as nat);
            let x = ten_pow(flen as nat);
            let y = ten_pow((r - 1) as nat);
            assert(pow * x * (10 * y) == SCALE);
            assert(pow * 10 <= SCALE) by (nonlinear_arith)
                requires
                    pow * x * (10 * y) == SCALE,
                    x >= 1,
                    y >= 1,
                    pow >= 1,
            ;
            assert((pow * 10) * x * y == SCALE) by (nonlinear_arith)
                requires
                    pow * x * (10 * y) == SCALE,
            ;
        }
        pow = pow * 10;
        k = k + 1;
    }
    proof {
        assert(k == 18);
        assert(ten_pow(0) == 1);
        let x = ten_pow(flen as nat);
        assert(pow * x * ten_pow(0) == SCALE);
        assert(pow * x == SCALE);
        assert(f * pow < SCALE) by (nonlinear_arith)
            requires
                pow * x == SCALE,
                f < x,
                pow >= 1,
        ;
        assert(pow == ten_pow((18 - flen) as nat)) by (nonlinear_arith)
            requires
                pow * x == SCALE,
                x * ten_pow((18 - flen) as nat) == SCALE,
                x >= 1,
        ;
    }
    Some(f * pow)
}

/// The decimal written in the ASCII bytes `b` (see [`text_value`]).
fn parse_bytes(b: &[u8]) -> (r: Option<Decimal>)
    ensures
        r matches Some(d) ==> text_value(b@) == Some(d.val()),
        r is None ==> text_value(b@) is None,
{
    let n = b.len();
    let negative = n > 0 && b[0] == 45;
    let start: usize = if negative {
        1
    } else {
        0
    };
    let ghost body = text_body(b@);
    let (p, acc) = match read_whole(b, start) {
        Some(x) => x,
        None => {
            return None;
        },
    };
    if p == 0 {
        return None;
    }
    let i = start + p;
    assert(body.len() == n - start);
    let scaled: u128 = if i < n {
        assert(body[p as int] == b@[i as int]);
        if b[i] != 46 {
            return None;
        }
        assert(b@.skip(i as int + 1) =~= body.skip(p as int + 1));
        match read_fraction(b, i + 1) {
            Some(v) => v,
            None => {
                return None;
            },
        }
    } else {
        0
    };
    assert(acc * SCALE_U <= 200_000_000_000_000_000_000 * SCALE_U) by (nonlinear_arith)
        requires
            acc <= 200_000_000_000_000_000_000u128,
    ;
    let magnitude = acc * SCALE_U + scaled;
    proof {
        let frac = body.skip(p + 1);
        assert(magnitude == digits_value(body.take(p as int)) * SCALE + if p == body.len() {
            0
        } else {
            digits_value(frac) * ten_pow((18 - frac.len()) as nat)
        });
    }
    if negative {
        if magnitude > HALF_RANGE {
            return None;
        }
        Some(Decimal { raw: with_sign(magnitude, true) })
    } else {
        if magnitude >= HALF_RANGE {
            return None;
        }
        Some(Decimal { raw: with_sign(magnitude, false) })
    }
}

proof fn lemma_abs_mul(a: int, b: int)
    ensures
        abs(a * b) == abs(a) * abs(b),
        (a * b < 0) ==> ((a < 0) != (b < 0)),
        (a * b > 0) ==> ((a < 0) == (b < 0)),
{
    assert(abs(a * b) == abs(a) * abs(b)) by (nonlinear_arith);
    assert((a * b < 0) ==> ((a < 0) != (b < 0))) by (nonlinear_arith);
    assert((a * b > 0) ==> ((a < 0) == (b < 0))) by (nonlinear_arith);
}

proof fn lemma_floor_nonneg(x: int)
    requires
        x >= 0,
    ensures
        0 <= floor_val(x) <= x,
{
    lemma_fundamental_div_mod(x, SCALE as int);
    lemma_mod_pos_bound(x, SCALE as int);
    lemma_div_pos_is_pos(x, SCALE as int);
    assert(0 <= (x / (SCALE as int)) * SCALE) by (nonlinear_arith)
        requires
            x / (SCALE as int) >= 0,
    ;
}

proof fn lemma_neg_mod_zero(x: int, m: int, s: int)
    requires
        x < 0,
        m == -x,
        s > 0,
        m % s == 0,
    ensures
        (x / s) * s == x,
{
    lemma_fundamental_div_mod(m, s);
    let q = m / s;
    assert(x == (-q) * s + 0) by (nonlinear_arith)
        requires
            m == s * q + 0,
            x == -m,
    ;
    lemma_fundamental_div_mod_converse(x, s, -q, 0);
}

proof fn lemma_neg_floor(x: int, m: int, r: int, s: int)
    requires
        x < 0,
        m == -x,
        s > 0,
        r == m % s,
        r != 0,
    ensures
        (x / s) * s == x + r - s,
        x + r - s <= x < x + r,
{
    lemma_fundamental_div_mod(m, s);
    lemma_mod_pos_bound(m, s);
    let q = m / s;
    assert(x == (-q - 1) * s + (s - r)) by (nonlinear_arith)
        requires
            m == s * q + r,
            x == -m,
    ;
    lemma_fundamental_div_mod_converse(x, s, -q - 1, s - r);
    assert((-q - 1) * s == x + r - s) by (nonlinear_arith)
        requires
            x == (-q - 1) * s + (s - r),
    ;
}

/// `|x|` as an unsigned integer.
fn magnitude(x: i128) -> (m: u128)
    ensures
        m as int == abs(x as int),
{
    if x >= 0 {
        x as u128
    } else if x == i128::MIN {
        HALF_RANGE
    } else {
        (-x) as u128
    }
}

/// The signed integer of magnitude `m`, negated when `negative`.
fn with_sign(m: u128, negative: bool) -> (x: i128)
    requires
        m <= HALF_RANGE,
        !negative ==> m < HALF_RANGE,
    ensures
        x as int == (if negative {
            -(m as int)
        } else {
            m as int
        }),
{
    if !negative {
        m as i128
    } else if m == HALF_RANGE {
        i128::MIN
    } else {
        -(m as i128)
    }
}

proof fn lemma_mul_split(ua: int, ub: int, s: int)
    requires
        ua >= 0,
        ub >= 0,
        s > 0,
    ensures
        ({
            let qa = ua / s;
            let ra = ua % s;
            let qb = ub / s;
            let rb = ub % s;
            &&& (ua * ub) / s == qa * qb * s + qa * rb + ra * qb + (ra * rb) / s
            &&& qa >= 0 && qb >= 0 && 0 <= ra < s && 0 <= rb < s
            &&& 0 <= qa * qb <= qa * qb * s
            &&& 0 <= qa * rb
            &&& 0 <= ra * qb
            &&& 0 <= ra * rb < s * s
            &&& 0 <= (ra * rb) / s
        }),
{
    let qa = ua / s;
    let ra = ua % s;
    let qb = ub / s;
    let rb = ub % s;
    lemma_fundamental_div_mod(ua, s);
    lemma_fundamental_div_mod(ub, s);
    lemma_mod_pos_bound(ua, s);
    lemma_mod_pos_bound(ub, s);
    lemma_div_pos_is_pos(ua, s);
    lemma_div_pos_is_pos(ub, s);
    assert(0 <= ra * rb < s * s) by (nonlinear_arith)
        requires
            0 <= ra < s,
            0 <= rb < s,
    ;
    lemma_fundamental_div_mod(ra * rb, s);
    lemma_mod_pos_bound(ra * rb, s);
    lemma_div_pos_is_pos(ra * rb, s);
    let q2 = (ra * rb) / s;
    let r2 = (ra * rb) % s;
    let x = qa * qb * s + qa * rb + ra * qb;
    lemma_product_split(ua, ub, s, qa, ra, qb, rb, q2, r2);
    lemma_fundamental_div_mod_converse(ua * ub, s, x + q2, r2);
    assert(0 <= qa * qb <= qa * qb * s) by (nonlinear_arith)
        requires
            qa >= 0,
            qb >= 0,
            s > 0,
    ;
    assert(0 <= qa * rb && 0 <= ra * qb) by (nonlinear_arith)
        requires
            qa >= 0,
            qb >= 0,
            ra >= 0,
            rb >= 0,
    ;
}

proof fn lemma_product_split(
    ua: int,
    ub: int,
    s: int,
    qa: int,
    ra: int,
    qb: int,
    rb: int,
    q2: int,
    r2: int,
)
    requires
        ua == s * qa + ra,
        ub == s * qb + rb,
        ra * rb == s * q2 + r2,
    ensures
        ua * ub == (qa * qb * s + qa * rb + ra * qb + q2) * s + r2,
{
    assert(ua * ub == (s * qa + ra) * (s * qb + rb));
    assert((s * qa + ra) * (s * qb + rb) == s * qa * (s * qb) + s * qa * rb + ra * (s * qb) + ra
        * rb) by (nonlinear_arith);
    assert(s * qa * (s * qb) == qa * qb * s * s) by (nonlinear_arith);
    assert(s * qa * rb == qa * rb * s) by (nonlinear_arith);
    assert(ra * (s * qb) == ra * qb * s) by (nonlinear_arith);
    assert((qa * qb * s + qa * rb + ra * qb + q2) * s == qa * qb * s * s + qa * rb * s + ra * qb
        * s + q2 * s) by (nonlinear_arith);
    assert(s * q2 == q2 * s) by (nonlinear_arith);
}

/// `floor(ua * ub / 10^18)`, which must not exceed 2^127.
fn mul_magnitudes(ua: u128, ub: u128) -> (r: u128)
    requires
        (ua as int * ub as int) / (SCALE as int) <= HALF_RANGE,
    ensures
        r as int == (ua as int * ub as int) / (SCALE as int),
{
    proof {
        lemma_mul_split(ua as int, ub as int, SCALE as int);
    }
    let qa = ua / SCALE_U;
    let ra = ua % SCALE_U;
    let qb = ub / SCALE_U;
    let rb = ub % SCALE_U;
    let t1 = qa * qb;
    let t1s = t1 * SCALE_U;
    let t2 = qa * rb;
    let t3 = ra * qb;
    let t4 = (ra * rb) / SCALE_U;
    t1s + t2 + t3 + t4
}

/// `floor(ua * ub / 10^18)`, when it does not exceed 2^127.
fn mul_magnitudes_checked(ua: u128, ub: u128) -> (r: Option<u128>)
    ensures
        r is Some <==> (ua as int * ub as int) / (SCALE as int) <= HALF_RANGE,
        r matches Some(m) ==> m as int == (ua as int * ub as int) / (SCALE as int),
{
    proof {
        lemma_mul_split(ua as int, ub as int, SCALE as int);
    }
    let qa = ua / SCALE_U;
    let ra = ua % SCALE_U;
    let qb = ub / SCALE_U;
    let rb = ub % SCALE_U;
    let t1 = match qa.checked_mul(qb) {
        Some(t) => t,
        None => return None,
    };
    let t1s = match t1.checked_mul(SCALE_U) {
        Some(t) => t,
        None => return None,
    };
    let t2 = match qa.checked_mul(rb) {
        Some(t) => t,
        None => return None,
    };
    let t3 = match ra.checked_mul(qb) {
        Some(t) => t,
        None => return None,
    };
    let t4 = (ra * rb) / SCALE_U;
    let s1 = match t1s.checked_add(t2) {
        Some(t) => t,
        None => return None,
    };
    let s2 = match s1.checked_add(t3) {
        Some(t) => t,
        None => return None,
    };
    let s3 = match s2.checked_add(t4) {
        Some(t) => t,
        None => return None,
    };
    if s3 <= HALF_RANGE {
        Some(s3)
    } else {
        None
    }
}

/// `floor(ua * 10^18 / ub)` for `ub > 0`, when it does not exceed 2^127.
fn div_magnitudes_checked(ua: u128, ub: u128) -> (r: Option<u128>)
    requires
        0 < ub <= HALF_RANGE,
    ensures
        r is Some <==> (ua as int * SCALE as int) / (ub as int) <= HALF_RANGE,
        r matches Some(m) ==> m as int == (ua as int * SCALE as int) / (ub as int),
{
    let qa = ua / ub;
    let ra = ua % ub;
    let (t, rem) = scaled_fraction(ra, ub);
    proof {
        lemma_fundamental_div_mod(ua as int, ub as int);
        let s = SCALE as int;
        assert(ua as int * s == (qa as int * s + t as int) * ub as int + rem as int) by (nonlinear_arith)
            requires
                ua as int == ub as int * qa as int + ra as int,
                ra as int * s == t as int * ub as int + rem as int,
        ;
        lemma_fundamental_div_mod_converse(ua as int * s, ub as int, qa as int * s + t as int, rem as int);
        assert(0 <= qa as int * s) by (nonlinear_arith)
            requires
                qa >= 0,
                s > 0,
        ;
    }
    let big = match qa.checked_mul(SCALE_U) {
        Some(b) => b,
        None => return None,
    };
    let total = match big.checked_add(t) {
        Some(b) => b,
        None => return None,
    };
    if total <= HALF_RANGE {
        Some(total)
    } else {
        None
    }
}

proof fn lemma_ten_pow_pos(n: nat)
    ensures
        ten_pow(n) >= 1,
    decreases n,
{
    if n > 0 {
        lemma_ten_pow_pos((n - 1) as nat);
    }
}

/// If `a * p == q * b + r` with `a < b` and `r >= 0`, then `q < p`.
proof fn lemma_quotient_bound(a: int, b: int, p: int, q: int, r: int)
    requires
        0 <= a < b,
        p >= 1,
        r >= 0,
        a * p == q * b + r,
    ensures
        q < p,
{
    if q >= p {
        assert(q * b >= p * b) by (nonlinear_arith)
            requires
                q >= p,
                b > 0,
        ;
        assert(a * p < b * p) by (nonlinear_arith)
            requires
                a < b,
                p >= 1,
        ;
    }
}

/// `(floor(10 * rem / ub), 10 * rem mod ub)` for `rem < ub`.
fn times_ten(rem: u128, ub: u128) -> (res: (u128, u128))
    requires
        rem < ub,
        ub <= HALF_RANGE,
    ensures
        res.0 <= 10,
        res.1 < ub,
        rem * 10 == res.0 * ub + res.1,
{
    let mut k: u128 = 0;
    let mut acc: u128 = 0;
    let mut m: u32 = 0;
    while m < 10
        invariant
            m <= 10,
            rem < ub,
            ub <= HALF_RANGE,
            acc < ub,
            k <= m,
            rem * m == k * ub + acc,
        decreases 10 - m,
    {
        let ghost old_k = k;
        let ghost old_acc = acc;
        acc = acc + rem;
        if acc >= ub {
            acc = acc - ub;
            k = k + 1;
        }
        assert(rem * (m + 1) == k * ub + acc) by (nonlinear_arith)
            requires
                rem * m == old_k * ub + old_acc,
                (k == old_k && acc == old_acc + rem) || (k == old_k + 1 && acc == old_acc + rem - ub),
        ;
        m = m + 1;
    }
    (k, acc)
}

/// `(floor(ra * 10^18 / ub), ra * 10^18 mod ub)` for `ra < ub`.
fn scaled_fraction(ra: u128, ub: u128) -> (res: (u128, u128))
    requires
        ra < ub,
        ub <= HALF_RANGE,
    ensures
        res.1 < ub,
        ra as int * SCALE as int == res.0 as int * ub as int + res.1 as int,
{
    let mut t: u128 = 0;
    let mut rem: u128 = ra;
    let ghost mut p: int = 1;
    let mut j: u32 = 0;
    proof {
        reveal_with_fuel(ten_pow, 19);
        assert(ten_pow(18) == SCALE);
    }
    while j < 18
        invariant
            j <= 18,
            p >= 1,
            p * ten_pow((18 - j) as nat) == SCALE,
            ra < ub,
            ub <= HALF_RANGE,
            rem < ub,
            ra * p == t * ub + rem,
            t < p,
        decreases 18 - j,
    {
        proof {
            let n = (18 - j) as nat;
            assert(ten_pow(n) == 10 * ten_pow((n - 1) as nat));
            lemma_ten_pow_pos((n - 1) as nat);
            assert(p * 10 <= SCALE) by (nonlinear_arith)
                requires
                    p * (10 * ten_pow((n - 1) as nat)) == SCALE,
                    ten_pow((n - 1) as nat) >= 1,
                    p >= 1,
            ;
        }
        let (k, acc) = times_ten(rem, ub);
        let ghost old_t = t;
        let ghost old_rem = rem;
        proof {
            assert(ra * (10 * p) == (t * 10 + k) * ub + acc) by (nonlinear_arith)
                requires
                    ra * p == old_t * ub + old_rem,
                    old_rem * 10 == k * ub + acc,
                    t == old_t,
            ;
            lemma_quotient_bound(ra as int, ub as int, 10 * p, t * 10 + k, acc as int);
        }
        t = t * 10 + k;
        rem = acc;
        proof {
            let n = (18 - j) as nat;
            assert(10 * p * ten_pow((n - 1) as nat) == SCALE) by (nonlinear_arith)
                requires
                    p * (10 * ten_pow((n - 1) as nat)) == SCALE,
            ;
            p = 10 * p;
        }
        j = j + 1;
    }
    assert(j == 18);
    assert(p * ten_pow(0) == SCALE);
    assert(ten_pow(0) == 1);
    (t, rem)
}

/// `floor(ua * 10^18 / ub)` for `ub > 0`, which must not exceed 2^127.
fn div_magnitudes(ua: u128, ub: u128) -> (r: u128)
    requires
        0 < ub <= HALF_RANGE,
        (ua as int * SCALE as int) / (ub as int) <= HALF_RANGE,
    ensures
        r as int == (ua as int * SCALE as int) / (ub as int),
{
    let qa = ua / ub;
    let ra = ua % ub;
    let (t, rem) = scaled_fraction(ra, ub);
    proof {
        lemma_fundamental_div_mod(ua as int, ub as int);
        let s = SCALE as int;
        assert(ua as int * s == (qa as int * s + t as int) * ub as int + rem as int) by (nonlinear_arith)
            requires
                ua as int == ub as int * qa as int + ra as int,
                ra as int * s == t as int * ub as int + rem as int,
        ;
        lemma_fundamental_div_mod_converse(ua as int * s, ub as int, qa as int * s + t as int, rem as int);
        assert(0 <= qa as int * s) by (nonlinear_arith)
            requires
                qa >= 0,
                s > 0,
        ;
    }
    qa * SCALE_U + t
}

} // verus!
