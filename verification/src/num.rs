//! Exact rational numbers.
//!
//! The language's numeric values are rationals `n / d` with a signed 64-bit
//! numerator and an unsigned 64-bit denominator, kept in lowest terms by the
//! arithmetic below. Every operation is exact; a result that does not fit
//! (or, for sums and differences, whose 128-bit cross-product intermediate
//! does not fit) is reported as `None` rather than rounded. Division by zero
//! is likewise `None`.

use vstd::prelude::*;

verus! {

/// A rational number `n / d`. Well-formed values have `d >= 1`.
#[derive(Clone, Copy, Debug, PartialEq, Eq, Structural)]
pub struct Num {
    pub n: i64,
    pub d: u64,
}

pub open spec fn num_wf(a: Num) -> bool {
    a.d >= 1
}

/// Mathematical equality of two rationals, by cross-multiplication.
pub open spec fn sp_num_eq(a: Num, b: Num) -> bool {
    a.n * b.d == b.n * a.d
}

/// Mathematical strict order of two rationals, by cross-multiplication.
pub open spec fn sp_num_lt(a: Num, b: Num) -> bool {
    a.n * b.d < b.n * a.d
}

pub open spec fn sp_num_le(a: Num, b: Num) -> bool {
    a.n * b.d <= b.n * a.d
}

pub open spec fn sp_gcd(a: nat, b: nat) -> nat
    decreases b,
{
    if b == 0 {
        a
    } else {
        sp_gcd(b, a % b)
    }
}

pub proof fn lemma_gcd_pos(a: nat, b: nat)
    requires
        a > 0 || b > 0,
    ensures
        sp_gcd(a, b) > 0,
    decreases b,
{
    if b > 0 {
        lemma_gcd_pos(b, a % b);
    }
}

pub proof fn lemma_gcd_le(a: nat, b: nat)
    requires
        b >= 1,
    ensures
        sp_gcd(a, b) <= b,
    decreases b,
{
    if a % b == 0 {
        reveal_with_fuel(sp_gcd, 2);
    } else {
        lemma_gcd_le(b, a % b);
    }
}

/// The gcd divides both of its arguments.
pub proof fn lemma_gcd_divides(a: nat, b: nat)
    requires
        a > 0 || b > 0,
    ensures
        a % sp_gcd(a, b) == 0,
        b % sp_gcd(a, b) == 0,
    decreases b,
{
    lemma_gcd_pos(a, b);
    let g = sp_gcd(a, b);
    if b == 0 {
        vstd::arithmetic::div_mod::lemma_mod_self_0(a as int);
        vstd::arithmetic::div_mod::lemma_small_mod(0, a);
    } else {
        lemma_gcd_divides(b, a % b);
        vstd::arithmetic::div_mod::lemma_fundamental_div_mod(a as int, b as int);
        vstd::arithmetic::div_mod::lemma_fundamental_div_mod(b as int, g as int);
        let k = (b as int) / (g as int);
        let q = (a as int) / (b as int);
        assert((b as int) * q == (g as int) * (k * q)) by (nonlinear_arith)
            requires
                (b as int) == (g as int) * k,
        {}
        vstd::arithmetic::div_mod::lemma_mod_multiples_vanish(
            k * q,
            (a % b) as int,
            g as int,
        );
    }
}

/// Normalization is exact: the lowest-terms form denotes the same
/// rational as `num / den`, stated by cross-multiplication.
pub proof fn lemma_norm_exact(num: int, den: int)
    requires
        den >= 1,
    ensures
        sp_norm(num, den) matches Some(c) ==> c.n * den == num * c.d,
{
    let g = sp_gcd(sp_abs(num), den as nat);
    lemma_gcd_pos(sp_abs(num), den as nat);
    lemma_gcd_divides(sp_abs(num), den as nat);
    let m = sp_abs(num) / g;
    let d = den as nat / g;
    vstd::arithmetic::div_mod::lemma_fundamental_div_mod(sp_abs(num) as int, g as int);
    vstd::arithmetic::div_mod::lemma_fundamental_div_mod(den, g as int);
    assert(sp_abs(num) as int == g as int * (m as int));
    assert(den == g as int * (d as int));
    if sp_norm(num, den) is Some {
        let c = sp_norm(num, den)->0;
        if num < 0 {
            assert(c.n as int == -(m as int));
            assert((-(m as int)) * den == num * (d as int)) by (nonlinear_arith)
                requires
                    -num == (g as int) * (m as int),
                    den == (g as int) * (d as int),
            {}
        } else {
            assert(c.n as int == m as int);
            assert((m as int) * den == num * (d as int)) by (nonlinear_arith)
                requires
                    num == (g as int) * (m as int),
                    den == (g as int) * (d as int),
            {}
        }
    }
}

pub open spec fn sp_abs(x: int) -> nat {
    if x < 0 {
        (-x) as nat
    } else {
        x as nat
    }
}

/// The lowest-terms form of `num / den` in 64-bit widths, if it fits;
/// `den >= 1` is assumed.
pub open spec fn sp_norm(num: int, den: int) -> Option<Num> {
    let g = sp_gcd(sp_abs(num), den as nat);
    let m = sp_abs(num) / g;
    let d = den as nat / g;
    if num < 0 {
        if m <= 0x8000_0000_0000_0000 && d <= u64::MAX {
            Some(Num { n: (-(m as int)) as i64, d: d as u64 })
        } else {
            None
        }
    } else {
        if m <= i64::MAX && d <= u64::MAX {
            Some(Num { n: m as i64, d: d as u64 })
        } else {
            None
        }
    }
}

/// Sum. The cross-product sum is formed in 128 bits; a sum whose
/// intermediate exceeds that width counts as an overflow.
pub open spec fn sp_add(a: Num, b: Num) -> Option<Num> {
    let s = a.n * b.d + b.n * a.d;
    if s < i128::MIN || s > i128::MAX {
        None
    } else {
        sp_norm(s, a.d * b.d)
    }
}

/// Difference, under the same 128-bit intermediate rule as `sp_add`.
pub open spec fn sp_sub(a: Num, b: Num) -> Option<Num> {
    let s = a.n * b.d - b.n * a.d;
    if s < i128::MIN || s > i128::MAX {
        None
    } else {
        sp_norm(s, a.d * b.d)
    }
}

pub open spec fn sp_mul(a: Num, b: Num) -> Option<Num> {
    sp_norm(a.n * b.n, a.d * b.d)
}

/// Quotient; `None` on overflow and on division by zero.
pub open spec fn sp_div(a: Num, b: Num) -> Option<Num> {
    if b.n == 0 {
        None
    } else if b.n < 0 {
        sp_norm(-(a.n * b.d), a.d * -b.n)
    } else {
        sp_norm(a.n * b.d, a.d * b.n)
    }
}

pub open spec fn sp_neg(a: Num) -> Option<Num> {
    sp_norm(-a.n, a.d as int)
}

impl Num {
    /// The rational `v / 1`.
    pub fn from_i64(v: i64) -> (r: Num)
        ensures
            r == (Num { n: v, d: 1u64 }),
            num_wf(r),
    {
        Num { n: v, d: 1 }
    }
}

proof fn lemma_cross_fits(n: i64, d: u64)
    ensures
        i128::MIN <= n * d <= i128::MAX,
{
    assert(i64::MIN * u64::MAX <= n * d <= i64::MAX * u64::MAX) by (nonlinear_arith)
        requires
            i64::MIN <= n <= i64::MAX,
            0 <= d <= u64::MAX,
    {}
}

proof fn lemma_den_fits(x: u64, y: u64)
    requires
        x >= 1,
        y >= 1,
    ensures
        1 <= x * y <= u128::MAX,
{
    assert(1 * 1 <= x * y && x * y <= u64::MAX * u64::MAX) by (nonlinear_arith)
        requires
            1 <= x <= u64::MAX,
            1 <= y <= u64::MAX,
    {}
}

/// Euclid's algorithm; the result agrees with `sp_gcd`.
fn gcd_u128(a0: u128, b0: u128) -> (g: u128)
    ensures
        g == sp_gcd(a0 as nat, b0 as nat),
{
    let mut a = a0;
    let mut b = b0;
    while b != 0
        invariant
            sp_gcd(a as nat, b as nat) == sp_gcd(a0 as nat, b0 as nat),
        decreases b,
    {
        let t = a % b;
        a = b;
        b = t;
    }
    a
}

/// Magnitude of an `i128` as a `u128`, total even at `i128::MIN`.
fn mag_i128(x: i128) -> (m: u128)
    ensures
        m == sp_abs(x as int),
{
    if x >= 0 {
        x as u128
    } else {
        ((-(x + 1)) as u128) + 1
    }
}

/// Lowest-terms form of `num / den` in 64-bit widths, or `None`.
fn norm_i128(num: i128, den: u128) -> (r: Option<Num>)
    requires
        den >= 1,
    ensures
        r == sp_norm(num as int, den as int),
        r is Some ==> num_wf(r->0),
{
    let mag = mag_i128(num);
    let g = gcd_u128(mag, den);
    proof {
        lemma_gcd_pos(mag as nat, den as nat);
        lemma_gcd_le(mag as nat, den as nat);
        vstd::arithmetic::div_mod::lemma_div_non_zero(den as int, g as int);
    }
    let m = mag / g;
    let d = den / g;
    if num < 0 {
        if m <= 0x8000_0000_0000_0000u128 && d <= u64::MAX as u128 {
            let neg_m: i128 = -(m as i128);
            Some(Num { n: neg_m as i64, d: d as u64 })
        } else {
            None
        }
    } else {
        if m <= i64::MAX as u128 && d <= u64::MAX as u128 {
            Some(Num { n: m as i64, d: d as u64 })
        } else {
            None
        }
    }
}

/// Exact sum, `None` on overflow: the result denotes the mathematical
/// sum, by cross-multiplication.
pub fn num_add(a: Num, b: Num) -> (r: Option<Num>)
    requires
        num_wf(a),
        num_wf(b),
    ensures
        r == sp_add(a, b),
        r is Some ==> num_wf(r->0),
        r matches Some(c) ==> c.n * (a.d * b.d) == (a.n * b.d + b.n * a.d) * c.d,
{
    proof {
        lemma_cross_fits(a.n, b.d);
        lemma_cross_fits(b.n, a.d);
        lemma_den_fits(a.d, b.d);
    }
    let p1: i128 = (a.n as i128) * (b.d as i128);
    let p2: i128 = (b.n as i128) * (a.d as i128);
    if (p2 > 0 && p1 > i128::MAX - p2) || (p2 < 0 && p1 < i128::MIN - p2) {
        return None;
    }
    let num: i128 = p1 + p2;
    let den: u128 = (a.d as u128) * (b.d as u128);
    proof {
        lemma_norm_exact(a.n * b.d + b.n * a.d, a.d * b.d);
    }
    norm_i128(num, den)
}

/// Exact difference, `None` on overflow: the result denotes the
/// mathematical difference, by cross-multiplication.
pub fn num_sub(a: Num, b: Num) -> (r: Option<Num>)
    requires
        num_wf(a),
        num_wf(b),
    ensures
        r == sp_sub(a, b),
        r is Some ==> num_wf(r->0),
        r matches Some(c) ==> c.n * (a.d * b.d) == (a.n * b.d - b.n * a.d) * c.d,
{
    proof {
        lemma_cross_fits(a.n, b.d);
        lemma_cross_fits(b.n, a.d);
        lemma_den_fits(a.d, b.d);
    }
    let p1: i128 = (a.n as i128) * (b.d as i128);
    let p2: i128 = (b.n as i128) * (a.d as i128);
    if (p2 < 0 && p1 > i128::MAX + p2) || (p2 > 0 && p1 < i128::MIN + p2) {
        return None;
    }
    let num: i128 = p1 - p2;
    let den: u128 = (a.d as u128) * (b.d as u128);
    proof {
        lemma_norm_exact(a.n * b.d - b.n * a.d, a.d * b.d);
    }
    norm_i128(num, den)
}

/// Exact product, `None` on overflow: the result denotes the
/// mathematical product, by cross-multiplication.
pub fn num_mul(a: Num, b: Num) -> (r: Option<Num>)
    requires
        num_wf(a),
        num_wf(b),
    ensures
        r == sp_mul(a, b),
        r is Some ==> num_wf(r->0),
        r matches Some(c) ==> c.n * (a.d * b.d) == (a.n * b.n) * c.d,
{
    proof {
        assert(i64::MIN * i64::MIN >= a.n * b.n >= i64::MAX * i64::MIN && i128::MIN
            <= a.n * b.n <= i128::MAX) by (nonlinear_arith)
            requires
                i64::MIN <= a.n <= i64::MAX,
                i64::MIN <= b.n <= i64::MAX,
        {}
        lemma_den_fits(a.d, b.d);
    }
    let num: i128 = (a.n as i128) * (b.n as i128);
    let den: u128 = (a.d as u128) * (b.d as u128);
    proof {
        lemma_norm_exact(a.n * b.n, a.d * b.d);
    }
    norm_i128(num, den)
}

/// Exact quotient, `None` on overflow or division by zero: the result
/// denotes the mathematical quotient, by cross-multiplication.
pub fn num_div(a: Num, b: Num) -> (r: Option<Num>)
    requires
        num_wf(a),
        num_wf(b),
    ensures
        r == sp_div(a, b),
        r is Some ==> num_wf(r->0),
        r matches Some(c) ==> c.n * (a.d * b.n) == (a.n * b.d) * c.d,
{
    if b.n == 0 {
        return None;
    }
    proof {
        lemma_cross_fits(a.n, b.d);
        assert(1 <= a.d * sp_abs(b.n as int) <= u128::MAX) by (nonlinear_arith)
            requires
                1 <= a.d <= u64::MAX,
                1 <= sp_abs(b.n as int) <= 0x8000_0000_0000_0000,
        {}
    }
    let num: i128 = (a.n as i128) * (b.d as i128);
    let bn_mag: u64 = if b.n < 0 {
        (-(b.n + 1)) as u64 + 1
    } else {
        b.n as u64
    };
    let den: u128 = (a.d as u128) * (bn_mag as u128);
    if b.n < 0 {
        proof {
            assert(a.n * b.d > i128::MIN) by (nonlinear_arith)
                requires
                    i64::MIN <= a.n,
                    0 <= b.d <= u64::MAX,
            {}
            lemma_norm_exact(-(a.n * b.d), a.d * -b.n);
            if sp_norm(-(a.n * b.d), a.d * -b.n) is Some {
                let c = sp_norm(-(a.n * b.d), a.d * -b.n)->0;
                assert(c.n * (a.d * b.n) == (a.n * b.d) * c.d) by (nonlinear_arith)
                    requires
                        c.n * (a.d * -b.n) == (-(a.n * b.d)) * c.d,
                {}
            }
        }
        norm_i128(-num, den)
    } else {
        proof {
            lemma_norm_exact(a.n * b.d, a.d * b.n);
        }
        norm_i128(num, den)
    }
}

/// Exact negation, `None` only for the one unrepresentable magnitude:
/// the result denotes the negated rational, by cross-multiplication.
pub fn num_neg(a: Num) -> (r: Option<Num>)
    requires
        num_wf(a),
    ensures
        r == sp_neg(a),
        r is Some ==> num_wf(r->0),
        r matches Some(c) ==> c.n * a.d == (-a.n) * c.d,
{
    let num: i128 = -(a.n as i128);
    proof {
        lemma_norm_exact(-a.n, a.d as int);
    }
    norm_i128(num, a.d as u128)
}

/// Whether two rationals denote the same number.
pub fn num_eq(a: Num, b: Num) -> (r: bool)
    ensures
        r == sp_num_eq(a, b),
{
    proof {
        lemma_cross_fits(a.n, b.d);
        lemma_cross_fits(b.n, a.d);
    }
    (a.n as i128) * (b.d as i128) == (b.n as i128) * (a.d as i128)
}

/// Strict order on rationals.
pub fn num_lt(a: Num, b: Num) -> (r: bool)
    requires
        num_wf(a),
        num_wf(b),
    ensures
        r == sp_num_lt(a, b),
{
    proof {
        lemma_cross_fits(a.n, b.d);
        lemma_cross_fits(b.n, a.d);
    }
    (a.n as i128) * (b.d as i128) < (b.n as i128) * (a.d as i128)
}

/// Non-strict order on rationals.
pub fn num_le(a: Num, b: Num) -> (r: bool)
    requires
        num_wf(a),
        num_wf(b),
    ensures
        r == sp_num_le(a, b),
{
    proof {
        lemma_cross_fits(a.n, b.d);
        lemma_cross_fits(b.n, a.d);
    }
    (a.n as i128) * (b.d as i128) <= (b.n as i128) * (a.d as i128)
}

/// The decimal digits of `x`, most significant first.
pub open spec fn sp_digits(x: nat) -> Seq<u8>
    decreases x,
{
    if x < 10 {
        seq![(48 + x) as u8]
    } else {
        sp_digits(x / 10).push((48 + x % 10) as u8)
    }
}

/// The fractional decimal digits of the proper fraction `r / d` (with
/// `r < d`), by long division, up to `fuel` digits; `None` when the
/// expansion does not terminate within the fuel (a repeating decimal).
pub open spec fn sp_frac_digits(r: nat, d: nat, fuel: nat) -> Option<Seq<u8>>
    decreases fuel,
{
    if r == 0 {
        Some(Seq::empty())
    } else if fuel == 0 {
        None
    } else {
        match sp_frac_digits((r * 10) % d, d, (fuel - 1) as nat) {
            Some(rest) => Some(seq![(48 + (r * 10) / d) as u8] + rest),
            None => None,
        }
    }
}

/// How many fractional digits the renderer will develop before falling
/// back; every denominator of the form `2^a * 5^b` that fits in 64 bits
/// terminates well within it.
pub open spec fn sp_render_fuel() -> nat {
    100
}

/// The rendering of a rational: an optional minus sign, then decimal
/// digits. Integral values render bare; other values render with a
/// decimal point where the denominator admits a finite expansion;
/// repeating decimals fall back to `numerator/denominator`.
pub open spec fn sp_render_num(a: Num) -> Seq<u8> {
    let mag = sp_abs(a.n as int);
    let sign: Seq<u8> = if a.n < 0 {
        seq![45u8]
    } else {
        Seq::empty()
    };
    if a.d == 1 || mag % (a.d as nat) == 0 {
        sign + sp_digits(mag / (a.d as nat))
    } else {
        match sp_frac_digits(mag % (a.d as nat), a.d as nat, sp_render_fuel()) {
            Some(frac) => sign + sp_digits(mag / (a.d as nat)) + seq![46u8] + frac,
            None => sign + sp_digits(mag) + seq![47u8] + sp_digits(a.d as nat),
        }
    }
}

fn digits_u64(x: u64) -> (v: Vec<u8>)
    ensures
        v@ == sp_digits(x as nat),
    decreases x,
{
    if x < 10 {
        let mut v: Vec<u8> = Vec::new();
        v.push(48 + x as u8);
        v
    } else {
        let mut v = digits_u64(x / 10);
        v.push(48 + (x % 10) as u8);
        v
    }
}

/// Develops the fractional digits of `r0 / d`, matching
/// `sp_frac_digits` at the renderer's fuel.
fn frac_digits(r0: u64, d: u64) -> (v: Option<Vec<u8>>)
    requires
        0 < r0 < d,
    ensures
        match v {
            Some(ds) => Some(ds@) == sp_frac_digits(r0 as nat, d as nat, sp_render_fuel()),
            None => sp_frac_digits(r0 as nat, d as nat, sp_render_fuel()) is None,
        },
{
    let mut acc: Vec<u8> = Vec::new();
    let mut r: u128 = r0 as u128;
    let mut fuel: u64 = 100;
    proof {
        assert(sp_render_fuel() == 100);
    }
    while r != 0 && fuel > 0
        invariant
            r < d,
            d >= 2,
            fuel <= 100,
            sp_frac_digits(r0 as nat, d as nat, sp_render_fuel()) == (match sp_frac_digits(
                r as nat,
                d as nat,
                fuel as nat,
            ) {
                Some(rest) => Some(acc@ + rest),
                None => None::<Seq<u8>>,
            }),
        decreases fuel,
    {
        let r10 = r * 10;
        proof {
            vstd::arithmetic::div_mod::lemma_multiply_divide_lt(
                r10 as int,
                d as int,
                10,
            );
            vstd::arithmetic::div_mod::lemma_mod_division_less_than_divisor(
                r10 as int,
                d as int,
            );
        }
        let digit: u8 = 48 + (r10 / (d as u128)) as u8;
        let ghost pre_acc = acc@;
        acc.push(digit);
        proof {
            assert(acc@ =~= pre_acc + seq![digit]);
            let inner = sp_frac_digits((r10 % (d as u128)) as nat, d as nat, (fuel - 1) as nat);
            if inner is Some {
                assert(pre_acc + (seq![digit] + inner->0) =~= acc@ + inner->0);
            }
        }
        r = r10 % (d as u128);
        fuel = fuel - 1;
    }
    if r == 0 {
        proof {
            assert(acc@ + Seq::<u8>::empty() =~= acc@);
        }
        Some(acc)
    } else {
        None
    }
}

/// Renders a rational as bytes, matching `sp_render_num`.
pub fn render_num(a: Num) -> (v: Vec<u8>)
    requires
        num_wf(a),
    ensures
        v@ == sp_render_num(a),
{
    let mag: u64 = if a.n < 0 {
        (-(a.n + 1)) as u64 + 1
    } else {
        a.n as u64
    };
    let whole = mag / a.d;
    let rem = mag % a.d;
    let mut v: Vec<u8> = Vec::new();
    if a.n < 0 {
        v.push(45);
    }
    if a.d == 1 || rem == 0 {
        let mut ds = digits_u64(whole);
        v.append(&mut ds);
        proof {
            assert(v@ =~= sp_render_num(a));
        }
        return v;
    }
    match frac_digits(rem, a.d) {
        Some(mut frac) => {
            let mut ds = digits_u64(whole);
            v.append(&mut ds);
            v.push(46);
            v.append(&mut frac);
            proof {
                assert(v@ =~= sp_render_num(a));
            }
            v
        },
        None => {
            let mut ds = digits_u64(mag);
            v.append(&mut ds);
            v.push(47);
            let mut dd = digits_u64(a.d);
            v.append(&mut dd);
            proof {
                assert(v@ =~= sp_render_num(a));
            }
            v
        },
    }
}


/// Decimal digit predicate.
pub open spec fn sp_is_digit(b: u8) -> bool {
    48 <= b <= 57
}

pub open spec fn sp_all_digits(s: Seq<u8>) -> bool {
    forall|i: int| 0 <= i < s.len() ==> sp_is_digit(#[trigger] s[i])
}

/// The integer a digit string denotes.
pub open spec fn sp_digits_val(s: Seq<u8>) -> int
    decreases s.len(),
{
    if s.len() == 0 {
        0
    } else {
        sp_digits_val(s.drop_last()) * 10 + (s.last() - 48)
    }
}

/// Index of the first `.` in `s` at or after `i`.
pub open spec fn sp_find_dot(s: Seq<u8>, i: int) -> Option<int>
    decreases s.len() - i,
{
    if i < 0 || i >= s.len() {
        None
    } else if s[i] == 46 {
        Some(i)
    } else {
        sp_find_dot(s, i + 1)
    }
}

pub open spec fn sp_pow10(k: nat) -> int
    decreases k,
{
    if k == 0 {
        1
    } else {
        10 * sp_pow10((k - 1) as nat)
    }
}

/// The rational a numeric literal denotes: digits, optionally one `.`
/// and more digits. Values are accumulated in 128 bits; a literal whose
/// numerator or denominator exceeds that width is an overflow (`None`),
/// as is a malformed literal.
pub open spec fn sp_parse_num(s: Seq<u8>) -> Option<Num> {
    match sp_find_dot(s, 0) {
        None => if s.len() >= 1 && sp_all_digits(s) && sp_digits_val(s) <= u128::MAX {
            sp_norm(sp_digits_val(s), 1)
        } else {
            None
        },
        Some(k) => {
            let ip = s.subrange(0, k);
            let fp = s.subrange(k + 1, s.len() as int);
            if ip.len() >= 1 && fp.len() >= 1 && sp_all_digits(ip) && sp_all_digits(fp)
                && sp_find_dot(fp, 0) is None {
                let den = sp_pow10(fp.len());
                let numv = sp_digits_val(ip) * den + sp_digits_val(fp);
                if numv <= u128::MAX && den <= u128::MAX {
                    sp_norm(numv, den)
                } else {
                    None
                }
            } else {
                None
            }
        },
    }
}

proof fn lemma_all_digits_extend(s: Seq<u8>, from: int, i: int)
    requires
        0 <= from <= i < s.len(),
    ensures
        sp_all_digits(s.subrange(from, i + 1)) == (sp_all_digits(s.subrange(from, i))
            && sp_is_digit(s[i])),
{
    let a = s.subrange(from, i);
    let b = s.subrange(from, i + 1);
    assert(b.drop_last() =~= a);
    if sp_all_digits(a) && sp_is_digit(s[i]) {
        assert forall|j: int| 0 <= j < b.len() implies sp_is_digit(#[trigger] b[j]) by {
            if j < b.len() - 1 {
                assert(b[j] == a[j]);
            } else {
                assert(b[j] == s[i]);
            }
        }
    }
    if sp_all_digits(b) {
        assert forall|j: int| 0 <= j < a.len() implies sp_is_digit(#[trigger] a[j]) by {
            assert(a[j] == b[j]);
        }
        assert(sp_is_digit(b[b.len() - 1]));
    }
}

proof fn lemma_digits_val_nonneg(s: Seq<u8>)
    requires
        sp_all_digits(s),
    ensures
        sp_digits_val(s) >= 0,
    decreases s.len(),
{
    if s.len() > 0 {
        assert(sp_all_digits(s.drop_last()));
        lemma_digits_val_nonneg(s.drop_last());
    }
}

proof fn lemma_digits_val_monotone(s: Seq<u8>, i: int)
    requires
        sp_all_digits(s),
        0 <= i <= s.len(),
    ensures
        sp_digits_val(s.subrange(0, i)) <= sp_digits_val(s),
    decreases s.len() - i,
{
    if i < s.len() {
        lemma_digits_val_monotone(s, i + 1);
        let a = s.subrange(0, i);
        let b = s.subrange(0, i + 1);
        assert(b.drop_last() =~= a);
        lemma_digits_val_nonneg(a);
        assert(sp_all_digits(b));
    } else {
        assert(s.subrange(0, i) =~= s);
    }
}

/// Accumulates the value of the digit range `s[from..to]` onto `acc`,
/// or reports that it exceeds 128 bits.
fn digits_chunk_val(s: &Vec<u8>, from: usize, to: usize) -> (r: Option<u128>)
    requires
        from <= to <= s@.len(),
        sp_all_digits(s@.subrange(from as int, to as int)),
    ensures
        ({
            let v = sp_digits_val(s@.subrange(from as int, to as int));
            match r {
                Some(x) => x == v,
                None => v > u128::MAX,
            }
        }),
{
    let ghost whole = s@.subrange(from as int, to as int);
    let mut acc: u128 = 0;
    let mut i = from;
    while i < to
        invariant
            from <= i <= to <= s@.len(),
            sp_all_digits(whole),
            whole == s@.subrange(from as int, to as int),
            acc == sp_digits_val(s@.subrange(from as int, i as int)),
        decreases to - i,
    {
        let ghost pre = s@.subrange(from as int, i as int);
        let d = s[i];
        proof {
            assert(whole[i - from] == s@[i as int]);
            assert(sp_is_digit(d));
            lemma_digits_val_nonneg(pre);
        }
        let ghost nxt = s@.subrange(from as int, i + 1);
        proof {
            assert(nxt.drop_last() =~= pre);
            assert(nxt.last() == d);
            assert(sp_all_digits(nxt)) by {
                assert(forall|j: int| 0 <= j < nxt.len() ==> nxt[j] == whole[j]);
            }
            assert(whole.subrange(0, i + 1 - from) =~= nxt);
        }
        let stepped = match acc.checked_mul(10) {
            Some(p) => p.checked_add((d - 48) as u128),
            None => None,
        };
        match stepped {
            Some(x) => {
                acc = x;
                i = i + 1;
            },
            None => {
                proof {
                    assert(sp_digits_val(nxt) > u128::MAX);
                    lemma_digits_val_monotone(whole, i + 1 - from);
                }
                return None;
            },
        }
    }
    proof {
        assert(s@.subrange(from as int, to as int) =~= whole);
    }
    Some(acc)
}

/// Decides `sp_all_digits` on a range and finds the first dot, scanning.
fn scan_lit(s: &Vec<u8>) -> (r: (Option<usize>, bool))
    ensures
        ({
            let (dot, ok) = r;
            match dot {
                Some(k) => k < s@.len() && sp_find_dot(s@, 0) == Some(k as int) && (ok
                    == (sp_all_digits(s@.subrange(0, k as int)) && sp_all_digits(
                    s@.subrange(k + 1, s@.len() as int),
                ) && sp_find_dot(s@.subrange(k + 1, s@.len() as int), 0) is None)),
                None => sp_find_dot(s@, 0) is None && ok == sp_all_digits(s@),
            }
        }),
{
    let mut dot: Option<usize> = None;
    let mut ok = true;
    let mut i: usize = 0;
    while i < s.len()
        invariant
            i <= s@.len(),
            match dot {
                Some(k) => k < i && sp_find_dot(s@, 0) == Some(k as int) && s@[k as int] == 46
                    && (ok == (sp_all_digits(s@.subrange(0, k as int)) && sp_all_digits(
                    s@.subrange(k + 1, i as int),
                ) && sp_find_dot(s@.subrange(k + 1, i as int), 0) is None)),
                None => sp_find_dot(s@, 0) == sp_find_dot(s@, i as int) && ok == sp_all_digits(
                    s@.subrange(0, i as int),
                ),
            },
        decreases s@.len() - i,
    {
        let b = s[i];
        match dot {
            None => {
                if b == 46 {
                    dot = Some(i);
                    proof {
                        assert(s@.subrange(i + 1, i + 1) =~= Seq::<u8>::empty());
                    }
                } else {
                    if !(48 <= b && b <= 57) {
                        ok = false;
                    }
                    proof {
                        lemma_all_digits_extend(s@, 0, i as int);
                    }
                }
            },
            Some(k) => {
                proof {
                    let pre = s@.subrange(k + 1, i as int);
                    let nxt = s@.subrange(k + 1, i + 1);
                    assert(nxt.drop_last() =~= pre);
                    assert(nxt.last() == b);
                }
                if b == 46 {
                    ok = false;
                    proof {
                        let nxt = s@.subrange(k as int + 1, i + 1);
                        lemma_find_dot_hit(nxt, i - k - 1);
                    }
                } else if !(48 <= b && b <= 57) {
                    ok = false;
                    proof {
                        let nxt = s@.subrange(k as int + 1, i + 1);
                        lemma_all_digits_extend(s@, k as int + 1, i as int);
                        lemma_find_dot_extend(nxt, b);
                    }
                } else {
                    proof {
                        let nxt = s@.subrange(k as int + 1, i + 1);
                        lemma_all_digits_extend(s@, k as int + 1, i as int);
                        lemma_find_dot_extend(nxt, b);
                    }
                }
            },
        }
        i = i + 1;
    }
    proof {
        match dot {
            Some(k) => {
                assert(s@.subrange(k + 1, s@.len() as int) =~= s@.subrange(
                    k + 1,
                    i as int,
                ));
            },
            None => {
                assert(s@.subrange(0, i as int) =~= s@);
            },
        }
    }
    (dot, ok)
}

proof fn lemma_find_dot_hit(s: Seq<u8>, k: int)
    requires
        0 <= k < s.len(),
        s[k] == 46,
    ensures
        sp_find_dot(s, 0) is Some,
    decreases s.len(),
{
    lemma_find_dot_hit_from(s, 0, k);
}

proof fn lemma_find_dot_hit_from(s: Seq<u8>, i: int, k: int)
    requires
        0 <= i <= k < s.len(),
        s[k] == 46,
    ensures
        sp_find_dot(s, i) is Some,
    decreases s.len() - i,
{
    if i < k {
        lemma_find_dot_hit_from(s, i + 1, k);
    }
}

proof fn lemma_find_dot_extend(t: Seq<u8>, b: u8)
    requires
        t.len() >= 1,
        t.last() == b,
    ensures
        sp_find_dot(t.drop_last(), 0) is None && b != 46 ==> sp_find_dot(t, 0) is None,
        sp_find_dot(t.drop_last(), 0) is Some ==> sp_find_dot(t, 0) is Some,
{
    lemma_find_dot_extend_from(t, b, 0);
}

proof fn lemma_find_dot_extend_from(t: Seq<u8>, b: u8, i: int)
    requires
        t.len() >= 1,
        t.last() == b,
        0 <= i <= t.len() - 1,
    ensures
        sp_find_dot(t.drop_last(), i) is None && b != 46 ==> sp_find_dot(t, i) is None,
        sp_find_dot(t.drop_last(), i) is Some ==> sp_find_dot(t, i) is Some,
    decreases t.len() - i,
{
    reveal_with_fuel(sp_find_dot, 3);
    if i < t.len() - 1 {
        lemma_find_dot_extend_from(t, b, i + 1);
        assert(t.drop_last()[i] == t[i]);
    } else {
        assert(t[i] == b);
    }
}

/// Parses a numeric literal, matching `sp_parse_num`.
pub fn parse_num(s: &Vec<u8>) -> (r: Option<Num>)
    ensures
        r == sp_parse_num(s@),
        r is Some ==> num_wf(r->0),
{
    let (dot, ok) = scan_lit(s);
    match dot {
        None => {
            if !ok || s.len() == 0 {
                return None;
            }
            proof {
                assert(s@.subrange(0, s@.len() as int) =~= s@);
            }
            match digits_chunk_val(s, 0, s.len()) {
                Some(v) => {
                    proof {
                        lemma_digits_val_nonneg(s@);
                    }
                    norm_i128_pub(v, 1)
                },
                None => None,
            }
        },
        Some(k) => {
            let n = s.len();
            if !ok || k == 0 || k >= n - 1 {
                return None;
            }
            let ip = digits_chunk_val(s, 0, k);
            let fplen = n - (k + 1);
            let fp = digits_chunk_val(s, k + 1, s.len());
            let den = pow10_u128(fplen);
            match (ip, fp, den) {
                (Some(a), Some(b), Some(d)) => {
                    proof {
                        lemma_digits_val_nonneg(s@.subrange(0, k as int));
                        lemma_digits_val_nonneg(s@.subrange(k + 1, s@.len() as int));
                        lemma_pow10_pos(fplen as nat);
                    }
                    match a.checked_mul(d) {
                        Some(p) => match p.checked_add(b) {
                            Some(numv) => norm_i128_pub(numv, d),
                            None => None,
                        },
                        None => {
                            proof {
                                lemma_prod_exceeds(
                                    sp_digits_val(s@.subrange(0, k as int)),
                                    sp_pow10(fplen as nat),
                                    sp_digits_val(s@.subrange(k + 1, s@.len() as int)),
                                );
                            }
                            None
                        },
                    }
                },
                _ => {
                    proof {
                        let iv = sp_digits_val(s@.subrange(0, k as int));
                        let fv = sp_digits_val(s@.subrange(k + 1, s@.len() as int));
                        let dv = sp_pow10(fplen as nat);
                        lemma_digits_val_nonneg(s@.subrange(0, k as int));
                        lemma_digits_val_nonneg(s@.subrange(k + 1, s@.len() as int));
                        lemma_pow10_pos(fplen as nat);
                        if ip is None {
                            assert(iv * dv + fv > u128::MAX) by (nonlinear_arith)
                                requires
                                    iv > u128::MAX,
                                    dv >= 1,
                                    fv >= 0,
                            {}
                        } else if fp is None {
                            assert(iv * dv + fv > u128::MAX) by (nonlinear_arith)
                                requires
                                    iv >= 0,
                                    dv >= 1,
                                    fv > u128::MAX,
                            {}
                        }
                    }
                    None
                },
            }
        },
    }
}

proof fn lemma_prod_exceeds(a: int, d: int, b: int)
    requires
        a >= 0,
        d >= 1,
        b >= 0,
        a * d > u128::MAX,
    ensures
        a * d + b > u128::MAX,
{
}

proof fn lemma_pow10_pos(k: nat)
    ensures
        sp_pow10(k) >= 1,
    decreases k,
{
    if k > 0 {
        lemma_pow10_pos((k - 1) as nat);
    }
}

/// `10^k` in 128 bits, or `None` when it does not fit.
fn pow10_u128(k: usize) -> (r: Option<u128>)
    ensures
        match r {
            Some(x) => x == sp_pow10(k as nat),
            None => sp_pow10(k as nat) > u128::MAX,
        },
{
    let mut acc: u128 = 1;
    let mut i: usize = 0;
    while i < k
        invariant
            i <= k,
            acc == sp_pow10(i as nat),
        decreases k - i,
    {
        proof {
            lemma_pow10_pos(i as nat);
        }
        match acc.checked_mul(10) {
            Some(x) => {
                acc = x;
            },
            None => {
                proof {
                    lemma_pow10_monotone(i as nat + 1, k as nat);
                }
                return None;
            },
        }
        i = i + 1;
    }
    Some(acc)
}

proof fn lemma_pow10_monotone(a: nat, b: nat)
    requires
        a <= b,
    ensures
        sp_pow10(a) <= sp_pow10(b),
    decreases b,
{
    if a < b {
        lemma_pow10_monotone(a, (b - 1) as nat);
        lemma_pow10_pos((b - 1) as nat);
    }
}

/// `sp_norm` on nonnegative 128-bit inputs.
fn norm_i128_pub(num: u128, den: u128) -> (r: Option<Num>)
    requires
        den >= 1,
    ensures
        r == sp_norm(num as int, den as int),
        r is Some ==> num_wf(r->0),
{
    if num > i128::MAX as u128 {
        proof {
            lemma_gcd_pos(num as nat, den as nat);
        }
        let g = gcd_u128(num, den);
        let m = num / g;
        let d = den / g;
        proof {
            lemma_gcd_le(num as nat, den as nat);
            vstd::arithmetic::div_mod::lemma_div_non_zero(den as int, g as int);
        }
        if m <= i64::MAX as u128 && d <= u64::MAX as u128 {
            Some(Num { n: m as i64, d: d as u64 })
        } else {
            None
        }
    } else {
        norm_i128(num as i128, den)
    }
}


} // verus!
