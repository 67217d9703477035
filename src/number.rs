//! Exact decimal numbers read from text, with a not-a-number value for text that does not
//! read as one, and their order.
use vstd::prelude::*;

use crate::text::{chars_from, chars_of, find_first, first_of, string_of, take_chars};

verus! {

/// `±mantissa × 10^exponent`.
#[derive(Clone, Copy, Debug, PartialEq, Eq, Structural)]
pub struct Decimal {
    pub negative: bool,
    pub mantissa: u64,
    pub exponent: i64,
}

/// A numeric field: a decimal, or the not-a-number value that stands for text that does not
/// read as a number.
#[derive(Clone, Copy, Debug, PartialEq, Eq, Structural)]
pub enum Number {
    Finite(Decimal),
    NotANumber,
}

/// Exponents beyond this bound, written or implied by the fraction's length, are not read.
pub const EXPONENT_BOUND: u64 = 1_000_000;

pub open spec fn pow10(n: nat) -> nat
    decreases n,
{
    if n == 0 {
        1
    } else {
        10 * pow10((n - 1) as nat)
    }
}

pub open spec fn signed(d: Decimal) -> int {
    if d.negative {
        -(d.mantissa as int)
    } else {
        d.mantissa as int
    }
}

/// The value of `d` in units of `10^base`, for `base` at most its exponent.
pub open spec fn scaled(d: Decimal, base: int) -> int {
    signed(d) * pow10((d.exponent - base) as nat)
}

/// Whether the value of `a` is below the value of `b`.
pub open spec fn dec_lt(a: Decimal, b: Decimal) -> bool {
    let base = if a.exponent <= b.exponent {
        a.exponent as int
    } else {
        b.exponent as int
    };
    scaled(a, base) < scaled(b, base)
}

pub open spec fn is_digit(c: char) -> bool {
    '0' <= c && c <= '9'
}

pub open spec fn all_digits(s: Seq<char>) -> bool {
    forall|i: int| 0 <= i < s.len() ==> is_digit(#[trigger] s[i])
}

/// The value of a string of decimal digits.
pub open spec fn digits_value(s: Seq<char>) -> nat
    decreases s.len(),
{
    if s.len() == 0 {
        0
    } else {
        digits_value(s.drop_last()) * 10 + (s.last() as nat - '0' as nat) as nat
    }
}

/// Whether the text begins with a minus sign, and the text after an optional sign.
pub open spec fn sign_split(s: Seq<char>) -> (bool, Seq<char>) {
    if s.len() > 0 && s[0] == '-' {
        (true, s.skip(1))
    } else if s.len() > 0 && s[0] == '+' {
        (false, s.skip(1))
    } else {
        (false, s)
    }
}

/// The pieces of a number written `[sign] int [. frac] [(e|E) [sign] exp]`, with at least one
/// digit before the exponent: its sign, the digits before and after the point, the sign of
/// the exponent and its digits.
pub open spec fn number_parts(s: Seq<char>) -> Option<(bool, Seq<char>, Seq<char>, bool, Seq<char>)> {
    let (negative, body) = sign_split(s);
    let e_at = first_of(body, 'e', 'E') as int;
    let mant = body.take(e_at);
    let p = first_of(mant, '.', '.') as int;
    let int_digits = mant.take(p);
    let frac_digits = if p < mant.len() {
        mant.skip(p + 1)
    } else {
        Seq::<char>::empty()
    };
    let (exp_negative, exp_digits) = if e_at < body.len() {
        sign_split(body.skip(e_at + 1))
    } else {
        (false, seq!['0'])
    };
    if all_digits(int_digits) && all_digits(frac_digits) && int_digits.len() + frac_digits.len()
        > 0 && exp_digits.len() > 0 && all_digits(exp_digits) {
        Some((negative, int_digits, frac_digits, exp_negative, exp_digits))
    } else {
        None
    }
}

/// Digits kept of a number whose digits, read as an integer, do not fit in 64 bits.
pub const SIGNIFICANT: u64 = 19;

/// How many zeros `s` begins with.
pub open spec fn leading_zeros(s: Seq<char>) -> nat
    decreases s.len(),
{
    if s.len() > 0 && s[0] == '0' {
        1 + leading_zeros(s.skip(1))
    } else {
        0
    }
}

/// The first `SIGNIFICANT` digits of `sig` as an integer, rounded half up by the next digit.
pub open spec fn rounded_head(sig: Seq<char>) -> nat {
    digits_value(sig.take(SIGNIFICANT as int)) + if sig[SIGNIFICANT as int] >= '5' {
        1nat
    } else {
        0nat
    }
}

/// The number a text reads as: its decimal when it is written as one whose exponent and
/// digit count stay within the bound; not-a-number otherwise. Digits that do not fit in 64
/// bits are rounded to the first `SIGNIFICANT` significant ones, the rest moving into the
/// exponent.
pub open spec fn number_of(s: Seq<char>) -> Number {
    match number_parts(s) {
        Some((negative, int_digits, frac_digits, exp_negative, exp_digits)) => {
            let all = int_digits + frac_digits;
            let m = digits_value(all);
            let x = digits_value(exp_digits);
            if x <= EXPONENT_BOUND && all.len() <= EXPONENT_BOUND {
                let e = if exp_negative {
                    -(x as int)
                } else {
                    x as int
                };
                if m <= u64::MAX {
                    Number::Finite(
                        Decimal {
                            negative,
                            mantissa: m as u64,
                            exponent: (e - frac_digits.len()) as i64,
                        },
                    )
                } else {
                    let sig = all.skip(leading_zeros(all) as int);
                    Number::Finite(
                        Decimal {
                            negative,
                            mantissa: rounded_head(sig) as u64,
                            exponent: (e - frac_digits.len() + (sig.len() - SIGNIFICANT)) as i64,
                        },
                    )
                }
            } else {
                Number::NotANumber
            }
        },
        None => Number::NotANumber,
    }
}

proof fn lemma_digits_prefix_le(s: Seq<char>, k: int)
    requires
        0 <= k <= s.len(),
    ensures
        digits_value(s.take(k)) <= digits_value(s),
    decreases s.len(),
{
    if k < s.len() {
        lemma_digits_prefix_le(s.drop_last(), k);
        assert(s.drop_last().take(k) =~= s.take(k));
    } else {
        assert(s.take(k) =~= s);
    }
}

fn sign_split_exec(v: &Vec<char>) -> (r: (bool, Vec<char>))
    ensures
        (r.0, r.1@) == sign_split(v@),
{
    if v.len() > 0 && v[0] == '-' {
        (true, chars_from(v.as_slice(), 1))
    } else if v.len() > 0 && v[0] == '+' {
        (false, chars_from(v.as_slice(), 1))
    } else {
        (false, chars_from(v.as_slice(), 0))
    }
}

/// The value of a string of digits, or `None` when it holds another character or its value
/// does not fit in 64 bits.
fn read_digits(v: &Vec<char>) -> (r: Option<u64>)
    ensures
        r is Some <==> all_digits(v@) && digits_value(v@) <= u64::MAX,
        r matches Some(x) ==> x == digits_value(v@),
{
    let mut x: u64 = 0;
    let mut i: usize = 0;
    while i < v.len()
        invariant
            i <= v@.len(),
            all_digits(v@.take(i as int)),
            x == digits_value(v@.take(i as int)),
        decreases v@.len() - i,
    {
        let c = v[i];
        assert(v@.take(i + 1).drop_last() =~= v@.take(i as int));
        if !('0' <= c && c <= '9') {
            assert(!is_digit(v@[i as int]));
            return None;
        }
        let d = (c as u32 - '0' as u32) as u64;
        if x > (u64::MAX - d) / 10 {
            proof {
                assert(x * 10 + d > u64::MAX) by (nonlinear_arith)
                    requires
                        x > (u64::MAX - d) / 10,
                        d <= 9,
                ;
                if all_digits(v@) {
                    lemma_digits_prefix_le(v@, i + 1);
                }
            }
            return None;
        }
        x = x * 10 + d;
        proof {
            assert forall|j: int| 0 <= j < i + 1 implies is_digit(#[trigger] v@.take(i + 1)[j]) by {
                if j < i {
                    assert(v@.take(i + 1)[j] == v@.take(i as int)[j]);
                }
            }
        }
        i = i + 1;
    }
    assert(v@.take(v@.len() as int) =~= v@);
    Some(x)
}

/// Reads a number; text that does not read as one gives not-a-number.
#[verifier::rlimit(50)]
pub fn parse_number(text: &str) -> (r: Number)
    ensures
        r == number_of(text@),
{
    let s = chars_of(text);
    let (negative, body) = sign_split_exec(&s);
    let e_at = find_first(&body, 'e', 'E');
    let mant = take_chars(&body, e_at);
    let p = find_first(&mant, '.', '.');
    let int_digits = take_chars(&mant, p);
    let frac_digits = if p < mant.len() {
        chars_from(mant.as_slice(), p + 1)
    } else {
        Vec::new()
    };
    let (exp_negative, exp_digits) = if e_at < body.len() {
        let rest = chars_from(body.as_slice(), e_at + 1);
        sign_split_exec(&rest)
    } else {
        (false, vec!['0'])
    };
    proof {
        if e_at >= body@.len() {
            assert(exp_digits@ =~= seq!['0']);
        }
        if p >= mant@.len() {
            assert(frac_digits@ =~= Seq::<char>::empty());
        }
    }
    if int_digits.len() == 0 && frac_digits.len() == 0 {
        return Number::NotANumber;
    }
    if exp_digits.len() == 0 {
        return Number::NotANumber;
    }
    let frac_len = frac_digits.len();
    let mut all = int_digits.clone();
    let mut frac = frac_digits;
    let ghost fd = frac@;
    all.append(&mut frac);
    proof {
        assert(all@ =~= int_digits@ + fd);
        if all_digits(all@) {
            assert forall|i: int| 0 <= i < int_digits@.len() implies is_digit(#[trigger] int_digits@[i]) by {
                assert(all@[i] == int_digits@[i]);
            }
            assert forall|i: int| 0 <= i < fd.len() implies is_digit(#[trigger] fd[i]) by {
                assert(all@[int_digits@.len() + i] == fd[i]);
            }
        }
        if all_digits(int_digits@) && all_digits(fd) {
            assert forall|i: int| 0 <= i < all@.len() implies is_digit(#[trigger] all@[i]) by {
                if i < int_digits@.len() {
                    assert(all@[i] == int_digits@[i]);
                } else {
                    assert(all@[i] == fd[i - int_digits@.len()]);
                }
            }
        }
    }
    if !all_digits_exec(&all) {
        return Number::NotANumber;
    }
    let x = match read_digits(&exp_digits) {
        None => return Number::NotANumber,
        Some(x) => x,
    };
    if x > EXPONENT_BOUND || all.len() as u64 > EXPONENT_BOUND {
        return Number::NotANumber;
    }
    let e: i64 = if exp_negative {
        -(x as i64)
    } else {
        x as i64
    };
    match read_digits(&all) {
        Some(m) => Number::Finite(Decimal { negative, mantissa: m, exponent: e - frac_len as i64 }),
        None => Number::Finite(rounded_decimal(&all, negative, e - frac_len as i64)),
    }
}

/// The decimal of digits `all` times `10^base` whose value does not fit in 64 bits, rounded
/// to its first `SIGNIFICANT` significant digits.
fn rounded_decimal(all: &Vec<char>, negative: bool, base: i64) -> (r: Decimal)
    requires
        all_digits(all@),
        digits_value(all@) > u64::MAX,
        all@.len() <= EXPONENT_BOUND,
        -3_000_000 <= base <= 3_000_000,
    ensures
        ({
            let sig = all@.skip(leading_zeros(all@) as int);
            r == Decimal {
                negative,
                mantissa: rounded_head(sig) as u64,
                exponent: (base + (sig.len() - SIGNIFICANT)) as i64,
            }
        }),
{
    let z = count_leading_zeros(all);
    let sig = chars_from(all.as_slice(), z);
    proof {
        lemma_skip_zeros(all@, z as int);
        assert forall|i: int| 0 <= i < sig@.len() implies is_digit(#[trigger] sig@[i]) by {
            assert(sig@[i] == all@[z + i]);
        }
        lemma_digits_lt_pow(sig@);
        reveal_with_fuel(pow10, 20);
        if sig@.len() < 20 {
            lemma_pow10_add(sig@.len(), (19 - sig@.len()) as nat);
            lemma_pow10_pos((19 - sig@.len()) as nat);
            lemma_pow10_pos(sig@.len());
            assert(pow10(sig@.len()) <= pow10(19)) by (nonlinear_arith)
                requires
                    pow10(19) == pow10(sig@.len()) * pow10((19 - sig@.len()) as nat),
                    pow10((19 - sig@.len()) as nat) >= 1,
                    pow10(sig@.len()) >= 1,
            ;
        }
        assert(sig@.len() >= 20);
    }
    let head_chars = take_chars(&sig, 19);
    proof {
        assert forall|i: int| 0 <= i < head_chars@.len() implies is_digit(
            #[trigger] head_chars@[i],
        ) by {
            assert(head_chars@[i] == sig@[i]);
        }
        lemma_digits_lt_pow(head_chars@);
        reveal_with_fuel(pow10, 20);
    }
    let head = match read_digits(&head_chars) {
        Some(h) => h,
        None => 0,
    };
    let up: u64 = if sig[19] >= '5' {
        1
    } else {
        0
    };
    Decimal { negative, mantissa: head + up, exponent: base + (sig.len() - 19) as i64 }
}

fn all_digits_exec(v: &Vec<char>) -> (r: bool)
    ensures
        r == all_digits(v@),
{
    let mut i: usize = 0;
    while i < v.len()
        invariant
            i <= v@.len(),
            forall|j: int| 0 <= j < i ==> is_digit(#[trigger] v@[j]),
        decreases v@.len() - i,
    {
        if !('0' <= v[i] && v[i] <= '9') {
            return false;
        }
        i = i + 1;
    }
    true
}

fn count_leading_zeros(v: &Vec<char>) -> (r: usize)
    ensures
        r == leading_zeros(v@),
        r <= v@.len(),
        forall|j: int| 0 <= j < r ==> v@[j] == '0',
{
    let mut i: usize = 0;
    assert(v@.skip(0) =~= v@);
    while i < v.len() && v[i] == '0'
        invariant
            i <= v@.len(),
            forall|j: int| 0 <= j < i ==> v@[j] == '0',
            leading_zeros(v@) == i + leading_zeros(v@.skip(i as int)),
        decreases v@.len() - i,
    {
        assert(v@.skip(i as int).skip(1) =~= v@.skip(i + 1));
        i = i + 1;
    }
    i
}

pub proof fn lemma_leading_zeros_le(s: Seq<char>)
    ensures
        leading_zeros(s) <= s.len(),
    decreases s.len(),
{
    if s.len() > 0 && s[0] == '0' {
        lemma_leading_zeros_le(s.skip(1));
    }
}

proof fn lemma_digits_lt_pow(s: Seq<char>)
    requires
        all_digits(s),
    ensures
        digits_value(s) < pow10(s.len()),
    decreases s.len(),
{
    if s.len() > 0 {
        assert(all_digits(s.drop_last())) by {
            assert forall|i: int| 0 <= i < s.drop_last().len() implies is_digit(
                #[trigger] s.drop_last()[i],
            ) by {
                assert(s.drop_last()[i] == s[i]);
            }
        }
        lemma_digits_lt_pow(s.drop_last());
        assert(is_digit(s[s.len() - 1]));
        let p = pow10(s.drop_last().len());
        let v = digits_value(s.drop_last());
        let d = (s.last() as nat - '0' as nat) as nat;
        assert(pow10(s.len()) == 10 * p);
        assert(v * 10 + d < 10 * p) by (nonlinear_arith)
            requires
                v < p,
                d <= 9,
        ;
    }
}

proof fn lemma_drop_zero(s: Seq<char>)
    requires
        s.len() > 0,
        s[0] == '0',
    ensures
        digits_value(s) == digits_value(s.skip(1)),
    decreases s.len(),
{
    if s.len() == 1 {
        assert(s.skip(1) =~= Seq::<char>::empty());
        assert(s.drop_last() =~= Seq::<char>::empty());
    } else {
        lemma_drop_zero(s.drop_last());
        assert(s.drop_last().skip(1) =~= s.skip(1).drop_last());
        assert(s.skip(1).last() == s.last());
    }
}

proof fn lemma_skip_zeros(s: Seq<char>, i: int)
    requires
        0 <= i <= s.len(),
        forall|j: int| 0 <= j < i ==> s[j] == '0',
    ensures
        digits_value(s) == digits_value(s.skip(i)),
    decreases i,
{
    if i > 0 {
        lemma_skip_zeros(s, i - 1);
        lemma_drop_zero(s.skip(i - 1));
        assert(s.skip(i - 1).skip(1) =~= s.skip(i));
    } else {
        assert(s.skip(0) =~= s);
    }
}

proof fn lemma_pow10_pos(n: nat)
    ensures
        pow10(n) >= 1,
    decreases n,
{
    if n > 0 {
        lemma_pow10_pos((n - 1) as nat);
    }
}

proof fn lemma_pow10_add(a: nat, b: nat)
    ensures
        pow10(a + b) == pow10(a) * pow10(b),
    decreases a,
{
    if a > 0 {
        lemma_pow10_add((a - 1) as nat, b);
        assert(pow10(a + b) == 10 * pow10((a - 1 + b) as nat));
        assert(10 * (pow10((a - 1) as nat) * pow10(b)) == (10 * pow10((a - 1) as nat)) * pow10(b))
            by (nonlinear_arith);
    } else {
        assert(a + b == b);
        assert(pow10(a) == 1);
    }
}

/// `m × 10^(e - base)`: a magnitude in units of `10^base`.
pub open spec fn mag(m: int, e: int, base: int) -> int {
    m * pow10((e - base) as nat)
}

/// Comparing two magnitudes in units of `10^b1` or of a smaller `10^b2` agrees.
proof fn lemma_mag_rebase(m1: int, e1: int, m2: int, e2: int, b1: int, b2: int)
    requires
        b2 <= b1,
        b1 <= e1,
        b1 <= e2,
    ensures
        mag(m1, e1, b1) < mag(m2, e2, b1) <==> mag(m1, e1, b2) < mag(m2, e2, b2),
        mag(m1, e1, b1) == mag(m2, e2, b1) <==> mag(m1, e1, b2) == mag(m2, e2, b2),
{
    let d = (b1 - b2) as nat;
    lemma_pow10_add((e1 - b1) as nat, d);
    lemma_pow10_add((e2 - b1) as nat, d);
    lemma_pow10_pos(d);
    assert((e1 - b1) as nat + d == (e1 - b2) as nat);
    assert((e2 - b1) as nat + d == (e2 - b2) as nat);
    let scale1 = pow10((e1 - b1) as nat);
    let scale2 = pow10((e2 - b1) as nat);
    let q = pow10(d);
    assert(mag(m1, e1, b2) == (m1 * scale1) * q) by (nonlinear_arith)
        requires
            mag(m1, e1, b2) == m1 * (scale1 * q),
    ;
    assert(mag(m2, e2, b2) == (m2 * scale2) * q) by (nonlinear_arith)
        requires
            mag(m2, e2, b2) == m2 * (scale2 * q),
    ;
    assert((m1 * scale1) < (m2 * scale2) <==> (m1 * scale1) * q < (m2 * scale2) * q) by (nonlinear_arith)
        requires
            q >= 1,
    ;
    assert((m1 * scale1) == (m2 * scale2) <==> (m1 * scale1) * q == (m2 * scale2) * q) by (nonlinear_arith)
        requires
            q >= 1,
    ;
}

const SCALE_LOW: u128 = 10_000_000_000_000_000_000;

const SCALE_HIGH: u128 = 100_000_000_000_000_000_000;

/// `m × 10^e` written with a mantissa of exactly twenty digits.
fn normalize(m: u64, e: i64) -> (r: (u128, i64))
    requires
        m > 0,
        -4_000_000 <= e <= 4_000_000,
    ensures
        SCALE_LOW <= r.0 < SCALE_HIGH,
        e - 20 <= r.1 <= e,
        r.0 as int == m as int * pow10((e - r.1) as nat),
{
    let mut x: u128 = m as u128;
    let mut f: i64 = e;
    proof {
        reveal_with_fuel(pow10, 21);
        assert(pow10(0) == 1);
        assert((e - f) as nat == 0);
        assert(x as int == m as int * pow10(0));
    }
    while x < SCALE_LOW
        invariant
            0 < x < SCALE_HIGH,
            e - 20 <= f <= e,
            -4_000_000 <= e <= 4_000_000,
            x as int == m as int * pow10((e - f) as nat),
            x >= pow10((e - f) as nat),
            pow10(20) == SCALE_HIGH,
        decreases f - (e - 20),
    {
        proof {
            if f == e - 20 {
                assert(false);
            }
            let k = (e - f) as nat;
            assert(pow10(k + 1) == 10 * pow10(k));
            assert(m as int * pow10(k + 1) == 10 * (m as int * pow10(k))) by (nonlinear_arith)
                requires
                    pow10(k + 1) == 10 * pow10(k),
            ;
            assert((e - (f - 1)) as nat == k + 1);
        }
        x = x * 10;
        f = f - 1;
    }
    (x, f)
}

/// Whether `ma × 10^ea` is below `mb × 10^eb`, for positive mantissas.
fn magnitude_lt(ma: u64, ea: i64, mb: u64, eb: i64) -> (r: bool)
    requires
        ma > 0,
        mb > 0,
        -4_000_000 <= ea <= 4_000_000,
        -4_000_000 <= eb <= 4_000_000,
    ensures
        ({
            let base = if ea <= eb {
                ea as int
            } else {
                eb as int
            };
            r == (mag(ma as int, ea as int, base) < mag(mb as int, eb as int, base))
        }),
{
    let (xa, fa) = normalize(ma, ea);
    let (xb, fb) = normalize(mb, eb);
    let r = fa < fb || (fa == fb && xa < xb);
    proof {
        let base = if ea <= eb {
            ea as int
        } else {
            eb as int
        };
        let low = if fa <= fb {
            fa as int
        } else {
            fb as int
        };
        lemma_pow10_add((ea - fa) as nat, (fa - low) as nat);
        lemma_pow10_add((eb - fb) as nat, (fb - low) as nat);
        assert((ea - fa) as nat + (fa - low) as nat == (ea - low) as nat);
        assert((eb - fb) as nat + (fb - low) as nat == (eb - low) as nat);
        let pa = pow10((ea - fa) as nat);
        let pb = pow10((eb - fb) as nat);
        let qa = pow10((fa - low) as nat);
        let qb = pow10((fb - low) as nat);
        assert(mag(ma as int, ea as int, low) == xa as int * qa) by (nonlinear_arith)
            requires
                mag(ma as int, ea as int, low) == ma as int * (pa * qa),
                xa as int == ma as int * pa,
        ;
        assert(mag(mb as int, eb as int, low) == xb as int * qb) by (nonlinear_arith)
            requires
                mag(mb as int, eb as int, low) == mb as int * (pb * qb),
                xb as int == mb as int * pb,
        ;
        lemma_mag_rebase(ma as int, ea as int, mb as int, eb as int, base, low);
        lemma_pow10_pos((fa - low) as nat);
        lemma_pow10_pos((fb - low) as nat);
        if fa < fb {
            assert(qa == 1);
            assert(qb == 10 * pow10((fb - low - 1) as nat));
            lemma_pow10_pos((fb - low - 1) as nat);
            assert(xb as int * qb >= SCALE_HIGH) by (nonlinear_arith)
                requires
                    xb >= SCALE_LOW,
                    qb == 10 * pow10((fb - low - 1) as nat),
                    pow10((fb - low - 1) as nat) >= 1,
                    SCALE_HIGH == 10 * SCALE_LOW,
            ;
        } else if fb < fa {
            assert(qb == 1);
            assert(qa == 10 * pow10((fa - low - 1) as nat));
            lemma_pow10_pos((fa - low - 1) as nat);
            assert(xa as int * qa >= SCALE_HIGH) by (nonlinear_arith)
                requires
                    xa >= SCALE_LOW,
                    qa == 10 * pow10((fa - low - 1) as nat),
                    pow10((fa - low - 1) as nat) >= 1,
                    SCALE_HIGH == 10 * SCALE_LOW,
            ;
        } else {
            assert(qa == 1 && qb == 1);
        }
    }
    r
}

impl Decimal {
    /// Exponents stay well inside the range that comparisons can shift through.
    pub open spec fn wf(&self) -> bool {
        -4_000_000 <= self.exponent <= 4_000_000
    }

    /// Whether the exponent is in the range comparisons accept.
    pub fn in_range(&self) -> (r: bool)
        ensures
            r == self.wf(),
    {
        -4_000_000 <= self.exponent && self.exponent <= 4_000_000
    }

    /// Whether this value is below `other`'s.
    pub fn less_than(&self, other: &Decimal) -> (r: bool)
        requires
            self.wf(),
            other.wf(),
        ensures
            r == dec_lt(*self, *other),
    {
        let a = *self;
        let b = *other;
        let ghost base = if a.exponent <= b.exponent {
            a.exponent as int
        } else {
            b.exponent as int
        };
        proof {
            lemma_pow10_pos((a.exponent - base) as nat);
            lemma_pow10_pos((b.exponent - base) as nat);
            let pa = pow10((a.exponent - base) as nat);
            let pb = pow10((b.exponent - base) as nat);
            assert(scaled(a, base) == signed(a) * pa);
            assert(scaled(b, base) == signed(b) * pb);
            assert(a.mantissa > 0 ==> a.mantissa as int * pa > 0) by (nonlinear_arith)
                requires
                    pa >= 1,
            ;
            assert(b.mantissa > 0 ==> b.mantissa as int * pb > 0) by (nonlinear_arith)
                requires
                    pb >= 1,
            ;
            assert(-(a.mantissa as int) * pa == -(a.mantissa as int * pa)) by (nonlinear_arith);
            assert(-(b.mantissa as int) * pb == -(b.mantissa as int * pb)) by (nonlinear_arith);
            assert(a.mantissa == 0 ==> scaled(a, base) == 0);
            assert(b.mantissa == 0 ==> scaled(b, base) == 0);
        }
        let a_zero = a.mantissa == 0;
        let b_zero = b.mantissa == 0;
        let a_neg = a.negative && !a_zero;
        let b_neg = b.negative && !b_zero;
        let a_pos = !a.negative && !a_zero;
        let b_pos = !b.negative && !b_zero;
        if a_zero && b_zero {
            false
        } else if a_zero {
            b_pos
        } else if b_zero {
            a_neg
        } else if a_neg != b_neg {
            a_neg
        } else if a_pos {
            magnitude_lt(a.mantissa, a.exponent, b.mantissa, b.exponent)
        } else {
            magnitude_lt(b.mantissa, b.exponent, a.mantissa, a.exponent)
        }
    }
}

/// The decimal digits of `n`, most significant first, without leading zeros.
pub open spec fn digits_of(n: nat) -> Seq<char>
    decreases n,
{
    if n < 10 {
        seq![digit_char(n)]
    } else {
        digits_of(n / 10).push(digit_char(n % 10))
    }
}

pub open spec fn digit_char(d: nat) -> char {
    ((d + '0' as nat) as u32) as char
}

fn digit_exec(d: u64) -> (r: char)
    requires
        d < 10,
    ensures
        r == digit_char(d as nat),
{
    if d == 0 {
        '0'
    } else if d == 1 {
        '1'
    } else if d == 2 {
        '2'
    } else if d == 3 {
        '3'
    } else if d == 4 {
        '4'
    } else if d == 5 {
        '5'
    } else if d == 6 {
        '6'
    } else if d == 7 {
        '7'
    } else if d == 8 {
        '8'
    } else {
        '9'
    }
}

fn render_u64(n: u64) -> (r: Vec<char>)
    ensures
        r@ == digits_of(n as nat),
    decreases n,
{
    if n < 10 {
        vec![digit_exec(n)]
    } else {
        let mut v = render_u64(n / 10);
        v.push(digit_exec(n % 10));
        v
    }
}

/// The decimal digits of `n`.
pub fn digits_text(n: u64) -> (r: String)
    ensures
        r@ == digits_of(n as nat),
{
    let v = render_u64(n);
    string_of(v.as_slice())
}

/// `n` zeros.
pub open spec fn zeros(n: nat) -> Seq<char> {
    Seq::new(n, |i: int| '0')
}

/// The text without its trailing zeros.
pub open spec fn strip_zeros(f: Seq<char>) -> Seq<char>
    decreases f.len(),
{
    if f.len() > 0 && f.last() == '0' {
        strip_zeros(f.drop_last())
    } else {
        f
    }
}

/// The integer and fraction digits of `m × 10^e` in plain decimal notation, the fraction
/// without trailing zeros.
pub open spec fn plain_parts(m: nat, e: int) -> (Seq<char>, Seq<char>) {
    let d = digits_of(m);
    if m == 0 {
        (seq!['0'], Seq::<char>::empty())
    } else if e >= 0 {
        (d + zeros(e as nat), Seq::<char>::empty())
    } else if d.len() > -e {
        (d.take(d.len() + e), strip_zeros(d.skip(d.len() + e)))
    } else {
        (seq!['0'], strip_zeros(zeros((-e - d.len()) as nat) + d))
    }
}

/// How a decimal is written in the tables: in plain decimal notation with at least one
/// fraction digit (`0.5`, `12.0`, `-0.001`), a minus sign only when it is not zero.
pub open spec fn decimal_text_spec(d: Decimal) -> Seq<char> {
    let sign = if d.negative && d.mantissa != 0 {
        seq!['-']
    } else {
        Seq::<char>::empty()
    };
    let (int_part, frac) = plain_parts(d.mantissa as nat, d.exponent as int);
    let frac_text = if frac.len() == 0 {
        seq!['0']
    } else {
        frac
    };
    sign + int_part + seq!['.'] + frac_text
}

fn push_zeros(v: &mut Vec<char>, n: u64)
    ensures
        final(v)@ == old(v)@ + zeros(n as nat),
{
    let mut i: u64 = 0;
    while i < n
        invariant
            i <= n,
            v@ == old(v)@ + zeros(i as nat),
        decreases n - i,
    {
        v.push('0');
        assert(old(v)@ + zeros((i + 1) as nat) =~= (old(v)@ + zeros(i as nat)).push('0'));
        i = i + 1;
    }
}

fn pop_zeros(v: &mut Vec<char>)
    ensures
        final(v)@ == strip_zeros(old(v)@),
{
    while v.len() > 0 && v[v.len() - 1] == '0'
        invariant
            strip_zeros(v@) == strip_zeros(old(v)@),
        decreases v@.len(),
    {
        let ghost before = v@;
        v.pop();
        assert(v@ =~= before.drop_last());
    }
}

fn extend(v: &mut Vec<char>, w: &Vec<char>)
    ensures
        final(v)@ == old(v)@ + w@,
{
    let mut i: usize = 0;
    while i < w.len()
        invariant
            i <= w@.len(),
            v@ == old(v)@ + w@.take(i as int),
        decreases w@.len() - i,
    {
        v.push(w[i]);
        assert(old(v)@ + w@.take(i + 1) =~= (old(v)@ + w@.take(i as int)).push(w@[i as int]));
        i = i + 1;
    }
    assert(w@.take(w@.len() as int) =~= w@);
}

/// How a numeric field is written in the tables; not-a-number is written `NaN`.
pub open spec fn number_text_spec(n: Number) -> Seq<char> {
    match n {
        Number::Finite(d) => decimal_text_spec(d),
        Number::NotANumber => seq!['N', 'a', 'N'],
    }
}

pub fn number_text(n: &Number) -> (r: String)
    ensures
        r@ == number_text_spec(*n),
{
    match n {
        Number::NotANumber => string_of(&['N', 'a', 'N']),
        Number::Finite(d) => {
            let mut v: Vec<char> = Vec::new();
            if d.negative && d.mantissa != 0 {
                v.push('-');
            }
            let ghost sign = v@;
            let digits = render_u64(d.mantissa);
            let ghost dg = digits@;
            let ghost parts = plain_parts(d.mantissa as nat, d.exponent as int);
            if d.mantissa == 0 {
                v.push('0');
                v.push('.');
                v.push('0');
                assert(v@ =~= decimal_text_spec(*d));
            } else if d.exponent >= 0 {
                extend(&mut v, &digits);
                push_zeros(&mut v, d.exponent as u64);
                v.push('.');
                v.push('0');
                assert(v@ =~= decimal_text_spec(*d));
            } else {
                let k: u64 = (-(d.exponent as i128)) as u64;
                let mut frac: Vec<char> = Vec::new();
                if digits.len() as u64 > k {
                    let cut: usize = digits.len() - k as usize;
                    let mut i: usize = 0;
                    while i < cut
                        invariant
                            i <= cut <= digits@.len(),
                            v@ == sign + digits@.take(i as int),
                        decreases cut - i,
                    {
                        v.push(digits[i]);
                        assert(sign + digits@.take(i + 1) =~= (sign + digits@.take(i as int)).push(
                            digits@[i as int],
                        ));
                        i = i + 1;
                    }
                    let mut j: usize = cut;
                    while j < digits.len()
                        invariant
                            cut <= j <= digits@.len(),
                            frac@ == digits@.subrange(cut as int, j as int),
                        decreases digits@.len() - j,
                    {
                        frac.push(digits[j]);
                        assert(digits@.subrange(cut as int, j + 1) =~= digits@.subrange(
                            cut as int,
                            j as int,
                        ).push(digits@[j as int]));
                        j = j + 1;
                    }
                    assert(digits@.subrange(cut as int, digits@.len() as int) =~= digits@.skip(
                        cut as int,
                    ));
                } else {
                    v.push('0');
                    push_zeros(&mut frac, k - digits.len() as u64);
                    extend(&mut frac, &digits);
                }
                let ghost f0 = frac@;
                pop_zeros(&mut frac);
                v.push('.');
                if frac.len() == 0 {
                    v.push('0');
                } else {
                    extend(&mut v, &frac);
                }
                proof {
                    assert(parts.1 == strip_zeros(f0));
                    assert(v@ =~= decimal_text_spec(*d));
                }
            }
            string_of(v.as_slice())
        },
    }
}

} // verus!
