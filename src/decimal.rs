//! Exact decimal numbers: parsing from text and checked arithmetic.
use crate::text::{first_index, before_first};
use vstd::prelude::*;

verus! {

/// A decimal number worth `units / 10^scale`.
#[derive(Clone, Copy, Debug, PartialEq, Eq, Structural)]
pub struct Decimal {
    pub units: i128,
    pub scale: u32,
}

/// The content of a decimal, free of machine bounds.
pub ghost struct Amount {
    pub units: int,
    pub scale: nat,
}

impl View for Decimal {
    type V = Amount;

    open spec fn view(&self) -> Amount {
        Amount { units: self.units as int, scale: self.scale as nat }
    }
}

pub open spec fn pow10(n: nat) -> int
    decreases n,
{
    if n == 0 {
        1
    } else {
        10 * pow10((n - 1) as nat)
    }
}

/// Whether `v` is a value of `i128`.
pub open spec fn fits(v: int) -> bool {
    i128::MIN <= v <= i128::MAX
}

/// Whether `a` can be held by a [`Decimal`].
pub open spec fn representable(a: Amount) -> bool {
    fits(a.units) && a.scale <= u32::MAX
}

/// The units of `a` when written with `s >= a.scale` digits after the point.
pub open spec fn units_at(a: Amount, s: nat) -> int {
    a.units * pow10((s - a.scale) as nat)
}

pub open spec fn max_scale(a: Amount, b: Amount) -> nat {
    if a.scale >= b.scale {
        a.scale
    } else {
        b.scale
    }
}

/// The exact sum of two amounts, written at the larger of their scales.
pub open spec fn sum(a: Amount, b: Amount) -> Amount {
    let s = max_scale(a, b);
    Amount { units: units_at(a, s) + units_at(b, s), scale: s }
}

/// Whether each step of computing `sum(a, b)` stays within `i128`.
pub open spec fn sum_in_range(a: Amount, b: Amount) -> bool {
    let s = max_scale(a, b);
    &&& fits(units_at(a, s))
    &&& fits(units_at(b, s))
    &&& representable(sum(a, b))
}

/// The exact product of two amounts.
pub open spec fn product(a: Amount, b: Amount) -> Amount {
    Amount { units: a.units * b.units, scale: a.scale + b.scale }
}

pub proof fn lemma_pow10_positive(n: nat)
    ensures
        pow10(n) >= 1,
    decreases n,
{
    if n > 0 {
        lemma_pow10_positive((n - 1) as nat);
    }
}

pub proof fn lemma_pow10_monotone(j: nat, k: nat)
    requires
        j <= k,
    ensures
        pow10(j) <= pow10(k),
    decreases k,
{
    if j < k {
        lemma_pow10_monotone(j, (k - 1) as nat);
        lemma_pow10_positive((k - 1) as nat);
    }
}

proof fn lemma_shift_step(v: int, j: nat)
    ensures
        v * pow10(j + 1) == (v * pow10(j)) * 10,
{
    let p = pow10(j);
    assert(pow10(j + 1) == 10 * p);
    assert(v * (10 * p) == (v * p) * 10) by (nonlinear_arith);
}

/// Once `v * 10^j` leaves `i128`, so does `v * 10^k` for every larger `k`.
proof fn lemma_out_of_range_grows(v: int, j: nat, k: nat)
    requires
        j <= k,
        !fits(v * pow10(j)),
    ensures
        !fits(v * pow10(k)),
{
    lemma_pow10_monotone(j, k);
    lemma_pow10_positive(j);
    let pj = pow10(j);
    let pk = pow10(k);
    if v > 0 {
        assert(v * pk >= v * pj) by (nonlinear_arith)
            requires
                v > 0,
                pk >= pj,
        ;
        assert(v * pj > 0) by (nonlinear_arith)
            requires
                v > 0,
                pj >= 1,
        ;
    } else if v < 0 {
        assert(v * pk <= v * pj) by (nonlinear_arith)
            requires
                v < 0,
                pk >= pj,
        ;
        assert(v * pj < 0) by (nonlinear_arith)
            requires
                v < 0,
                pj >= 1,
        ;
    } else {
        assert(v * pj == 0);
    }
}

/// `v * 10^k`, or `None` when that leaves `i128`.
fn shift_left(v: i128, k: u32) -> (r: Option<i128>)
    ensures
        match r {
            Some(x) => x == v * pow10(k as nat),
            None => !fits(v * pow10(k as nat)),
        },
{
    let mut acc: i128 = v;
    let mut j: u32 = 0;
    while j < k
        invariant
            j <= k,
            acc == v * pow10(j as nat),
        decreases k - j,
    {
        proof {
            lemma_shift_step(v as int, j as nat);
        }
        match acc.checked_mul(10) {
            Some(x) => {
                acc = x;
                j += 1;
            },
            None => {
                proof {
                    lemma_out_of_range_grows(v as int, (j + 1) as nat, k as nat);
                }
                return None;
            },
        }
    }
    Some(acc)
}

/// The exact sum of two decimals, or `None` when a step of it leaves `i128`.
pub fn checked_sum(a: Decimal, b: Decimal) -> (r: Option<Decimal>)
    ensures
        match r {
            Some(d) => sum_in_range(a@, b@) && d@ == sum(a@, b@),
            None => !sum_in_range(a@, b@),
        },
{
    let s = if a.scale >= b.scale {
        a.scale
    } else {
        b.scale
    };
    let x = match shift_left(a.units, s - a.scale) {
        Some(x) => x,
        None => return None,
    };
    let y = match shift_left(b.units, s - b.scale) {
        Some(y) => y,
        None => return None,
    };
    match x.checked_add(y) {
        Some(u) => Some(Decimal { units: u, scale: s }),
        None => None,
    }
}

/// The exact product of two decimals, or `None` when it cannot be held.
pub fn checked_product(a: Decimal, b: Decimal) -> (r: Option<Decimal>)
    ensures
        match r {
            Some(d) => representable(product(a@, b@)) && d@ == product(a@, b@),
            None => !representable(product(a@, b@)),
        },
{
    let u = match a.units.checked_mul(b.units) {
        Some(u) => u,
        None => return None,
    };
    match a.scale.checked_add(b.scale) {
        Some(s) => Some(Decimal { units: u, scale: s }),
        None => None,
    }
}

pub open spec fn is_digit(c: char) -> bool {
    '0' <= c && c <= '9'
}

pub open spec fn all_digits(s: Seq<char>) -> bool {
    forall|i: int| 0 <= i < s.len() ==> is_digit(#[trigger] s[i])
}

/// The natural number written by the decimal digits `s`.
pub open spec fn digits_value(s: Seq<char>) -> int
    decreases s.len(),
{
    if s.len() == 0 {
        0
    } else {
        digits_value(s.drop_last()) * 10 + (s.last() as int - '0' as int)
    }
}

pub open spec fn has_sign(s: Seq<char>) -> bool {
    s.len() > 0 && (s[0] == '-' || s[0] == '+')
}

/// `s` without its leading sign, if any.
pub open spec fn unsigned_part(s: Seq<char>) -> Seq<char> {
    if has_sign(s) {
        s.drop_first()
    } else {
        s
    }
}

/// The digits before the decimal point.
pub open spec fn whole_digits(s: Seq<char>) -> Seq<char> {
    before_first(unsigned_part(s), '.')
}

/// The digits after the decimal point (none when there is no point).
pub open spec fn fraction_digits(s: Seq<char>) -> Seq<char> {
    let b = unsigned_part(s);
    let k = first_index(b, '.');
    if k < b.len() {
        b.skip(k + 1 as int)
    } else {
        Seq::empty()
    }
}

/// The number written by `s` in plain decimal notation (an optional sign,
/// digits, and an optional point followed by digits, with at least one
/// digit in all), when it is such a text and can be held by a [`Decimal`].
pub open spec fn decimal_of(s: Seq<char>) -> Option<Amount> {
    let w = whole_digits(s);
    let f = fraction_digits(s);
    let magnitude = digits_value(w + f);
    if all_digits(w) && all_digits(f) && w.len() + f.len() > 0 && magnitude <= i128::MAX
        && f.len() <= u32::MAX {
        Some(
            Amount {
                units: if s.len() > 0 && s[0] == '-' {
                    -magnitude
                } else {
                    magnitude
                },
                scale: f.len(),
            },
        )
    } else {
        None
    }
}

pub proof fn lemma_digits_value_nonneg(s: Seq<char>)
    requires
        all_digits(s),
    ensures
        digits_value(s) >= 0,
    decreases s.len(),
{
    if s.len() > 0 {
        lemma_digits_value_nonneg(s.drop_last());
    }
}

/// A longer run of digits is worth at least as much as its prefix.
pub proof fn lemma_digits_value_prefix(p: Seq<char>, q: Seq<char>)
    requires
        all_digits(q),
        p.len() <= q.len(),
        p == q.take(p.len() as int),
    ensures
        digits_value(p) <= digits_value(q),
    decreases q.len(),
{
    if p.len() < q.len() {
        let r = q.drop_last();
        assert(p == r.take(p.len() as int));
        lemma_digits_value_prefix(p, r);
        lemma_digits_value_nonneg(r);
    } else {
        assert(p =~= q);
    }
}

/// Reads one more digit into `mag`, the value of the digits `ds` so far.
fn push_digit(mag: i128, c: char, Ghost(ds): Ghost<Seq<char>>) -> (r: Option<i128>)
    requires
        mag == digits_value(ds),
        mag >= 0,
        is_digit(c),
    ensures
        match r {
            Some(m) => m == digits_value(ds.push(c)) && m >= 0,
            None => digits_value(ds.push(c)) > i128::MAX,
        },
{
    assert(ds.push(c).drop_last() =~= ds);
    let d = (c as u32 - '0' as u32) as i128;
    match mag.checked_mul(10) {
        Some(m) => m.checked_add(d),
        None => None,
    }
}

/// Parses plain decimal notation exactly: see [`decimal_of`].
#[verifier::rlimit(40)]
pub fn parse_decimal(s: &str) -> (r: Option<Decimal>)
    ensures
        match r {
            Some(d) => decimal_of(s@) == Some(d@),
            None => decimal_of(s@) is None,
        },
{
    let n = s.unicode_len();
    let ghost t = s@;
    let negative = n > 0 && s.get_char(0) == '-';
    let start: usize = if n > 0 && (s.get_char(0) == '-' || s.get_char(0) == '+') {
        1
    } else {
        0
    };
    let ghost b = unsigned_part(t);
    assert(b =~= t.skip(start as int));
    // locate the point
    let mut dot: usize = start;
    while dot < n && s.get_char(dot) != '.'
        invariant
            n == t.len(),
            t == s@,
            start <= dot <= n,
            forall|j: int| start <= j < dot ==> t[j] != '.',
        decreases n - dot,
    {
        dot += 1;
    }
    proof {
        assert forall|j: int| 0 <= j < dot - start implies b[j] != '.' by {
            assert(b[j] == t[j + start]);
        }
        if dot < n {
            assert(b[dot - start] == t[dot as int]);
        }
        crate::text::lemma_first_index(b, '.', dot - start);
    }
    let ghost w = whole_digits(t);
    let ghost f = fraction_digits(t);
    assert(w =~= t.subrange(start as int, dot as int));
    assert(dot < n ==> f =~= t.subrange(dot + 1, n as int));
    assert(dot == n ==> f =~= t.subrange(n as int, n as int));
    let frac_start: usize = if dot < n {
        dot + 1
    } else {
        n
    };
    assert(f =~= t.subrange(frac_start as int, n as int));
    let mut mag: i128 = 0;
    let mut i: usize = start;
    while i < dot
        invariant
            n == t.len(),
            t == s@,
            mag >= 0,
            start <= i <= dot <= n,
            w == t.subrange(start as int, dot as int),
            w == whole_digits(t),
            f == fraction_digits(t),
            f == t.subrange(frac_start as int, n as int),
            all_digits(t.subrange(start as int, i as int)),
            mag == digits_value(t.subrange(start as int, i as int)),
        decreases dot - i,
    {
        let c = s.get_char(i);
        let ghost p = t.subrange(start as int, i as int);
        if !('0' <= c && c <= '9') {
            assert(w[i - start] == c);
            return None;
        }
        assert(p.push(c) =~= t.subrange(start as int, i + 1));
        match push_digit(mag, c, Ghost(p)) {
            Some(m) => {
                mag = m;
            },
            None => {
                proof {
                    if all_digits(w) && all_digits(f) {
                        assert(p.push(c) =~= (w + f).take(i + 1 - start));
                        lemma_digits_value_prefix(p.push(c), w + f);
                    }
                }
                return None;
            },
        }
        i += 1;
    }
    assert(w =~= w + t.subrange(frac_start as int, frac_start as int));
    let mut k: usize = frac_start;
    while k < n
        invariant
            n == t.len(),
            t == s@,
            mag >= 0,
            frac_start <= k <= n,
            f == t.subrange(frac_start as int, n as int),
            w == whole_digits(t),
            f == fraction_digits(t),
            all_digits(w),
            all_digits(t.subrange(frac_start as int, k as int)),
            mag == digits_value(w + t.subrange(frac_start as int, k as int)),
        decreases n - k,
    {
        let c = s.get_char(k);
        let ghost p = w + t.subrange(frac_start as int, k as int);
        if !('0' <= c && c <= '9') {
            assert(f[k - frac_start] == c);
            return None;
        }
        assert(p.push(c) =~= w + t.subrange(frac_start as int, k + 1));
        match push_digit(mag, c, Ghost(p)) {
            Some(m) => {
                mag = m;
            },
            None => {
                proof {
                    if all_digits(f) {
                        assert(p.push(c) =~= (w + f).take(p.len() + 1 as int));
                        assert(all_digits(w + f));
                        lemma_digits_value_prefix(p.push(c), w + f);
                    }
                }
                return None;
            },
        }
        k += 1;
    }
    assert(t.subrange(frac_start as int, n as int) =~= f);
    if dot == start && frac_start == n {
        return None;
    }
    let digits_after = n - frac_start;
    if digits_after > u32::MAX as usize {
        return None;
    }
    let units = if negative {
        -mag
    } else {
        mag
    };
    Some(Decimal { units, scale: digits_after as u32 })
}

} // verus!
