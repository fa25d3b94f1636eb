use vstd::prelude::*;
use crate::stamp::{all_digits, digits_value, pow10};
use crate::text::is_digit;

verus! {

/// Most digits accepted before the decimal point of a temperature.
pub const MAX_INT_DIGITS: usize = 12;

/// `s` is digits, a point at `i`, and digits: one to `MAX_INT_DIGITS` before
/// the point and at least one after it.
pub open spec fn is_point_split(s: Seq<char>, i: int) -> bool {
    &&& 1 <= i <= MAX_INT_DIGITS
    &&& i + 1 < s.len()
    &&& s[i] == '.'
    &&& all_digits(s.take(i))
    &&& all_digits(s.skip(i + 1))
}

/// How many fraction digits count: at most three (thousandths).
pub open spec fn frac_kept(f: Seq<char>) -> nat {
    if f.len() < 3 {
        f.len()
    } else {
        3
    }
}

/// What `k` leading fraction digits are worth in thousandths.
pub open spec fn scale(k: nat) -> int {
    if k == 0 {
        1000
    } else if k == 1 {
        100
    } else if k == 2 {
        10
    } else {
        1
    }
}

/// The value, in thousandths, of unsigned decimal text: one to
/// `MAX_INT_DIGITS` digits, optionally followed by a point and at least one
/// digit; fraction digits past the third are dropped.
pub open spec fn unsigned_milli(s: Seq<char>) -> Option<int> {
    if 1 <= s.len() <= MAX_INT_DIGITS && all_digits(s) {
        Some(digits_value(s) as int * 1000)
    } else if exists|i: int| is_point_split(s, i) {
        let i = choose|i: int| is_point_split(s, i);
        let f = s.skip(i + 1);
        let k = frac_kept(f);
        Some(digits_value(s.take(i)) as int * 1000 + digits_value(f.take(k as int)) as int * scale(k))
    } else {
        None
    }
}

/// The value, in thousandths, of decimal text with an optional leading `-`.
pub open spec fn decimal_milli(s: Seq<char>) -> Option<int> {
    if s.len() > 0 && s[0] == '-' {
        match unsigned_milli(s.skip(1)) {
            Some(v) => Some(-v),
            None => None,
        }
    } else {
        unsigned_milli(s)
    }
}

proof fn lemma_point_split_unique(s: Seq<char>, i: int, j: int)
    requires
        is_point_split(s, i),
        is_point_split(s, j),
    ensures
        i == j,
{
    if i < j {
        assert(s.take(j)[i] == '.');
    } else if j < i {
        assert(s.take(i)[j] == '.');
    }
}

/// Whether `s[from..to]` is all digits.
fn digits_between(s: &str, from: usize, to: usize) -> (r: bool)
    requires
        from <= to <= s@.len(),
    ensures
        r == all_digits(s@.subrange(from as int, to as int)),
{
    let mut k: usize = from;
    while k < to
        invariant
            from <= k <= to <= s@.len(),
            all_digits(s@.subrange(from as int, k as int)),
        decreases to - k,
    {
        let c = s.get_char(k);
        if !('0' <= c && c <= '9') {
            assert(s@.subrange(from as int, to as int)[k - from] == c);
            return false;
        }
        proof {
            let t = s@.subrange(from as int, k + 1);
            assert forall|j: int| 0 <= j < t.len() implies is_digit(#[trigger] t[j]) by {
                if j < k - from {
                    assert(t[j] == s@.subrange(from as int, k as int)[j]);
                }
            }
        }
        k = k + 1;
    }
    true
}

/// The value of the digits `s[from..to]`, if they are all digits; at most
/// fifteen of them.
fn digits_value_between(s: &str, from: usize, to: usize) -> (r: Option<u64>)
    requires
        from <= to <= s@.len(),
        to - from <= 15,
    ensures
        match r {
            Some(v) => all_digits(s@.subrange(from as int, to as int)) && v == digits_value(
                s@.subrange(from as int, to as int),
            ) && v < pow10((to - from) as nat),
            None => !all_digits(s@.subrange(from as int, to as int)),
        },
{
    let mut acc: u64 = 0;
    let mut k: usize = from;
    proof {
        lemma_pow10_15();
        lemma_pow10_mono((to - from) as nat, 15);
    }
    while k < to
        invariant
            from <= k <= to <= s@.len(),
            to - from <= 15,
            pow10(15) == 1000000000000000nat,
            pow10((to - from) as nat) <= pow10(15),
            all_digits(s@.subrange(from as int, k as int)),
            acc == digits_value(s@.subrange(from as int, k as int)),
            acc < pow10((k - from) as nat),
        decreases to - k,
    {
        let c = s.get_char(k);
        if !('0' <= c && c <= '9') {
            assert(s@.subrange(from as int, to as int)[k - from] == c);
            return None;
        }
        let d = (c as u32 - 48) as u64;
        proof {
            let t = s@.subrange(from as int, k + 1);
            assert(t.drop_last() =~= s@.subrange(from as int, k as int));
            assert forall|j: int| 0 <= j < t.len() implies is_digit(#[trigger] t[j]) by {
                if j < k - from {
                    assert(t[j] == s@.subrange(from as int, k as int)[j]);
                }
            }
            lemma_pow10_mono((k + 1 - from) as nat, (to - from) as nat);
            assert(acc * 10 + d < 10 * pow10((k - from) as nat)) by (nonlinear_arith)
                requires
                    acc < pow10((k - from) as nat),
                    d < 10,
            ;
            assert(pow10((k + 1 - from) as nat) == 10 * pow10((k - from) as nat));
        }
        acc = acc * 10 + d;
        k = k + 1;
    }
    Some(acc)
}

proof fn lemma_pow10_15()
    ensures
        pow10(15) == 1000000000000000nat,
{
    reveal_with_fuel(pow10, 16);
}

proof fn lemma_pow10_mono(a: nat, b: nat)
    requires
        a <= b,
    ensures
        1 <= pow10(a) <= pow10(b),
    decreases b,
{
    if b > 0 && a < b {
        lemma_pow10_mono(a, (b - 1) as nat);
    }
    if a == b && a > 0 {
        lemma_pow10_mono(0, (a - 1) as nat);
    }
}

/// Reads the digits after a point at `d`: their count kept and the value of
/// the kept ones, when there is at least one and all are digits.
fn read_fraction(s: &str, d: usize) -> (r: Option<(u64, usize)>)
    requires
        d < s@.len(),
    ensures
        match r {
            Some((fv, keep)) => {
                let f = s@.skip(d + 1);
                &&& f.len() >= 1 && all_digits(f)
                &&& keep == frac_kept(f)
                &&& fv == digits_value(f.take(keep as int))
                &&& 0 <= fv * scale(keep as nat) <= 999
            },
            None => s@.skip(d + 1).len() == 0 || !all_digits(s@.skip(d + 1)),
        },
{
    let n = s.unicode_len();
    let ghost f = s@.skip(d + 1);
    if d + 1 == n {
        return None;
    }
    let flen = n - d - 1;
    let keep: usize = if flen < 3 {
        flen
    } else {
        3
    };
    proof {
        assert(f =~= s@.subrange(d + 1, n as int));
        assert(f.take(keep as int) =~= s@.subrange(d + 1, d + 1 + keep));
    }
    let fv = match digits_value_between(s, d + 1, d + 1 + keep) {
        Some(x) => x,
        None => {
            proof {
                let j = choose|j: int|
                    0 <= j < keep && !is_digit(#[trigger] s@.subrange(d + 1, d + 1 + keep)[j]);
                assert(f[j] == s@.subrange(d + 1, d + 1 + keep)[j]);
            }
            return None;
        },
    };
    let rest = digits_between(s, d + 1 + keep, n);
    proof {
        if rest {
            assert forall|j: int| 0 <= j < f.len() implies is_digit(#[trigger] f[j]) by {
                if j < keep {
                    assert(f[j] == s@.subrange(d + 1, d + 1 + keep)[j]);
                } else {
                    assert(f[j] == s@.subrange(d + 1 + keep, n as int)[j - keep]);
                }
            }
        } else {
            let j = choose|j: int|
                0 <= j < n - (d + 1 + keep) && !is_digit(#[trigger] s@.subrange(d + 1 + keep, n as int)[j]);
            assert(f[j + keep] == s@.subrange(d + 1 + keep, n as int)[j]);
        }
    }
    if !rest {
        return None;
    }
    proof {
        reveal_with_fuel(pow10, 4);
        assert(0 <= fv * scale(keep as nat) <= 999) by (nonlinear_arith)
            requires
                1 <= keep <= 3,
                keep == 1 ==> fv < 10,
                keep == 2 ==> fv < 100,
                keep == 3 ==> fv < 1000,
                scale(keep as nat) == (if keep == 1 { 100int } else if keep == 2 { 10int } else { 1int }),
        ;
    }
    Some((fv, keep))
}

/// Reads unsigned decimal text from position `start` on, in thousandths.
fn read_unsigned(s: &str, start: usize) -> (r: Option<i64>)
    requires
        start <= s@.len(),
    ensures
        match r {
            Some(v) => unsigned_milli(s@.skip(start as int)) == Some(v as int) && 0 <= v
                <= 1000000000000999,
            None => unsigned_milli(s@.skip(start as int)) is None,
        },
{
    let n = s.unicode_len();
    let ghost body = s@.skip(start as int);
    let mut d: usize = start;
    while d < n && s.get_char(d) != '.'
        invariant
            start <= d <= n == s@.len(),
            forall|k: int| start <= k < d ==> s@[k] != '.',
        decreases n - d,
    {
        d = d + 1;
    }
    let ilen = d - start;
    proof {
        assert forall|k: int| 0 <= k < ilen implies body[k] != '.' by {
            assert(body[k] == s@[start + k]);
        }
        if d < n {
            assert(body[ilen as int] == '.');
            assert(!is_digit(body[ilen as int]));
        }
        assert(s@.subrange(start as int, d as int) =~= body.take(ilen as int));
        assert(d == n ==> body =~= body.take(ilen as int));
        assert forall|i: int| #[trigger] is_point_split(body, i) implies i == ilen by {
            if i > ilen {
                assert(body.take(i)[ilen as int] == '.');
            }
        }
    }
    if ilen == 0 || ilen > MAX_INT_DIGITS {
        return None;
    }
    let iv = match digits_value_between(s, start, d) {
        Some(v) => v,
        None => {
            return None;
        },
    };
    proof {
        reveal_with_fuel(pow10, 13);
        lemma_pow10_mono(ilen as nat, 12);
    }
    let v: i64 = (iv as i64) * 1000;
    if d == n {
        return Some(v);
    }
    proof {
        assert(body.skip(ilen + 1) =~= s@.skip(d + 1));
    }
    match read_fraction(s, d) {
        None => None,
        Some((fv, keep)) => {
            proof {
                assert(is_point_split(body, ilen as int));
                let c = choose|i: int| is_point_split(body, i);
                assert(c == ilen);
            }
            Some(v + (fv as i64) * (if keep == 1 {
                100
            } else if keep == 2 {
                10
            } else {
                1
            }))
        },
    }
}

/// Reads decimal text (`-3.25`, `12`) as thousandths; `None` for anything else.
pub fn parse_milli(s: &str) -> (r: Option<i64>)
    ensures
        match r {
            Some(v) => decimal_milli(s@) == Some(v as int) && -MAX_MILLI <= v <= MAX_MILLI,
            None => decimal_milli(s@) is None,
        },
{
    let n = s.unicode_len();
    if n > 0 && s.get_char(0) == '-' {
        match read_unsigned(s, 1) {
            Some(v) => Some(-v),
            None => None,
        }
    } else {
        proof {
            assert(s@.skip(0) =~= s@);
        }
        read_unsigned(s, 0)
    }
}

/// `a / b` rounded to the nearest integer, halves upward.
pub open spec fn round_div(a: int, b: int) -> int {
    (2 * a + b) / (2 * b)
}

/// Celsius to Fahrenheit, in thousandths of a degree.
pub open spec fn c_to_f_spec(c: int) -> int {
    round_div(c * 9, 5) + 32000
}

/// Fahrenheit to Celsius, in thousandths of a degree.
pub open spec fn f_to_c_spec(f: int) -> int {
    round_div((f - 32000) * 5, 9)
}

/// Bound on temperatures handled, in thousandths of a degree.
pub const MAX_MILLI: i64 = 1000000000000000000;

pub(crate) fn floor_div(a: i128, b: i128) -> (r: i128)
    requires
        b > 0,
        -0x7fff_ffff_ffff_ffff_ffff_ffff_ffff < a < 0x7fff_ffff_ffff_ffff_ffff_ffff_ffff,
        b < 0x7fff_ffff_ffff_ffff,
    ensures
        r == a / b,
{
    if a >= 0 {
        let r = ((a as u128) / (b as u128)) as i128;
        r
    } else {
        let q = (((-a) as u128 + (b as u128) - 1) / (b as u128)) as i128;
        proof {
            let na: int = -(a as int);
            let bi: int = b as int;
            let qi: int = q as int;
            assert(-qi == (a as int) / bi) by (nonlinear_arith)
                requires
                    na == -(a as int),
                    na > 0,
                    bi > 0,
                    qi == (na + bi - 1) / bi,
            ;
        }
        -q
    }
}

/// Converts thousandths of a degree Celsius to Fahrenheit.
pub fn c_to_f(c: i64) -> (r: i64)
    requires
        -MAX_MILLI <= c <= MAX_MILLI,
    ensures
        r == c_to_f_spec(c as int),
{
    let q = floor_div(2 * (c as i128) * 9 + 5, 10);
    assert(-2 * MAX_MILLI <= q <= 2 * MAX_MILLI) by (nonlinear_arith)
        requires
            q == (2 * (c as int) * 9 + 5) / 10,
            -MAX_MILLI <= c <= MAX_MILLI,
    ;
    (q + 32000) as i64
}

/// Converts thousandths of a degree Fahrenheit to Celsius.
pub fn f_to_c(f: i64) -> (r: i64)
    requires
        -MAX_MILLI <= f <= MAX_MILLI,
    ensures
        r == f_to_c_spec(f as int),
{
    let q = floor_div(2 * ((f as i128) - 32000) * 5 + 9, 18);
    assert(-MAX_MILLI <= q <= MAX_MILLI) by (nonlinear_arith)
        requires
            q == (2 * ((f as int) - 32000) * 5 + 9) / 18,
            -MAX_MILLI <= f <= MAX_MILLI,
    ;
    q as i64
}

/// Converting a Fahrenheit temperature to Celsius and back lands within half a
/// degree (500 thousandths) of where it started.
pub proof fn lemma_fahrenheit_round_trip(f: int)
    ensures
        -500 <= c_to_f_spec(f_to_c_spec(f)) - f <= 500,
{
    let c = f_to_c_spec(f);
    let g = c_to_f_spec(c);
    let a = (f - 32000) * 5;
    assert(-9 <= 2 * a - 18 * c < 9) by (nonlinear_arith)
        requires
            c == (2 * a + 9) / 18,
    ;
    let q = round_div(c * 9, 5);
    assert(-5 <= 2 * c * 9 - 10 * q < 5) by (nonlinear_arith)
        requires
            q == (2 * (c * 9) + 5) / 10,
    ;
    assert(-500 <= g - f <= 500) by (nonlinear_arith)
        requires
            g == q + 32000,
            a == (f - 32000) * 5,
            -9 <= 2 * a - 18 * c < 9,
            -5 <= 18 * c - 10 * q < 5,
    ;
}

/// `a / b` rounded to the nearest integer, halves to the even neighbour.
pub open spec fn round_even_div(a: int, b: int) -> int {
    let q = a / b;
    let r = a % b;
    if 2 * r < b {
        q
    } else if 2 * r > b {
        q + 1
    } else if q % 2 == 0 {
        q
    } else {
        q + 1
    }
}

fn round_half_even(a: i128, b: i128) -> (r: i128)
    requires
        0 < b < 0x7fff_ffff,
        -0x7fff_ffff_ffff_ffff_ffff < a < 0x7fff_ffff_ffff_ffff_ffff,
    ensures
        r == round_even_div(a as int, b as int),
{
    let q = floor_div(a, b);
    proof {
        vstd::arithmetic::div_mod::lemma_fundamental_div_mod(a as int, b as int);
        vstd::arithmetic::div_mod::lemma_mod_bound(a as int, b as int);
        let qb = (q as int) * (b as int);
        assert((a as int) == qb + (a as int) % (b as int));
        assert(-0xffff_ffff_ffff_ffff_ffff <= qb <= 0xffff_ffff_ffff_ffff_ffff);
        assert(-0xffff_ffff_ffff_ffff_ffff <= q <= 0xffff_ffff_ffff_ffff_ffff) by (nonlinear_arith)
            requires
                qb == (q as int) * (b as int),
                b >= 1,
                -0xffff_ffff_ffff_ffff_ffff <= qb <= 0xffff_ffff_ffff_ffff_ffff,
        ;
    }
    let rem = a - q * b;
    assert(rem == (a as int) % (b as int)) by (nonlinear_arith)
        requires
            a == b * q + (a as int) % (b as int),
            rem == a - q * b,
    ;
    if 2 * rem < b {
        q
    } else if 2 * rem > b {
        q + 1
    } else {
        let half = floor_div(q, 2);
        proof {
            vstd::arithmetic::div_mod::lemma_fundamental_div_mod(q as int, 2);
        }
        if half * 2 == q {
            q
        } else {
            q + 1
        }
    }
}

/// Celsius in thousandths to whole degrees Fahrenheit, rounded once, halves
/// to even.
pub open spec fn c_to_f_whole_spec(c: int) -> int {
    round_even_div(9 * c + 160000, 5000)
}

/// Fahrenheit in thousandths to whole degrees Celsius, rounded once, halves
/// to even.
pub open spec fn f_to_c_whole_spec(f: int) -> int {
    round_even_div(5 * (f - 32000), 9000)
}

/// Converts thousandths of a degree Celsius to whole degrees Fahrenheit.
pub fn c_to_f_whole(c: i64) -> (r: i64)
    requires
        -MAX_MILLI <= c <= MAX_MILLI,
    ensures
        r == c_to_f_whole_spec(c as int),
{
    let q = round_half_even(9 * (c as i128) + 160000, 5000);
    proof {
        let a = 9 * (c as int) + 160000;
        vstd::arithmetic::div_mod::lemma_fundamental_div_mod(a, 5000);
        vstd::arithmetic::div_mod::lemma_mod_bound(a, 5000);
        assert(-MAX_MILLI <= a / 5000 <= MAX_MILLI) by (nonlinear_arith)
            requires
                a == 5000 * (a / 5000) + a % 5000,
                0 <= a % 5000 < 5000,
                a == 9 * (c as int) + 160000,
                -MAX_MILLI <= c <= MAX_MILLI,
        ;
    }
    q as i64
}

/// Converts thousandths of a degree Fahrenheit to whole degrees Celsius.
pub fn f_to_c_whole(f: i64) -> (r: i64)
    requires
        -MAX_MILLI <= f <= MAX_MILLI,
    ensures
        r == f_to_c_whole_spec(f as int),
{
    let q = round_half_even(5 * ((f as i128) - 32000), 9000);
    proof {
        let a = 5 * ((f as int) - 32000);
        vstd::arithmetic::div_mod::lemma_fundamental_div_mod(a, 9000);
        vstd::arithmetic::div_mod::lemma_mod_bound(a, 9000);
        assert(-MAX_MILLI <= a / 9000 <= MAX_MILLI) by (nonlinear_arith)
            requires
                a == 9000 * (a / 9000) + a % 9000,
                0 <= a % 9000 < 9000,
                a == 5 * ((f as int) - 32000),
                -MAX_MILLI <= f <= MAX_MILLI,
        ;
    }
    q as i64
}

/// Text holding a character that is neither a digit, a point nor a leading
/// minus is no decimal number.
pub proof fn lemma_stray_char_refused(t: Seq<char>, c: int)
    requires
        0 <= c < t.len(),
        !is_digit(t[c]),
        t[c] != '.',
        t[c] != '-',
    ensures
        decimal_milli(t) is None,
{
    let neg = t.len() > 0 && t[0] == '-';
    let u = if neg {
        t.skip(1)
    } else {
        t
    };
    let p = if neg {
        c - 1
    } else {
        c
    };
    assert(u[p] == t[c]);
    assert(!all_digits(u));
    assert forall|i: int| !is_point_split(u, i) by {
        if is_point_split(u, i) {
            if p < i {
                assert(u.take(i)[p] == u[p]);
            } else if p > i {
                assert(u.skip(i + 1)[p - i - 1] == u[p]);
            }
        }
    }
}

} // verus!
