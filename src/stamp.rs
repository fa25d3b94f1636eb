use vstd::prelude::*;
use crate::text::{push_char, digit_char, is_digit};

verus! {

/// Width of an entry name: enough digits for every `u64`.
pub const NAME_DIGITS: usize = 20;

/// `n` written in exactly `w` decimal digits, with leading zeros (the low `w`
/// digits when `n` does not fit).
pub open spec fn fixed_digits(n: nat, w: nat) -> Seq<char>
    decreases w,
{
    if w == 0 {
        Seq::empty()
    } else {
        fixed_digits(n / 10, (w - 1) as nat).push(digit_char((n % 10) as int))
    }
}

/// The value of a sequence of decimal digits.
pub open spec fn digits_value(s: Seq<char>) -> nat
    decreases s.len(),
{
    if s.len() == 0 {
        0
    } else {
        digits_value(s.drop_last()) * 10 + ((s.last() as int - 48) as nat)
    }
}

/// Whether every character of `s` is a decimal digit.
pub open spec fn all_digits(s: Seq<char>) -> bool {
    forall|i: int| 0 <= i < s.len() ==> is_digit(#[trigger] s[i])
}

/// The file name of a cache entry that expires at `expiration` (seconds since
/// the Unix epoch): twenty digits, so that names sort as their instants do.
pub open spec fn entry_name_spec(expiration: u64) -> Seq<char> {
    fixed_digits(expiration as nat, NAME_DIGITS as nat)
}

/// The expiration that a file name stands for, if it is an entry name.
pub open spec fn parse_entry_name_spec(s: Seq<char>) -> Option<u64> {
    if s.len() == NAME_DIGITS && all_digits(s) && digits_value(s) <= u64::MAX {
        Some(digits_value(s) as u64)
    } else {
        None
    }
}

pub open spec fn pow10(w: nat) -> nat
    decreases w,
{
    if w == 0 {
        1
    } else {
        10 * pow10((w - 1) as nat)
    }
}

proof fn lemma_fixed_digits(n: nat, w: nat)
    requires
        n < pow10(w),
    ensures
        fixed_digits(n, w).len() == w,
        all_digits(fixed_digits(n, w)),
        digits_value(fixed_digits(n, w)) == n,
    decreases w,
{
    if w > 0 {
        let q = n / 10;
        let d = n % 10;
        assert(n == q * 10 + d) by (nonlinear_arith)
            requires
                q == n / 10,
                d == n % 10,
        ;
        assert(q < pow10((w - 1) as nat)) by (nonlinear_arith)
            requires
                n < 10 * pow10((w - 1) as nat),
                n == q * 10 + d,
                0 <= d < 10,
        ;
        lemma_fixed_digits(q, (w - 1) as nat);
        let s = fixed_digits(n, w);
        assert(s.drop_last() =~= fixed_digits(q, (w - 1) as nat));
    }
}

proof fn lemma_digits_fixed(s: Seq<char>)
    requires
        all_digits(s),
    ensures
        fixed_digits(digits_value(s), s.len()) == s,
    decreases s.len(),
{
    if s.len() > 0 {
        let p = s.drop_last();
        assert(all_digits(p)) by {
            assert forall|i: int| 0 <= i < p.len() implies is_digit(#[trigger] p[i]) by {
                assert(p[i] == s[i]);
            }
        }
        lemma_digits_fixed(p);
        let v = digits_value(p);
        assert(is_digit(s[s.len() - 1]));
        let d = (s.last() as int - 48) as nat;
        let n = v * 10 + d;
        assert(n / 10 == v && n % 10 == d) by (nonlinear_arith)
            requires
                n == v * 10 + d,
                d < 10,
        ;
        assert(digit_char(d as int) == s.last());
        assert(p.push(s.last()) =~= s);
    }
}

proof fn lemma_pow10_20()
    ensures
        pow10(20) == 100000000000000000000nat,
{
    reveal_with_fuel(pow10, 21);
}

/// An entry name reads back as the expiration it was made from.
pub proof fn lemma_entry_name_round_trip(e: u64)
    ensures
        parse_entry_name_spec(entry_name_spec(e)) == Some(e),
{
    lemma_pow10_20();
    lemma_fixed_digits(e as nat, 20);
}

/// A file name that reads as an expiration is the entry name of it.
pub proof fn lemma_entry_name_unique(s: Seq<char>)
    requires
        parse_entry_name_spec(s) is Some,
    ensures
        s == entry_name_spec(parse_entry_name_spec(s)->0),
{
    lemma_digits_fixed(s);
}

fn push_fixed(s: &mut String, n: u64, w: usize)
    ensures
        final(s)@ == old(s)@ + fixed_digits(n as nat, w as nat),
    decreases w,
{
    if w > 0 {
        push_fixed(s, n / 10, w - 1);
        push_char(s, (((n % 10) as u8) + 48) as char);
        assert(s@ =~= old(s)@ + fixed_digits(n as nat, w as nat));
    } else {
        assert(s@ =~= old(s)@ + fixed_digits(n as nat, w as nat));
    }
}

/// The file name of a cache entry that expires at `expiration`.
pub fn entry_name(expiration: u64) -> (r: String)
    ensures
        r@ == entry_name_spec(expiration),
{
    let mut r = String::new();
    push_fixed(&mut r, expiration, NAME_DIGITS);
    assert(r@ =~= entry_name_spec(expiration));
    r
}

/// Reads the expiration out of a cache entry's file name.
pub fn parse_entry_name(name: &str) -> (r: Option<u64>)
    ensures
        r == parse_entry_name_spec(name@),
{
    let n = name.unicode_len();
    if n != NAME_DIGITS {
        return None;
    }
    let mut acc: u128 = 0;
    let mut i: usize = 0;
    proof {
        lemma_pow10_20();
        assert(name@.take(0) =~= Seq::<char>::empty());
    }
    while i < n
        invariant
            n == name@.len() == NAME_DIGITS,
            i <= n,
            all_digits(name@.take(i as int)),
            acc == digits_value(name@.take(i as int)),
            acc < pow10(i as nat),
            pow10(20) == 100000000000000000000nat,
        decreases n - i,
    {
        let c = name.get_char(i);
        if !('0' <= c && c <= '9') {
            assert(!all_digits(name@));
            return None;
        }
        let d = (c as u32 - 48) as u128;
        proof {
            let t = name@.take(i + 1);
            assert(t.drop_last() =~= name@.take(i as int));
            assert(all_digits(t)) by {
                assert forall|j: int| 0 <= j < t.len() implies is_digit(#[trigger] t[j]) by {
                    if j < i {
                        assert(t[j] == name@.take(i as int)[j]);
                    }
                }
            }
            assert(acc * 10 + d < 10 * pow10(i as nat)) by (nonlinear_arith)
                requires
                    acc < pow10(i as nat),
                    d < 10,
            ;
            assert(pow10((i + 1) as nat) == 10 * pow10(i as nat));
            assert(pow10(i as nat) <= pow10(20)) by {
                lemma_pow10_mono(i as nat, 20);
            }
        }
        acc = acc * 10 + d;
        i = i + 1;
    }
    assert(name@.take(n as int) =~= name@);
    if acc <= u64::MAX as u128 {
        Some(acc as u64)
    } else {
        None
    }
}

proof fn lemma_pow10_mono(a: nat, b: nat)
    requires
        a <= b,
    ensures
        pow10(a) <= pow10(b),
    decreases b - a,
{
    if a < b {
        lemma_pow10_mono(a, (b - 1) as nat);
    }
}

} // verus!
