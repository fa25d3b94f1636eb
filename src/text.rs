use vstd::prelude::*;

verus! {

/// Relies on `String::push`: appends one character to the end of the string.
#[verifier::external_body]
pub(crate) fn push_char(s: &mut String, c: char)
    ensures
        final(s)@ == old(s)@.push(c),
{
    s.push(c);
}

/// `n` copies of the space character.
pub open spec fn spaces(n: nat) -> Seq<char> {
    Seq::new(n, |i: int| ' ')
}

/// `s` centred in a field of `width` characters: the padding is split with the
/// extra space on the right; text at least as wide as the field is kept as it is.
pub open spec fn centered(s: Seq<char>, width: nat) -> Seq<char> {
    if s.len() >= width {
        s
    } else {
        let pad = (width - s.len()) as nat;
        spaces(pad / 2) + s + spaces((pad - pad / 2) as nat)
    }
}

fn push_spaces(s: &mut String, n: usize)
    ensures
        final(s)@ == old(s)@ + spaces(n as nat),
{
    let mut i: usize = 0;
    while i < n
        invariant
            i <= n,
            s@ == old(s)@ + spaces(i as nat),
        decreases n - i,
    {
        push_char(s, ' ');
        i = i + 1;
        assert(s@ =~= old(s)@ + spaces(i as nat));
    }
}

/// Centres `s` in a field of `width` characters.
pub fn center(s: &str, width: usize) -> (r: String)
    ensures
        r@ == centered(s@, width as nat),
{
    let len = s.unicode_len();
    let mut r = String::new();
    if len >= width {
        r.append(s);
        assert(r@ =~= s@);
        return r;
    }
    let pad = width - len;
    push_spaces(&mut r, pad / 2);
    r.append(s);
    push_spaces(&mut r, pad - pad / 2);
    assert(r@ =~= centered(s@, width as nat));
    r
}

/// The decimal digit character of a value below ten.
pub open spec fn digit_char(d: int) -> char {
    (d + 48) as char
}

/// Whether `c` is one of the characters `0` to `9`.
pub open spec fn is_digit(c: char) -> bool {
    '0' <= c && c <= '9'
}

/// The decimal digits of `n`, with no leading zero (zero itself is `0`).
pub open spec fn decimal(n: nat) -> Seq<char>
    decreases n,
{
    if n < 10 {
        seq![digit_char(n as int)]
    } else {
        decimal(n / 10).push(digit_char((n % 10) as int))
    }
}

/// The decimal text of an integer, with a leading `-` when it is negative.
pub open spec fn int_text(v: int) -> Seq<char> {
    if v < 0 {
        seq!['-'] + decimal((-v) as nat)
    } else {
        decimal(v as nat)
    }
}

fn push_decimal(s: &mut String, n: u64)
    ensures
        final(s)@ == old(s)@ + decimal(n as nat),
    decreases n,
{
    if n < 10 {
        push_char(s, ((n as u8) + 48) as char);
        assert(s@ =~= old(s)@ + decimal(n as nat));
    } else {
        push_decimal(s, n / 10);
        push_char(s, (((n % 10) as u8) + 48) as char);
        assert(s@ =~= old(s)@ + decimal(n as nat));
    }
}

/// Writes an integer in decimal.
pub fn int_to_text(v: i64) -> (r: String)
    ensures
        r@ == int_text(v as int),
{
    let mut r = String::new();
    if v < 0 {
        push_char(&mut r, '-');
        let m: u64 = if v == i64::MIN {
            (i64::MAX as u64) + 1
        } else {
            (-v) as u64
        };
        push_decimal(&mut r, m);
        assert(r@ =~= int_text(v as int));
    } else {
        push_decimal(&mut r, v as u64);
        assert(r@ =~= int_text(v as int));
    }
    r
}

} // verus!
