use vstd::prelude::*;
use crate::text::{digit_char, is_digit, push_char};
use crate::units::floor_div;

verus! {

/// The instant, in seconds since the Unix epoch, that RFC 3339 text denotes,
/// or `None` where chrono does not read it as RFC 3339.
pub uninterp spec fn rfc3339_seconds(s: Seq<char>) -> Option<int>;

/// The instant, in seconds since the Unix epoch, that RFC 2822 text (the form
/// of an HTTP `expires` header) denotes, or `None` where chrono does not read it.
pub uninterp spec fn rfc2822_seconds(s: Seq<char>) -> Option<int>;

/// Seconds since the epoch of `0000-01-01T00:00:00`, less one day: no RFC 3339
/// instant (a four-digit year, an offset under a day) lies before it.
pub const MIN_RFC3339_SECS: i64 = -62167305600;

/// Seconds since the epoch of `9999-12-31T23:59:59`, plus one day: no RFC 3339
/// instant lies after it.
pub const MAX_RFC3339_SECS: i64 = 253402387199;

/// A twelve-hour clock time as `%l:%M%P` writes it: the hour from 1 to 12
/// padded with a space, a colon, two minute digits, then `am` or `pm`.
pub open spec fn is_clock_text(s: Seq<char>) -> bool {
    &&& s.len() == 7
    &&& (s[0] == ' ' && '1' <= s[1] <= '9') || (s[0] == '1' && '0' <= s[1] <= '2')
    &&& s[2] == ':'
    &&& '0' <= s[3] <= '5'
    &&& is_digit(s[4])
    &&& s[5] == 'a' || s[5] == 'p'
    &&& s[6] == 'm'
}

/// Relies on chrono's `DateTime::parse_from_rfc3339`, read through
/// `DateTime::timestamp`: the result depends on the text alone, and the parser
/// takes only four-digit years and offsets under a day, so the instant lies
/// between `MIN_RFC3339_SECS` and `MAX_RFC3339_SECS`.
#[verifier::external_body]
fn parse_rfc3339(s: &str) -> (r: Option<i64>)
    ensures
        match r {
            Some(v) => rfc3339_seconds(s@) == Some(v as int),
            None => rfc3339_seconds(s@) is None,
        },
        r matches Some(v) ==> MIN_RFC3339_SECS <= v <= MAX_RFC3339_SECS,
{
    chrono::DateTime::parse_from_rfc3339(s).ok().map(|t| t.timestamp())
}

/// Relies on chrono's `DateTime::parse_from_rfc2822`, read through
/// `DateTime::timestamp`: the result depends on the text alone, and empty
/// text is refused.
#[verifier::external_body]
pub(crate) fn parse_rfc2822(s: &str) -> (r: Option<i64>)
    ensures
        match r {
            Some(v) => rfc2822_seconds(s@) == Some(v as int),
            None => rfc2822_seconds(s@) is None,
        },
        s@.len() == 0 ==> r is None,
{
    chrono::DateTime::parse_from_rfc2822(s).ok().map(|t| t.timestamp())
}

/// Relies on chrono's `DateTime::from_timestamp` (which accepts every instant
/// in this range), `with_timezone(&Local)` and `offset().local_minus_utc()`:
/// the machine's offset from UTC at that instant, in seconds. Which offset it is
/// depends on the machine; a `FixedOffset` is always under a day either way.
#[verifier::external_body]
fn local_offset_secs(secs: i64) -> (o: i32)
    requires
        MIN_RFC3339_SECS <= secs <= MAX_RFC3339_SECS,
    ensures
        -86400 < o < 86400,
{
    match chrono::DateTime::from_timestamp(secs, 0) {
        Some(t) => t.with_timezone(&chrono::Local).offset().local_minus_utc(),
        None => 0,
    }
}

/// The twelve-hour clock time (`%l:%M%P`) of a local instant, given in
/// seconds since the local epoch.
pub open spec fn clock_text_spec(local: int) -> Seq<char> {
    let sod = local % 86400;
    let h = sod / 3600;
    let m = (sod % 3600) / 60;
    let h12 = if h % 12 == 0 {
        12
    } else {
        h % 12
    };
    let hour = if h12 < 10 {
        seq![' ', digit_char(h12)]
    } else {
        seq!['1', digit_char(h12 - 10)]
    };
    let half = if h < 12 {
        seq!['a', 'm']
    } else {
        seq!['p', 'm']
    };
    hour + seq![':', digit_char(m / 10), digit_char(m % 10)] + half
}

fn push_digit(s: &mut String, d: u64)
    requires
        d < 10,
    ensures
        final(s)@ == old(s)@.push(digit_char(d as int)),
        is_digit(digit_char(d as int)),
{
    push_char(s, ((d as u8) + 48) as char);
}

/// Writes the clock time of a local instant, such as ` 9:05am`.
pub fn clock_text(local: i64) -> (r: String)
    ensures
        r@ == clock_text_spec(local as int),
        is_clock_text(r@),
{
    let days = floor_div(local as i128, 86400);
    proof {
        vstd::arithmetic::div_mod::lemma_fundamental_div_mod(local as int, 86400);
        vstd::arithmetic::div_mod::lemma_mod_bound(local as int, 86400);
        assert(-200000000000000 <= days <= 200000000000000) by (nonlinear_arith)
            requires
                local as int == 86400 * days + (local as int) % 86400,
                0 <= (local as int) % 86400 < 86400,
                i64::MIN <= local <= i64::MAX,
        ;
    }
    let sod = ((local as i128) - days * 86400) as u64;
    let h = sod / 3600;
    let m = (sod % 3600) / 60;
    let h12 = if h % 12 == 0 {
        12
    } else {
        h % 12
    };
    let mut r = String::new();
    if h12 < 10 {
        push_char(&mut r, ' ');
        push_digit(&mut r, h12);
    } else {
        push_char(&mut r, '1');
        push_digit(&mut r, h12 - 10);
    }
    push_char(&mut r, ':');
    push_digit(&mut r, m / 10);
    push_digit(&mut r, m % 10);
    if h < 12 {
        push_char(&mut r, 'a');
    } else {
        push_char(&mut r, 'p');
    }
    push_char(&mut r, 'm');
    assert(r@ =~= clock_text_spec(local as int));
    r
}

/// Whether `t` is the clock time of instant `s` (seconds since the Unix epoch)
/// in some time zone, that is under some offset from UTC of less than a day.
pub open spec fn is_local_time_of(s: int, t: Seq<char>) -> bool {
    exists|o: int| -86400 < o < 86400 && t == #[trigger] clock_text_spec(s + o)
}

/// The local clock time of an RFC 3339 timestamp, such as ` 9:05am`: the
/// instant read from the text, shifted by the machine's offset from UTC (under
/// a day). Empty text when the timestamp cannot be read.
pub fn format_time(timestamp: &str) -> (r: String)
    ensures
        rfc3339_seconds(timestamp@) is None <==> r@ == Seq::<char>::empty(),
        rfc3339_seconds(timestamp@) matches Some(s) ==> is_local_time_of(s, r@),
        rfc3339_seconds(timestamp@) is Some ==> is_clock_text(r@),
{
    match parse_rfc3339(timestamp) {
        Some(secs) => {
            let o = local_offset_secs(secs);
            let text = clock_text(secs + o as i64);
            let ghost w = o as int;
            assert(-86400 < w < 86400 && text@ == clock_text_spec(secs as int + w));
            assert(is_local_time_of(secs as int, text@));
            text
        },
        None => String::new(),
    }
}

} // verus!
