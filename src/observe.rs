use vstd::prelude::*;
use crate::clock::{format_time, is_clock_text, is_local_time_of, rfc3339_seconds};
use crate::text::{center, centered, int_text, int_to_text, push_char};
use crate::units::{
    c_to_f_whole, c_to_f_whole_spec, decimal_milli, f_to_c_whole, f_to_c_whole_spec, parse_milli,
};

verus! {

/// How many of the most recent observations are looked at.
pub const SCAN_LIMIT: usize = 10;

/// Width of the field the observation line is centred in.
pub const REPORT_WIDTH: usize = 20;

/// An observation station.
pub struct Station {
    pub id: String,
    pub name: String,
    pub url: String,
}

/// One observation of a station, newest first in a list.
pub struct Observation {
    pub timestamp: String,
    pub temperature: Option<String>,
    pub unit_code: String,
}

/// The observation that a report is made from: the first of the most recent
/// `SCAN_LIMIT` that has a temperature.
pub open spec fn selected(obs: Seq<Observation>) -> Option<int> {
    if exists|i: int| 0 <= i < obs.len() && i < SCAN_LIMIT && (#[trigger] obs[i]).temperature is Some {
        Some(
            choose|i: int|
                0 <= i < obs.len() && i < SCAN_LIMIT && (#[trigger] obs[i]).temperature is Some && forall|j: int|
                    0 <= j < i ==> (#[trigger] obs[j]).temperature is None,
        )
    } else {
        None
    }
}

/// Finds the first of the most recent observations that has a temperature.
pub fn select_observation(obs: &Vec<Observation>) -> (r: Option<usize>)
    ensures
        match r {
            Some(i) => i < obs@.len() && i < SCAN_LIMIT && obs@[i as int].temperature is Some
                && forall|j: int| 0 <= j < i ==> (#[trigger] obs@[j]).temperature is None,
            None => forall|j: int|
                0 <= j < obs@.len() && j < SCAN_LIMIT ==> (#[trigger] obs@[j]).temperature is None,
        },
        index_is(r, selected(obs@)),
{
    let mut i: usize = 0;
    while i < obs.len() && i < SCAN_LIMIT
        invariant
            i <= SCAN_LIMIT,
            i <= obs@.len(),
            forall|j: int| 0 <= j < i ==> (#[trigger] obs@[j]).temperature is None,
        decreases SCAN_LIMIT - i,
    {
        if obs[i].temperature.is_some() {
            proof {
                let k = i as int;
                assert(0 <= k < obs@.len() && k < SCAN_LIMIT && obs@[k].temperature is Some);
                let c = selected(obs@)->0;
                if c < k {
                    assert(obs@[c].temperature is None);
                } else if c > k {
                    assert(obs@[k].temperature is None);
                }
            }
            return Some(i);
        }
        i = i + 1;
    }
    None
}

/// An optional position equals an optional integer.
pub open spec fn index_is(r: Option<usize>, s: Option<int>) -> bool {
    match r {
        Some(i) => s == Some(i as int),
        None => s is None,
    }
}

/// The station listed first, which is taken as the nearest one.
pub fn nearest_station(stations: &Vec<Station>) -> (r: Option<&Station>)
    ensures
        stations@.len() == 0 ==> r is None,
        stations@.len() > 0 ==> r == Some(&stations@[0]),
{
    if stations.len() == 0 {
        None
    } else {
        Some(&stations[0])
    }
}

/// What follows the first `:deg` in a unit code (`wmoUnit:degC` gives `C`).
pub open spec fn deg_suffix(s: Seq<char>) -> Option<Seq<char>>
    decreases s.len(),
{
    if s.len() < 4 {
        None
    } else if s.take(4) == seq![':', 'd', 'e', 'g'] {
        Some(s.skip(4))
    } else {
        deg_suffix(s.skip(1))
    }
}

/// Finds the unit letter of a unit code.
pub fn unit_of(code: &str) -> (r: Option<String>)
    ensures
        match r {
            Some(u) => deg_suffix(code@) == Some(u@),
            None => deg_suffix(code@) is None,
        },
{
    let n = code.unicode_len();
    let mut i: usize = 0;
    proof {
        assert(code@.skip(0) =~= code@);
    }
    while 4 <= n && i <= n - 4
        invariant
            n == code@.len(),
            i <= n,
            deg_suffix(code@) == deg_suffix(code@.skip(i as int)),
        decreases n - i,
    {
        let ghost t = code@.skip(i as int);
        if code.get_char(i) == ':' && code.get_char(i + 1) == 'd' && code.get_char(i + 2) == 'e'
            && code.get_char(i + 3) == 'g' {
            let rest = code.substring_char(i + 4, n);
            proof {
                assert(t.take(4) =~= seq![':', 'd', 'e', 'g']);
                assert(t.skip(4) =~= rest@);
            }
            return Some(String::from_str(rest));
        }
        proof {
            assert(t.take(4) != seq![':', 'd', 'e', 'g']) by {
                if t.take(4) == seq![':', 'd', 'e', 'g'] {
                    assert(t.take(4)[0] == t[0]);
                    assert(t.take(4)[1] == t[1]);
                    assert(t.take(4)[2] == t[2]);
                    assert(t.take(4)[3] == t[3]);
                }
            }
            assert(t.skip(1) =~= code@.skip(i + 1));
        }
        i = i + 1;
    }
    None
}

pub open spec fn missing_text() -> Seq<char> {
    seq!['(', 'm', 'i', 's', 's', 'i', 'n', 'g', ')']
}

/// The temperature and unit shown for an observation value in `output_unit`.
/// A value whose unit is already the one asked for is shown as it came, beside
/// that unit's letter; one whose unit code has no `:deg` is shown as it came,
/// beside the whole code. Otherwise it is converted (Celsius to Fahrenheit when
/// that is asked, else Fahrenheit to Celsius) and rounded once to whole
/// degrees, or shown as `(missing)` when the value is not a decimal number.
pub open spec fn shown_temperature(value: Seq<char>, unit_code: Seq<char>, output_unit: Seq<char>) -> (
    Seq<char>,
    Seq<char>,
) {
    match deg_suffix(unit_code) {
        None => (value, unit_code),
        Some(u) => if u == output_unit {
            (value, u)
        } else {
            let to_f = u == seq!['C'] && output_unit == seq!['F'];
            let unit = if to_f {
                seq!['F']
            } else {
                seq!['C']
            };
            match decimal_milli(value) {
                None => (missing_text(), unit),
                Some(m) => {
                    let v = if to_f {
                        c_to_f_whole_spec(m)
                    } else {
                        f_to_c_whole_spec(m)
                    };
                    (int_text(v), unit)
                },
            }
        },
    }
}

/// Puts an observation value in the unit asked for.
pub fn normalize_temperature(value: &str, unit_code: &str, output_unit: &str) -> (r: (String, String))
    ensures
        (r.0@, r.1@) == shown_temperature(value@, unit_code@, output_unit@),
{
    let unit = match unit_of(unit_code) {
        None => {
            return (String::from_str(value), String::from_str(unit_code));
        },
        Some(u) => u,
    };
    let out = String::from_str(output_unit);
    if unit.eq(&out) {
        return (String::from_str(value), unit);
    }
    let c = String::from_str("C");
    let f = String::from_str("F");
    proof {
        reveal_strlit("C");
        reveal_strlit("F");
    }
    assert(f@ == seq!['F']);
    assert(out@ == output_unit@);
    let is_c = unit.eq(&c);
    assert(is_c == (unit@ == c@));
    let wants_f = out.eq(&f);
    assert(wants_f == (out@ == f@));
    assert(c@ =~= seq!['C']);
    assert(f@ =~= seq!['F']);
    let to_f = is_c && wants_f;
    assert(is_c == (unit@ == seq!['C']));
    assert(wants_f == (output_unit@ == seq!['F']));
    assert(to_f == (unit@ == seq!['C'] && output_unit@ == seq!['F']));
    let shown_unit = if to_f {
        f
    } else {
        c
    };
    match parse_milli(value) {
        None => {
            proof {
                reveal_strlit("(missing)");
            }
            (String::from_str("(missing)"), shown_unit)
        },
        Some(m) => {
            let v = if to_f {
                c_to_f_whole(m)
            } else {
                f_to_c_whole(m)
            };
            let t = int_to_text(v);
            (t, shown_unit)
        },
    }
}

/// The line printed when there is nothing to report.
pub open spec fn no_observations_text() -> Seq<char> {
    seq![
        'N', 'o', ' ', 'c', 'u', 'r', 'r', 'e', 'n', 't', ' ', 'w', 'e', 'a', 't', 'h', 'e', 'r', ' ',
        'o', 'b', 's', 'e', 'r', 'v', 'a', 't', 'i', 'o', 'n', 's', '.',
    ]
}

/// `Most recent observation from <name>(<id>) at <time>: <temp>°<unit>`,
/// centred in `REPORT_WIDTH` characters.
pub open spec fn report_text(station: Station, time: Seq<char>, shown: (Seq<char>, Seq<char>)) -> Seq<char> {
    let prefix = seq![
        'M', 'o', 's', 't', ' ', 'r', 'e', 'c', 'e', 'n', 't', ' ', 'o', 'b', 's', 'e', 'r', 'v', 'a',
        't', 'i', 'o', 'n', ' ', 'f', 'r', 'o', 'm', ' ',
    ];
    centered(
        prefix + station.name@ + seq!['('] + station.id@ + seq![')', ' ', 'a', 't', ' '] + time
            + seq![':', ' '] + shown.0 + seq!['\u{b0}'] + shown.1,
        REPORT_WIDTH as nat,
    )
}

/// The line for one observation, or the no-observation line when it has no
/// temperature.
pub open spec fn report_line_spec(station: Station, obs: Observation, time: Seq<char>, output_unit: Seq<char>) -> Seq<char> {
    match obs.temperature {
        Some(v) => report_text(station, time, shown_temperature(v@, obs.unit_code@, output_unit)),
        None => no_observations_text(),
    }
}

/// The line printed when there is nothing to report.
pub fn no_observations() -> (r: String)
    ensures
        r@ == no_observations_text(),
{
    proof {
        reveal_strlit("No current weather observations.");
    }
    let r = String::from_str("No current weather observations.");
    assert(r@ =~= no_observations_text());
    r
}

/// Writes the report line of an observation whose local time reads `time_text`.
pub fn report_line(station: &Station, obs: &Observation, time_text: &str, output_unit: &str) -> (r: String)
    ensures
        r@ == report_line_spec(*station, *obs, time_text@, output_unit@),
{
    let value = match &obs.temperature {
        Some(v) => v,
        None => {
            return no_observations();
        },
    };
    let shown = normalize_temperature(value.as_str(), obs.unit_code.as_str(), output_unit);
    let mut s = String::from_str("Most recent observation from ");
    s.append(station.name.as_str());
    push_char(&mut s, '(');
    s.append(station.id.as_str());
    s.append(") at ");
    s.append(time_text);
    s.append(": ");
    s.append(shown.0.as_str());
    push_char(&mut s, '\u{b0}');
    s.append(shown.1.as_str());
    proof {
        reveal_strlit("Most recent observation from ");
        reveal_strlit(") at ");
        reveal_strlit(": ");
        let prefix = seq![
            'M', 'o', 's', 't', ' ', 'r', 'e', 'c', 'e', 'n', 't', ' ', 'o', 'b', 's', 'e', 'r', 'v', 'a',
            't', 'i', 'o', 'n', ' ', 'f', 'r', 'o', 'm', ' ',
        ];
        assert(s@ =~= prefix + station.name@ + seq!['('] + station.id@ + seq![')', ' ', 'a', 't', ' ']
            + time_text@ + seq![':', ' '] + shown.0@ + seq!['\u{b0}'] + shown.1@);
    }
    center(s.as_str(), REPORT_WIDTH)
}

/// Whether `r` reports on a station's recent observations: the line of the
/// selected observation, with the clock time (` 9:05am`) of its instant under
/// some offset from UTC of less than a day, or empty text
/// where the timestamp cannot be read; or the no-observation line when none is
/// selected.
pub open spec fn is_report(station: Station, obs: Seq<Observation>, output_unit: Seq<char>, r: Seq<char>) -> bool {
    match selected(obs) {
        None => r == no_observations_text(),
        Some(i) => exists|t: Seq<char>|
            (rfc3339_seconds(obs[i].timestamp@) is None ==> t == Seq::<char>::empty())
                && (rfc3339_seconds(obs[i].timestamp@) matches Some(secs) ==> is_clock_text(t)
                && is_local_time_of(secs, t)) && r
                == #[trigger] report_line_spec(station, obs[i], t, output_unit),
    }
}

/// The report on a station's recent observations: the line of the first of the
/// `SCAN_LIMIT` most recent that has a temperature, with its time in the local
/// clock, or the no-observation line when none of them has one.
pub fn observation_report(station: &Station, obs: &Vec<Observation>, output_unit: &str) -> (r: String)
    ensures
        is_report(*station, obs@, output_unit@, r@),
{
    match select_observation(obs) {
        None => no_observations(),
        Some(i) => {
            let time = format_time(obs[i].timestamp.as_str());
            let line = report_line(station, &obs[i], time.as_str(), output_unit);
            assert(selected(obs@) == Some(i as int));
            assert(rfc3339_seconds(obs@[i as int].timestamp@) is None ==> time@ == Seq::<char>::empty());
            assert(rfc3339_seconds(obs@[i as int].timestamp@) is Some ==> is_clock_text(time@));
            assert(rfc3339_seconds(obs@[i as int].timestamp@) matches Some(secs) ==> is_local_time_of(secs, time@));
            assert(line@ == report_line_spec(*station, obs@[i as int], time@, output_unit@));
            assert(is_report(*station, obs@, output_unit@, line@));
            line
        },
    }
}

} // verus!
