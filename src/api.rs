use vstd::prelude::*;
use crate::text::{int_text, int_to_text};
use crate::units::{decimal_milli, lemma_stray_char_refused, parse_milli};

verus! {

/// What the point lookup yields about a location.
pub struct LocationProperties {
    pub grid_id: String,
    pub grid_x: i64,
    pub grid_y: i64,
    pub forecast_url: String,
    pub city: String,
    pub state: String,
}

pub open spec fn api_root() -> Seq<char> {
    seq!['h', 't', 't', 'p', 's', ':', '/', '/', 'a', 'p', 'i', '.', 'w', 'e', 'a', 't', 'h', 'e', 'r', '.', 'g', 'o', 'v']
}

pub open spec fn points_url_spec(latlong: Seq<char>) -> Seq<char> {
    api_root() + seq!['/', 'p', 'o', 'i', 'n', 't', 's', '/'] + latlong
}

/// Coordinates given as text that is not `<lat>,<long>` in decimal degrees.
#[derive(Debug, PartialEq, Eq, Structural)]
pub struct CoordinateError;

/// Whether `s` is two decimal numbers joined by a comma.
pub open spec fn is_lat_long(s: Seq<char>) -> bool {
    exists|i: int|
        0 <= i < s.len() && #[trigger] s[i] == ',' && decimal_milli(s.take(i)) is Some && decimal_milli(
            s.skip(i + 1),
        ) is Some
}

/// The point lookup for `<lat>,<long>`; `None` when no coordinates were given,
/// in which case the saved location is used; an error when the text is not two
/// decimal numbers joined by a comma.
pub fn points_url(latlong: &str) -> (r: Result<Option<String>, CoordinateError>)
    ensures
        latlong@.len() == 0 ==> r == Ok::<Option<String>, CoordinateError>(None),
        latlong@.len() > 0 && is_lat_long(latlong@) ==> (r matches Ok(Some(u)) && u@ == points_url_spec(
            latlong@,
        )),
        latlong@.len() > 0 && !is_lat_long(latlong@) ==> r is Err,
{
    let n = latlong.unicode_len();
    if n == 0 {
        return Ok(None);
    }
    let mut c: usize = 0;
    while c < n && latlong.get_char(c) != ','
        invariant
            n == latlong@.len(),
            c <= n,
            forall|k: int| 0 <= k < c ==> latlong@[k] != ',',
        decreases n - c,
    {
        c = c + 1;
    }
    if c == n {
        return Err(CoordinateError);
    }
    let lat = latlong.substring_char(0, c);
    let long = latlong.substring_char(c + 1, n);
    let ok = parse_milli(lat).is_some() && parse_milli(long).is_some();
    proof {
        let s = latlong@;
        assert(lat@ =~= s.take(c as int));
        assert(long@ =~= s.skip(c + 1));
        if !ok {
            assert forall|i: int|
                0 <= i < s.len() && #[trigger] s[i] == ',' implies !(decimal_milli(s.take(i)) is Some
                && decimal_milli(s.skip(i + 1)) is Some) by {
                if i > c {
                    assert(s.take(i)[c as int] == ',');
                    lemma_stray_char_refused(s.take(i), c as int);
                }
            }
        }
    }
    if !ok {
        return Err(CoordinateError);
    }
    let mut u = String::from_str("https://api.weather.gov/points/");
    u.append(latlong);
    proof {
        reveal_strlit("https://api.weather.gov/points/");
    }
    assert(u@ =~= points_url_spec(latlong@));
    Ok(Some(u))
}

pub open spec fn stations_url_spec(office: Seq<char>, x: int, y: int) -> Seq<char> {
    api_root() + seq!['/', 'g', 'r', 'i', 'd', 'p', 'o', 'i', 'n', 't', 's', '/'] + office + seq!['/']
        + int_text(x) + seq![','] + int_text(y) + seq!['/', 's', 't', 'a', 't', 'i', 'o', 'n', 's']
}

/// The list of stations of a forecast office's grid point.
pub fn stations_url(office: &str, x: i64, y: i64) -> (r: String)
    ensures
        r@ == stations_url_spec(office@, x as int, y as int),
{
    let mut u = String::from_str("https://api.weather.gov/gridpoints/");
    u.append(office);
    u.append("/");
    let xs = int_to_text(x);
    u.append(xs.as_str());
    u.append(",");
    let ys = int_to_text(y);
    u.append(ys.as_str());
    u.append("/stations");
    proof {
        reveal_strlit("https://api.weather.gov/gridpoints/");
        reveal_strlit("/");
        reveal_strlit(",");
        reveal_strlit("/stations");
    }
    assert(u@ =~= stations_url_spec(office@, x as int, y as int));
    u
}

pub open spec fn observations_suffix() -> Seq<char> {
    seq!['/', 'o', 'b', 's', 'e', 'r', 'v', 'a', 't', 'i', 'o', 'n', 's']
}

/// The observations of a station, newest first.
pub fn observations_url(station_url: &str) -> (r: String)
    ensures
        r@ == station_url@ + observations_suffix(),
{
    let mut u = String::from_str(station_url);
    u.append("/observations");
    proof {
        reveal_strlit("/observations");
    }
    assert(u@ =~= station_url@ + observations_suffix());
    u
}

/// The line naming a location: `<city>, <state>`.
pub fn location_text(p: &LocationProperties) -> (r: String)
    ensures
        r@ == p.city@ + seq![',', ' '] + p.state@,
{
    let mut s = String::from_str(p.city.as_str());
    s.append(", ");
    s.append(p.state.as_str());
    proof {
        reveal_strlit(", ");
    }
    assert(s@ =~= p.city@ + seq![',', ' '] + p.state@);
    s
}

pub open spec fn null_device() -> Seq<char> {
    seq!['/', 'd', 'e', 'v', '/', 'n', 'u', 'l', 'l']
}

pub open spec fn config_suffix() -> Seq<char> {
    seq!['/', '.', 'c', 'o', 'n', 'f', 'i', 'g', '/', 'w', 'e', 'a', 't', 'h', 'r']
}

/// The directory that holds the cache and the saved location, under the home
/// directory; `/dev/null` when there is no home directory.
pub fn config_dir(home: &str) -> (r: String)
    ensures
        home@.len() == 0 ==> r@ == null_device(),
        home@.len() > 0 ==> r@ == home@ + config_suffix(),
{
    if home.unicode_len() == 0 {
        proof {
            reveal_strlit("/dev/null");
        }
        let r = String::from_str("/dev/null");
        assert(r@ =~= null_device());
        return r;
    }
    let mut d = String::from_str(home);
    d.append("/.config/weathr");
    proof {
        reveal_strlit("/.config/weathr");
    }
    assert(d@ =~= home@ + config_suffix());
    d
}

pub open spec fn properties_file() -> Seq<char> {
    seq!['p', 'r', 'o', 'p', 'e', 'r', 't', 'i', 'e', 's', '.', 'j', 's', 'o', 'n']
}

/// The file that holds the last location looked up, in directory `dir`.
pub fn get_config_file_name(dir: &str) -> (r: String)
    ensures
        r@ == dir@ + seq!['/'] + properties_file(),
{
    let mut f = String::from_str(dir);
    f.append("/properties.json");
    proof {
        reveal_strlit("/properties.json");
    }
    assert(f@ =~= dir@ + seq!['/'] + properties_file());
    f
}

} // verus!
