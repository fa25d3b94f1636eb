use weathr::api::{
    config_dir, CoordinateError, get_config_file_name, location_text, observations_url, points_url, stations_url,
    LocationProperties,
};
use weathr::clock::{clock_text, format_time};
use weathr::observe::{
    nearest_station, no_observations, normalize_temperature, observation_report, report_line,
    select_observation, Observation, Station,
};
use weathr::units::{c_to_f, c_to_f_whole, f_to_c, f_to_c_whole, parse_milli};

fn obs(t: Option<&str>) -> Observation {
    Observation {
        timestamp: "2024-01-01T12:00:00+00:00".to_string(),
        temperature: t.map(|s| s.to_string()),
        unit_code: "wmoUnit:degC".to_string(),
    }
}

fn station() -> Station {
    Station { id: "KFOO".to_string(), name: "Foo".to_string(), url: "https://x/stations/KFOO".to_string() }
}

#[test]
fn scan_picks_the_only_present_value() {
    let list: Vec<Observation> = (0..10).map(|i| obs(if i == 7 { Some("3.5") } else { None })).collect();
    assert_eq!(select_observation(&list), Some(7));
}

#[test]
fn scan_gives_up_after_ten() {
    let list: Vec<Observation> = (0..10).map(|_| obs(None)).collect();
    assert_eq!(select_observation(&list), None);
    let list: Vec<Observation> = (0..12).map(|i| obs(if i == 10 { Some("1") } else { None })).collect();
    assert_eq!(select_observation(&list), None);
    assert_eq!(observation_report(&station(), &list, "F"), "No current weather observations.");
}

#[test]
fn decimal_temperatures() {
    assert_eq!(parse_milli("22.2"), Some(22200));
    assert_eq!(parse_milli("-3.25"), Some(-3250));
    assert_eq!(parse_milli("12"), Some(12000));
    assert_eq!(parse_milli("1.2345"), Some(1234));
    assert_eq!(parse_milli("abc"), None);
    assert_eq!(parse_milli(""), None);
    assert_eq!(parse_milli("5."), None);
    assert_eq!(parse_milli(".5"), None);
    assert_eq!(parse_milli("1.2.3"), None);
}

#[test]
fn unit_formulas() {
    assert_eq!(f_to_c(212000), 100000);
    assert_eq!(c_to_f(100000), 212000);
    assert_eq!(c_to_f(-40000), -40000);
    assert_eq!(c_to_f(22200), 71960);
    assert_eq!(c_to_f_whole(22200), 72);
    assert_eq!(f_to_c_whole(50000), 10);
    assert_eq!(f_to_c_whole(-1500), -19);
}

#[test]
fn conversion_rounds_once() {
    // 3.611 C is 38.4998 F: rounding to thousandths first would give 39
    assert_eq!(c_to_f_whole(3611), 38);
    assert_eq!(c_to_f_whole(-40000), -40);
    assert_eq!(f_to_c_whole(212000), 100);
}

#[test]
fn halves_round_to_even() {
    // 2.5 C is exactly 36.5 F, 3.5 C is 38.3 F, 0.5 C is 32.9 F
    assert_eq!(c_to_f_whole(2500), 36);
    assert_eq!(c_to_f_whole(-2500), 28);
    assert_eq!(c_to_f_whole(5500), 42);
    assert_eq!(c_to_f_whole(2500), format!("{:.0}", 36.5f32).parse::<i64>().unwrap());
    assert_eq!(c_to_f_whole(5500), format!("{:.0}", 41.9f32).parse::<i64>().unwrap());
    assert_eq!(f_to_c_whole(32900), 0);
    assert_eq!(f_to_c_whole(34700), 2);
    assert_eq!(f_to_c_whole(36500), format!("{:.0}", 2.5f32).parse::<i64>().unwrap());
}

#[test]
fn fahrenheit_round_trip_within_half_degree() {
    for f in [-40000i64, 0, 32000, 72000, 72500, 98600, 212000] {
        let back = c_to_f(f_to_c(f));
        assert!((back - f).abs() <= 500, "{} -> {}", f, back);
    }
}

#[test]
fn normalization() {
    assert_eq!(normalize_temperature("22.2", "wmoUnit:degC", "F"), ("72".to_string(), "F".to_string()));
    assert_eq!(normalize_temperature("50", "wmoUnit:degF", "C"), ("10".to_string(), "C".to_string()));
    assert_eq!(
        normalize_temperature("72", "wmoUnit:degF", "F"),
        ("72".to_string(), "F".to_string())
    );
    assert_eq!(normalize_temperature("x", "wmoUnit:degC", "F"), ("(missing)".to_string(), "F".to_string()));
    assert_eq!(normalize_temperature("7", "kelvin", "F"), ("7".to_string(), "kelvin".to_string()));
}

#[test]
fn report_line_text() {
    let o = obs(Some("22.2"));
    assert_eq!(
        report_line(&station(), &o, " 9:05am", "F"),
        "Most recent observation from Foo(KFOO) at  9:05am: 72°F"
    );
    assert_eq!(report_line(&station(), &obs(None), "", "F"), no_observations());
}

#[test]
fn report_uses_selected_observation() {
    let list = vec![obs(None), obs(Some("0"))];
    let r = observation_report(&station(), &list, "F");
    assert!(r.starts_with("Most recent observation from Foo(KFOO) at "));
    assert!(r.ends_with(": 32°F"));
}

#[test]
fn time_formatting() {
    assert_eq!(format_time("garbage"), "");
    for ts in ["2024-01-01T12:00:00+00:00", "0000-01-01T00:00:00+23:59", "9999-12-31T23:59:59-23:59"] {
        let t: Vec<char> = format_time(ts).chars().collect();
        assert_eq!(t.len(), 7, "{}", ts);
        assert!((t[0] == ' ' && ('1'..='9').contains(&t[1])) || (t[0] == '1' && ('0'..='2').contains(&t[1])));
        assert_eq!(t[2], ':');
        assert!(('0'..='5').contains(&t[3]) && t[4].is_ascii_digit());
        assert!(t[5] == 'a' || t[5] == 'p');
        assert_eq!(t[6], 'm');
    }
}

#[test]
fn nearest_station_is_first() {
    assert!(nearest_station(&Vec::new()).is_none());
    let list = vec![station(), Station { id: "B".to_string(), name: "b".to_string(), url: String::new() }];
    assert_eq!(nearest_station(&list).unwrap().id, "KFOO");
}

#[test]
fn urls() {
    assert_eq!(points_url(""), Ok(None));
    assert_eq!(
        points_url("39.7,-105.0"),
        Ok(Some("https://api.weather.gov/points/39.7,-105.0".to_string()))
    );
    assert_eq!(stations_url("TOP", 31, 80), "https://api.weather.gov/gridpoints/TOP/31,80/stations");
    assert_eq!(observations_url("https://x/stations/K"), "https://x/stations/K/observations");
}

#[test]
fn config_paths() {
    assert_eq!(config_dir(""), "/dev/null");
    assert_eq!(config_dir("/home/u"), "/home/u/.config/weathr");
    assert_eq!(get_config_file_name("/home/u/.config/weathr"), "/home/u/.config/weathr/properties.json");
    let p = LocationProperties {
        grid_id: "TOP".to_string(),
        grid_x: 31,
        grid_y: 80,
        forecast_url: String::new(),
        city: "Topeka".to_string(),
        state: "KS".to_string(),
    };
    assert_eq!(location_text(&p), "Topeka, KS");
}

#[test]
fn malformed_coordinates_are_refused() {
    assert_eq!(points_url("39.7"), Err(CoordinateError));
    assert_eq!(points_url("a,b"), Err(CoordinateError));
    assert_eq!(points_url("1,2,3"), Err(CoordinateError));
    assert_eq!(points_url(",5"), Err(CoordinateError));
    assert_eq!(points_url("5,"), Err(CoordinateError));
}

#[test]
fn report_in_asked_unit_keeps_value() {
    let o = Observation {
        timestamp: "not a time".to_string(),
        temperature: Some("71.6".to_string()),
        unit_code: "wmoUnit:degF".to_string(),
    };
    assert_eq!(
        observation_report(&station(), &vec![o], "F"),
        "Most recent observation from Foo(KFOO) at : 71.6°F"
    );
}

#[test]
fn clock_text_of_local_seconds() {
    assert_eq!(clock_text(0), "12:00am");
    assert_eq!(clock_text(9 * 3600 + 5 * 60), " 9:05am");
    assert_eq!(clock_text(12 * 3600 + 59 * 60 + 59), "12:59pm");
    assert_eq!(clock_text(23 * 3600 + 30 * 60), "11:30pm");
    assert_eq!(clock_text(-60), "11:59pm");
    assert_eq!(clock_text(86400 + 13 * 3600), " 1:00pm");
}
