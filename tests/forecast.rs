use weathr::layout::{column_count, columns_shown, render, ForecastPeriod};
use weathr::text::{center, int_to_text};
use weathr::wrap::{split_words, wrap};

fn period(name: &str, day: bool, short: &str, t: i64) -> ForecastPeriod {
    ForecastPeriod {
        name: name.to_string(),
        is_daytime: day,
        short_forecast: short.to_string(),
        temperature: t,
        temperature_unit: "F".to_string(),
        wind_speed: "5 mph".to_string(),
        wind_direction: "NW".to_string(),
    }
}

#[test]
fn center_puts_extra_space_right() {
    assert_eq!(center("ab", 6), "  ab  ");
    assert_eq!(center("abc", 6), " abc  ");
    assert_eq!(center("abcdefg", 6), "abcdefg");
    assert_eq!(center("", 3), "   ");
    assert_eq!(center("ab", 6), format!("{:^6}", "ab"));
    assert_eq!(center("abc", 6), format!("{:^6}", "abc"));
}

#[test]
fn integers_in_decimal() {
    assert_eq!(int_to_text(0), "0");
    assert_eq!(int_to_text(-42), "-42");
    assert_eq!(int_to_text(i64::MIN), i64::MIN.to_string());
    assert_eq!(int_to_text(i64::MAX), i64::MAX.to_string());
}

#[test]
fn words_split_on_runs_of_spaces() {
    assert_eq!(split_words("  a  bb c "), vec!["a", "bb", "c"]);
    assert!(split_words("   ").is_empty());
}

#[test]
fn greedy_wrap() {
    assert_eq!(
        wrap("Chance Rain Showers then Mostly Sunny", 19),
        vec!["Chance Rain Showers", "then Mostly Sunny"]
    );
    assert_eq!(wrap("Thunderstorms", 5), vec!["Thunderstorms"]);
    assert!(wrap("", 19).is_empty());
}

#[test]
fn five_columns_fit_in_a_hundred() {
    assert_eq!(column_count(100, 20), 5);
    assert_eq!(columns_shown(14, 20, 100), 5);
    let ps: Vec<ForecastPeriod> = (0..7).map(|i| period(&format!("P{}", i), i % 2 == 0, "Sunny", 70)).collect();
    let rows = render(&ps, 20, 100);
    assert_eq!(rows.len(), 4);
    assert_eq!(rows[0].chars().count(), 100);
    assert!(rows[0].contains("P4"));
    assert!(!rows[0].contains("P5"));
}

#[test]
fn fewer_periods_than_slots_leave_no_blank_columns() {
    assert_eq!(columns_shown(3, 20, 100), 3);
    let ps = vec![
        period("Today", true, "Sunny", 72),
        period("Tonight", false, "Chance Rain Showers then Mostly Sunny", 50),
        period("Monday", true, "Cloudy", 68),
    ];
    let rows = render(&ps, 20, 100);
    assert_eq!(rows.len(), 5);
    for r in &rows {
        assert_eq!(r.chars().count(), 60);
    }
    assert_eq!(rows[0], format!("{:^20}{:^20}{:^20}", "Today", "Tonight", "Monday"));
    assert_eq!(rows[1], format!("{:^20}{:^20}{:^20}", "Sunny", "Chance Rain Showers", "Cloudy"));
    assert_eq!(rows[2], format!("{:^20}{:^20}{:^20}", "", "then Mostly Sunny", ""));
    assert_eq!(
        rows[3],
        format!("{:^20}{:^20}{:^20}", "High near 72°F", "Low near 50°F", "High near 68°F")
    );
    assert_eq!(rows[4], format!("{:^20}{:^20}{:^20}", "5 mph NW", "5 mph NW", "5 mph NW"));
}

#[test]
fn description_rows_stop_at_six() {
    let ps = vec![period("Long", true, "a b c d e f g h", 1)];
    let rows = render(&ps, 2, 10);
    // eight one-letter lines, cut to six
    assert_eq!(rows.len(), 9);
    assert_eq!(rows[6], format!("{:^2}", "f"));
}

#[test]
fn no_periods_render_empty_rows() {
    let rows = render(&Vec::new(), 20, 100);
    assert_eq!(rows, vec!["", "", ""]);
}
