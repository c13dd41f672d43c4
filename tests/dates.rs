use lunchbox::calendar::{resolve, CalendarDate, Moment};
use lunchbox::heading::{day_month, month_of, normalize_date, normalize_words, parse_u32};

fn moment(year: i32, month: u32, day: u32, second: u32) -> Moment {
    Moment { date: CalendarDate { year, month, day }, second, nanosecond: 0 }
}

fn date(year: i32, month: u32, day: u32) -> CalendarDate {
    CalendarDate { year, month, day }
}

#[test]
fn christmas_eve_ahead_stays_in_current_year() {
    let now = moment(2024, 1, 10, 0);
    assert_eq!(normalize_date("24 dec", &now), Some(date(2024, 12, 24)));
}

#[test]
fn christmas_eve_passed_rolls_into_next_year() {
    let now = moment(2024, 12, 25, 0);
    assert_eq!(normalize_date("24 dec", &now), Some(date(2025, 12, 24)));
}

#[test]
fn resolved_date_keeps_day_and_month() {
    let now = moment(2023, 6, 1, 43200);
    let words = ["jan", "feb", "mar", "apr", "maj", "jun", "jul", "aug", "sep", "okt", "nov", "dec"];
    for (i, w) in words.iter().enumerate() {
        let text = format!("7 {}", w);
        let d = normalize_date(&text, &now).unwrap();
        assert_eq!(d.day, 7);
        assert_eq!(d.month, i as u32 + 1);
    }
}

#[test]
fn today_at_midnight_is_not_past() {
    let now = moment(2024, 3, 5, 0);
    assert_eq!(resolve(5, 3, &now), Some(date(2024, 3, 5)));
}

#[test]
fn today_after_midnight_rolls_over() {
    let now = moment(2024, 3, 5, 1);
    assert_eq!(resolve(5, 3, &now), Some(date(2025, 3, 5)));
    let later = Moment { date: date(2024, 3, 5), second: 0, nanosecond: 1 };
    assert_eq!(resolve(5, 3, &later), Some(date(2025, 3, 5)));
}

#[test]
fn impossible_day_gives_nothing() {
    let now = moment(2024, 1, 10, 0);
    assert_eq!(resolve(30, 2, &now), None);
    assert_eq!(resolve(0, 5, &now), None);
    assert_eq!(resolve(32, 1, &now), None);
    assert_eq!(normalize_date("31 apr", &now), None);
}

#[test]
fn leap_day_rolled_into_common_year_gives_nothing() {
    let now = moment(2024, 3, 1, 0);
    assert_eq!(resolve(29, 2, &now), None);
    let before = moment(2024, 2, 1, 0);
    assert_eq!(resolve(29, 2, &before), Some(date(2024, 2, 29)));
}

#[test]
fn leap_day_of_common_year_gives_nothing() {
    let now = moment(2023, 1, 1, 0);
    assert_eq!(resolve(29, 2, &now), None);
}

#[test]
fn day_numbers_read_like_std() {
    assert_eq!(parse_u32("24"), Some(24));
    assert_eq!(parse_u32("+7"), Some(7));
    assert_eq!(parse_u32("007"), Some(7));
    assert_eq!(parse_u32("4294967295"), Some(4294967295));
    assert_eq!(parse_u32("4294967296"), None);
    assert_eq!(parse_u32(""), None);
    assert_eq!(parse_u32("+"), None);
    assert_eq!(parse_u32("-1"), None);
    assert_eq!(parse_u32("12a"), None);
    for s in ["0", "19", "+31", "99999", "x", " 1"] {
        assert_eq!(parse_u32(s), s.parse::<u32>().ok());
    }
}

#[test]
fn month_table() {
    assert_eq!(month_of("jan"), Some(1));
    assert_eq!(month_of("maj"), Some(5));
    assert_eq!(month_of("okt"), Some(10));
    assert_eq!(month_of("dec"), Some(12));
    assert_eq!(month_of("may"), None);
    assert_eq!(month_of("Dec"), None);
    assert_eq!(month_of("december"), None);
    assert_eq!(month_of(""), None);
}

#[test]
fn heading_needs_day_then_month() {
    let now = moment(2024, 1, 10, 0);
    assert_eq!(normalize_date("dec 24", &now), None);
    assert_eq!(normalize_date("24", &now), None);
    assert_eq!(normalize_date("", &now), None);
    assert_eq!(normalize_date("  24 \n\t dec  ", &now), Some(date(2024, 12, 24)));
    assert_eq!(normalize_date("24 dec 1999", &now), Some(date(2024, 12, 24)));
}

#[test]
fn heading_words_read_directly() {
    let now = moment(2024, 1, 10, 0);
    let words = vec!["3".to_string(), "feb".to_string()];
    assert_eq!(day_month(&words), Some((3, 2)));
    assert_eq!(normalize_words(&words, &now), Some(date(2024, 2, 3)));
    let early = vec!["3".to_string(), "jan".to_string()];
    assert_eq!(normalize_words(&early, &now), Some(date(2025, 1, 3)));
}

#[test]
fn calendar_date_checks_existence() {
    assert_eq!(CalendarDate::new(2024, 2, 29), Some(date(2024, 2, 29)));
    assert_eq!(CalendarDate::new(2100, 2, 29), None);
    assert_eq!(CalendarDate::new(2000, 2, 29), Some(date(2000, 2, 29)));
    assert_eq!(CalendarDate::new(2024, 13, 1), None);
    assert_eq!(CalendarDate::new(262142, 12, 31), Some(date(262142, 12, 31)));
    assert_eq!(CalendarDate::new(262143, 1, 1), None);
}

#[test]
fn dates_order_by_year_month_day() {
    assert!(date(2024, 12, 31).is_before(&date(2025, 1, 1)));
    assert!(date(2024, 1, 31).is_before(&date(2024, 2, 1)));
    assert!(date(2024, 2, 1).is_before(&date(2024, 2, 2)));
    assert!(!date(2024, 2, 2).is_before(&date(2024, 2, 2)));
    assert!(!date(2025, 1, 1).is_before(&date(2024, 12, 31)));
}
