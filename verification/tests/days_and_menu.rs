use weather::clock::{daily_date_label, day_heading, key_chars, parse_time_to_local, split_day_key, time_readable, try_parse_time_to_local, year_chars};
use weather::days::{day_before, first_days, group_hourly_by_day, group_stamps_by_day, stamp_day_key, try_group_hourly_by_day, LocalStamp};
use weather::input::{day_choice, is_daily_choice, location_query, menu_choice, trim, MenuChoice};
use weather::session::{after_menu, initial_session, location_found, next_step, weather_loaded, MenuOutcome, Step};

fn at(year: i32, month: u32, day: u32, hour: u32) -> LocalStamp {
    LocalStamp { year, month, day, hour }
}

#[test]
fn day_keys_follow_the_calendar() {
    assert_eq!(stamp_day_key(&at(2024, 5, 1, 0)), 20240501);
    assert!(stamp_day_key(&at(2024, 12, 31, 23)) < stamp_day_key(&at(2025, 1, 1, 0)));
    assert!(stamp_day_key(&at(2024, 2, 29, 0)) < stamp_day_key(&at(2024, 3, 1, 0)));
    assert_eq!(split_day_key(20240501), (2024, 5, 1));
    assert_eq!(split_day_key(-39771), (-4, 2, 29));
}

#[test]
fn readings_grouped_by_day() {
    let stamps = vec![at(2024, 5, 1, 22), at(2024, 5, 1, 23), at(2024, 5, 2, 0), at(2024, 5, 1, 21)];
    let codes = vec![0, 3, 61, 95];
    let precip = vec![Some(10), None, Some(80), Some(5)];
    let groups = group_stamps_by_day(&stamps, &codes, &precip);
    assert_eq!(groups.len(), 2);
    let first = &groups[&20240501];
    assert_eq!(first.hours, vec![22, 23, 21]);
    assert_eq!(first.codes, vec![0, 3, 95]);
    assert_eq!(first.rain, vec![10, 0, 5]);
    assert_eq!(first.indices, vec![0, 1, 3]);
    let second = &groups[&20240502];
    assert_eq!(second.hours, vec![0]);
    assert_eq!(second.indices, vec![2]);
}

#[test]
fn earliest_seven_days_sorted() {
    let mut stamps = Vec::new();
    for d in [9u32, 3, 5, 1, 8, 2, 7, 4, 6] {
        stamps.push(at(2024, 5, d, 12));
    }
    let codes = vec![0; stamps.len()];
    let precip = vec![None; stamps.len()];
    let groups = group_stamps_by_day(&stamps, &codes, &precip);
    assert_eq!(first_days(&groups), vec![20240501, 20240502, 20240503, 20240504, 20240505, 20240506, 20240507]);
    let few = group_stamps_by_day(&stamps[..3].to_vec(), &codes, &precip);
    assert_eq!(first_days(&few), vec![20240503, 20240505, 20240509]);
}

#[test]
fn timestamps_read_or_refused() {
    let st = parse_time_to_local("2024-05-01T12:00");
    assert!(st.month >= 1 && st.month <= 12 && st.hour < 24);
    let near = st == at(2024, 5, 1, st.hour) || st == at(2024, 5, 2, st.hour) || st == at(2024, 4, 30, st.hour);
    assert!(near);
    assert!(try_parse_time_to_local("2024-05-01T12:00:00+02:00").is_some());
    assert!(try_parse_time_to_local("not a time").is_none());
    assert!(try_parse_time_to_local("2024-13-01T12:00").is_none());
    assert!(time_readable("2024-05-01T23:00"));
    assert!(!time_readable("tomorrow"));
    let times = vec!["2024-05-01T10:00".to_string(), "2024-05-01T11:00".to_string()];
    let groups = group_hourly_by_day(&times, &vec![1, 2], &vec![Some(1), Some(2)]);
    let total: usize = groups.values().map(|g| g.indices.len()).sum();
    assert_eq!(total, 2);
    let bad = vec!["2024-05-01T10:00".to_string(), "yesterday".to_string()];
    assert!(try_group_hourly_by_day(&bad, &vec![1, 2], &vec![None, None]).is_none());
    assert!(try_group_hourly_by_day(&times, &vec![1, 2], &vec![None, None]).is_some());
}

#[test]
fn date_labels() {
    assert_eq!(daily_date_label("2024-05-01"), Some("Wed 01 May".to_string()));
    assert_eq!(daily_date_label("2024-02-30"), None);
    assert_eq!(day_heading(20240501), Some("Wednesday, 01 May 2024".to_string()));
    assert_eq!(day_heading(20230229), None);
    assert_eq!(day_heading(20240229), Some("Thursday, 29 February 2024".to_string()));
    assert_eq!(day_heading(i64::MAX), None);
    assert_eq!(day_heading(19700101), Some("Thursday, 01 January 1970".to_string()));
    assert_eq!(day_heading(20241301), None);
    assert_eq!(day_heading(100000101), Some("Saturday, 01 January +10000".to_string()));
    assert_eq!(day_heading(-9899), Some("Friday, 01 January -0001".to_string()));
    assert_eq!(daily_date_label("1999-12-31"), Some("Fri 31 Dec".to_string()));
}

#[test]
fn trimming_and_answers() {
    assert_eq!(trim("  Paris \n"), "Paris");
    assert_eq!(trim("\u{3000}x\u{A0}"), "x");
    assert_eq!(trim(" \t "), "");
    assert_eq!(location_query("  Oslo  "), Some("Oslo".to_string()));
    assert_eq!(location_query("   "), None);
    assert!(is_daily_choice("d\n"));
    assert!(is_daily_choice(" D "));
    assert!(!is_daily_choice("h"));
    assert!(!is_daily_choice("dd"));
    assert_eq!(day_choice("3\n", 7), Some(2));
    assert_eq!(day_choice("1", 1), Some(0));
    assert_eq!(day_choice("0", 7), None);
    assert_eq!(day_choice("8", 7), None);
    assert_eq!(day_choice("two", 7), None);
    assert_eq!(menu_choice("1\n"), MenuChoice::NewLocation);
    assert_eq!(menu_choice(" 2"), MenuChoice::SameLocation);
    assert_eq!(menu_choice("0"), MenuChoice::Exit);
    assert_eq!(menu_choice("3"), MenuChoice::Invalid);
}

#[test]
fn session_steps() {
    let s = initial_session();
    assert_eq!(next_step(s), Step::AskLocation);
    let s = location_found(s);
    assert_eq!(next_step(s), Step::FetchWeather);
    let s = weather_loaded(s);
    assert_eq!(next_step(s), Step::AskForecast);
    match after_menu(s, MenuChoice::SameLocation) {
        MenuOutcome::Continue(t) => assert_eq!(next_step(t), Step::AskForecast),
        _ => panic!("expected to continue"),
    }
    match after_menu(s, MenuChoice::NewLocation) {
        MenuOutcome::Continue(t) => assert_eq!(next_step(t), Step::AskLocation),
        _ => panic!("expected to continue"),
    }
    assert_eq!(after_menu(s, MenuChoice::Exit), MenuOutcome::Quit);
    assert_eq!(after_menu(s, MenuChoice::Invalid), MenuOutcome::AskAgain);
}

fn text(v: Vec<char>) -> String {
    v.into_iter().collect()
}

#[test]
fn years_written_as_the_service_writes_them() {
    assert_eq!(text(year_chars(2024)), "2024");
    assert_eq!(text(year_chars(44)), "0044");
    assert_eq!(text(year_chars(0)), "0000");
    assert_eq!(text(year_chars(-44)), "-0044");
    assert_eq!(text(year_chars(10000)), "+10000");
    assert_eq!(text(year_chars(-12345)), "-12345");
    assert_eq!(text(key_chars(20240501)), "2024-05-01");
    assert_eq!(text(key_chars(-9899)), "-0001-01-01");
    assert_eq!(split_day_key(i64::MIN), (-922337203685478, 41, 92));
}

#[test]
fn days_listed_as_their_texts_sort() {
    assert!(day_before(20240501, 20240502));
    assert!(!day_before(20240502, 20240501));
    assert!(!day_before(20240501, 20240501));
    assert!(day_before(100000101, -9899));
    assert!(day_before(-9899, -19899));
    assert!(day_before(-19899, 20240501));
    let stamps = vec![at(2024, 5, 1, 0), at(-2, 1, 1, 0), at(10000, 1, 1, 0), at(-1, 1, 1, 0)];
    let codes = vec![0; stamps.len()];
    let precip = vec![None; stamps.len()];
    let groups = group_stamps_by_day(&stamps, &codes, &precip);
    assert_eq!(first_days(&groups), vec![100000101, -9899, -19899, 20240501]);
}

#[test]
fn longer_value_series_group_alike() {
    let stamps = vec![at(2024, 5, 1, 22), at(2024, 5, 2, 0), at(2024, 5, 1, 23)];
    let codes = vec![0, 61, 3];
    let precip = vec![Some(10), Some(80), None];
    let longer_codes = vec![0, 61, 3, 95, 95];
    let longer_precip = vec![Some(10), Some(80), None, Some(100)];
    let a = group_stamps_by_day(&stamps, &codes, &precip);
    let b = group_stamps_by_day(&stamps, &longer_codes, &longer_precip);
    assert_eq!(a.len(), b.len());
    for (k, g) in a.iter() {
        let h = &b[k];
        assert_eq!(g.hours, h.hours);
        assert_eq!(g.codes, h.codes);
        assert_eq!(g.rain, h.rain);
        assert_eq!(g.indices, h.indices);
    }
}
