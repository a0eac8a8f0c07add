use weather::ansi::{center_to_width, center_with_width, strip_ansi, visible_width};
use weather::forecast::{
    colour_text, daily_heading, hourly_heading, daily_row, draw_temp_bar_compact, format_feels, format_rain, format_temp, format_weather,
    format_wind, hour_label, hourly_row, temperature_cell,
};
use weather::paint::Colour;
use weather::text::{decimal_string, pad_number, parse_usize};
use weather::weather::{get_weather_colour, get_weather_text, weather_sky, Sky};

fn painted_as(r: &str, text: &str, code: &str) -> bool {
    r == text || r == format!("\x1b[{}m{}\x1b[0m", code, text)
}

#[test]
fn weather_text_by_code() {
    assert_eq!(get_weather_text(0), "Clear");
    assert_eq!(get_weather_text(1), "Clear");
    assert_eq!(get_weather_text(3), "Cloudy");
    assert_eq!(get_weather_text(48), "Fog");
    assert_eq!(get_weather_text(53), "Light Rain");
    assert_eq!(get_weather_text(57), "Freezing Rain");
    assert_eq!(get_weather_text(66), "Freezing Rain");
    assert_eq!(get_weather_text(63), "Rain");
    assert_eq!(get_weather_text(81), "Rain");
    assert_eq!(get_weather_text(75), "Snow");
    assert_eq!(get_weather_text(77), "Snow");
    assert_eq!(get_weather_text(86), "Snow");
    assert_eq!(get_weather_text(95), "Thunderstorm");
    assert_eq!(get_weather_text(99), "Thunderstorm");
    assert_eq!(get_weather_text(4), "Unknown");
    assert_eq!(get_weather_text(255), "Unknown");
    assert_eq!(weather_sky(96), Sky::Thunderstorm);
}

#[test]
fn weather_colour_by_code() {
    assert_eq!(get_weather_colour(0), Colour::Yellow);
    assert_eq!(get_weather_colour(2), Colour::BrightWhite);
    assert_eq!(get_weather_colour(45), Colour::White);
    assert_eq!(get_weather_colour(51), Colour::Blue);
    assert_eq!(get_weather_colour(82), Colour::Blue);
    assert_eq!(get_weather_colour(71), Colour::BrightCyan);
    assert_eq!(get_weather_colour(95), Colour::Magenta);
    assert_eq!(get_weather_colour(100), Colour::White);
}

#[test]
fn same_text_same_colour_on_all_codes() {
    for a in 0..=255u8 {
        for b in 0..=255u8 {
            if get_weather_text(a) == get_weather_text(b) {
                assert_eq!(get_weather_colour(a), get_weather_colour(b));
            }
        }
    }
}

#[test]
fn pad_single_digit_readings() {
    assert_eq!(pad_number("5.0°C"), " 5.0°C");
    assert_eq!(pad_number("12.3°C"), "12.3°C");
    assert_eq!(pad_number("-5.0°C"), "-5.0°C");
    assert_eq!(pad_number("7 km/h"), " 7 km/h");
    assert_eq!(pad_number("17 km/h"), "17 km/h");
    assert_eq!(pad_number("5"), " 5");
    assert_eq!(pad_number("5.0"), " 5.0");
    assert_eq!(pad_number("15"), "15");
    assert_eq!(pad_number("-5"), "-5");
    assert_eq!(pad_number(""), "");
    assert_eq!(pad_number("abc"), "abc");
    assert_eq!(pad_number(".5x"), ".5x");
    assert_eq!(pad_number("5-3x"), "5-3x");
}

#[test]
fn padding_twice_is_padding_once() {
    for s in ["5.0°C", "12.3°C", "-1.0°C", "0 km/h", "x", "", "5", "9.9"] {
        let once = pad_number(s);
        assert_eq!(pad_number(&once), once);
    }
}

#[test]
fn decimal_numerals() {
    assert_eq!(decimal_string(0), "0");
    assert_eq!(decimal_string(7), "7");
    assert_eq!(decimal_string(42), "42");
    assert_eq!(decimal_string(100), "100");
    assert_eq!(decimal_string(usize::MAX), usize::MAX.to_string());
}

#[test]
fn parse_numbers_like_std() {
    assert_eq!(parse_usize("3"), Some(3));
    assert_eq!(parse_usize("+7"), Some(7));
    assert_eq!(parse_usize("007"), Some(7));
    assert_eq!(parse_usize(""), None);
    assert_eq!(parse_usize("+"), None);
    assert_eq!(parse_usize("-1"), None);
    assert_eq!(parse_usize("1a"), None);
    assert_eq!(parse_usize(" 1"), None);
    assert_eq!(parse_usize("18446744073709551616"), "18446744073709551616".parse::<usize>().ok());
    for s in ["0", "12", "+12", "++1", "99999999999999999999", "1 ", "x"] {
        assert_eq!(parse_usize(s), s.parse::<usize>().ok());
    }
}

#[test]
fn decimal_then_parse_roundtrip() {
    for n in [0usize, 1, 9, 10, 99, 12345, usize::MAX] {
        assert_eq!(parse_usize(&decimal_string(n)), Some(n));
    }
}

#[test]
fn rain_is_three_columns() {
    assert!(painted_as(&format_rain(0), " 0%", "2"));
    assert!(painted_as(&format_rain(5), " 5%", "34"));
    assert!(painted_as(&format_rain(40), "40%", "34"));
    assert!(painted_as(&format_rain(99), "99%", "34"));
    assert!(painted_as(&format_rain(100), "100", "34"));
    for p in 0..=255u8 {
        assert_eq!(visible_width(&format_rain(p)), 3);
        assert_eq!(strip_ansi(&format_rain(p)).chars().count(), 3);
    }
}

#[test]
fn temperatures_and_wind() {
    assert!(painted_as(&format_temp("5.0°C", Colour::Green), " 5.0°C", "32"));
    assert!(painted_as(&format_temp("21.4°C", Colour::Red), "21.4°C", "31"));
    assert!(painted_as(&format_feels("3.5°C"), " 3.5°C", "36"));
    assert_eq!(format_wind("9 km/h"), " 9 km/h");
    assert_eq!(format_wind("19 km/h"), "19 km/h");
    assert!(painted_as(&format_weather(61), "Rain", "34"));
    assert!(painted_as(&format_weather(2), "Cloudy", "97"));
}

#[test]
fn hour_labels() {
    assert_eq!(hour_label(0), "00");
    assert_eq!(hour_label(7), "07");
    assert_eq!(hour_label(23), "23");
}

#[test]
fn strip_and_measure() {
    assert_eq!(strip_ansi("\x1b[34mRain\x1b[0m"), "Rain");
    assert_eq!(strip_ansi("a\x1b[2;37mb"), "ab");
    assert_eq!(strip_ansi("plain m text"), "plain m text");
    assert_eq!(strip_ansi("\x1b[unterminated"), "inated");
    assert_eq!(strip_ansi("\x1b[1;2"), "");
    assert_eq!(visible_width("\x1b[34mRain\x1b[0m"), 4);
    assert_eq!(visible_width("日本"), 4);
    assert_eq!(visible_width("▰▱"), 2);
    assert_eq!(visible_width(""), 0);
}

#[test]
fn centring() {
    assert_eq!(center_to_width("ab", 6), "  ab  ");
    assert_eq!(center_to_width("ab", 5), " ab  ");
    assert_eq!(center_to_width("abcdef", 4), "abcdef");
    assert_eq!(center_to_width("\x1b[34mab\x1b[0m", 4), " \x1b[34mab\x1b[0m ");
    assert_eq!(center_with_width("x", 1, 4), " x  ");
}

#[test]
fn temperature_bars() {
    assert_eq!(draw_temp_bar_compact(None), "▰▰▰▰▰▰▰▰▰");
    assert_eq!(strip_ansi(&draw_temp_bar_compact(Some(0))), "▱▱▱▱▱▱▱▱▱");
    assert_eq!(strip_ansi(&draw_temp_bar_compact(Some(4))), "▰▰▰▰▱▱▱▱▱");
    assert_eq!(strip_ansi(&draw_temp_bar_compact(Some(9))), "▰▰▰▰▰▰▰▰▰");
    assert_eq!(strip_ansi(&draw_temp_bar_compact(Some(50))), "▰▰▰▰▰▰▰▰▰");
    assert_eq!(visible_width(&draw_temp_bar_compact(Some(5))), 9);
}

#[test]
fn coloured_output_when_forced() {
    colored::control::set_override(true);
    assert_eq!(format_rain(40), "\x1b[34m40%\x1b[0m");
    assert_eq!(format_rain(0), "\x1b[2m 0%\x1b[0m");
    assert_eq!(format_temp("5.0°C", Colour::Green), "\x1b[32m 5.0°C\x1b[0m");
    assert_eq!(format_weather(2), "\x1b[97mCloudy\x1b[0m");
    let bar = draw_temp_bar_compact(Some(7));
    assert_eq!(
        bar,
        "\x1b[32m▰\x1b[0m\x1b[32m▰\x1b[0m\x1b[32m▰\x1b[0m\x1b[33m▰\x1b[0m\x1b[33m▰\x1b[0m\x1b[33m▰\x1b[0m\x1b[31m▰\x1b[0m\x1b[2;37m▱\x1b[0m\x1b[2;37m▱\x1b[0m"
    );
    assert_eq!(visible_width(&bar), 9);
    colored::control::unset_override();
}

#[test]
fn rows_of_cells() {
    let row = hourly_row(9, 61, "5.0°C", Some(3), "3.1°C", 40, "7 km/h");
    assert_eq!(row.len(), 6);
    assert_eq!(row[0], "09");
    assert_eq!(strip_ansi(&row[1]), "Rain");
    assert_eq!(strip_ansi(&row[2]), " 5.0°C ▰▰▰▱▱▱▱▱▱");
    assert_eq!(strip_ansi(&row[3]), " 3.1°C");
    assert_eq!(strip_ansi(&row[4]), "40%");
    assert_eq!(row[5], " 7 km/h");
    assert_eq!(temperature_cell("12.0°C", None), "12.0°C ▰▰▰▰▰▰▰▰▰");

    let day = daily_row("Wed 01 May", 0, "4.2°C", "15.9°C", "14.0°C", None);
    assert_eq!(day.len(), 6);
    assert_eq!(day[0], "Wed 01 May");
    assert_eq!(strip_ansi(&day[1]), "Clear");
    assert_eq!(strip_ansi(&day[2]), " 4.2°C");
    assert_eq!(strip_ansi(&day[3]), "15.9°C");
    assert_eq!(strip_ansi(&day[4]), "14.0°C");
    assert_eq!(strip_ansi(&day[5]), " 0%");
}

#[test]
fn headings_and_highlights() {
    assert!(painted_as(&daily_heading("Oslo", "Norway"), "7-Day Forecast for Oslo, Norway", "1;4"));
    assert!(painted_as(
        &hourly_heading("Oslo", "Norway", "Wednesday, 01 May 2024"),
        "Hourly Forecast for Oslo, Norway – Wednesday, 01 May 2024",
        "1;4"
    ));
    assert!(painted_as(&colour_text("Paris", Colour::Cyan), "Paris", "36"));
    assert!(painted_as(&colour_text("France", Colour::Green), "France", "32"));
}

#[test]
fn headings_when_colour_is_forced() {
    colored::control::set_override(true);
    assert_eq!(daily_heading("Oslo", "Norway"), "\x1b[1;4m7-Day Forecast for Oslo, Norway\x1b[0m");
    assert_eq!(colour_text("Paris", Colour::Cyan), "\x1b[36mParis\x1b[0m");
    assert_eq!(format_feels("3.5°C"), format_temp("3.5°C", Colour::Cyan));
    colored::control::unset_override();
}

#[test]
fn bars_fill_with_position() {
    let mut last = 0;
    for s in 0..20usize {
        let filled = strip_ansi(&draw_temp_bar_compact(Some(s))).chars().filter(|&c| c == '▰').count();
        assert!(filled >= last);
        assert_eq!(filled, s.min(9));
        last = filled;
    }
}

#[test]
fn padded_temperatures_take_six_characters() {
    for tenths in -99i32..=999 {
        let plain = format!("{:.1}°C", tenths as f64 / 10.0);
        assert_eq!(pad_number(&plain).chars().count(), 6, "{}", plain);
    }
    assert_eq!(pad_number("-12.3°C").chars().count(), 7);
}

#[test]
fn inner_resets_reopen_the_colour() {
    colored::control::set_override(true);
    assert_eq!(colour_text("a\x1b[0mb", Colour::Red), "\x1b[31ma\x1b[0m\x1b[31mb\x1b[0m");
    assert_eq!(
        daily_heading("\x1b[32mOslo\x1b[0m", "Norway"),
        "\x1b[1;4m7-Day Forecast for \x1b[32mOslo\x1b[0m\x1b[1;4m, Norway\x1b[0m"
    );
    colored::control::unset_override();
    assert_eq!(colour_text("a\x1b[0mb", Colour::Red), "a\x1b[0mb");
}
