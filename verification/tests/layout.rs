use weather::ansi::visible_width;
use weather::forecast::{daily_row, daily_table_lines, hourly_row, hourly_table_lines};
use weather::table::{border_line, frame, measure_columns, render_table, row_string, rule_string};

fn strings(items: &[&str]) -> Vec<String> {
    items.iter().map(|s| s.to_string()).collect()
}

#[test]
fn borders_and_frames() {
    assert_eq!(rule_string(3), "───");
    assert_eq!(rule_string(0), "");
    assert_eq!(border_line(&vec![2, 3], '┌', '┬', '┐'), "┌──┬───┐");
    assert_eq!(frame(&strings(&["a", "b", "c"]), '[', ',', ']'), "[a,b,c]");
    assert_eq!(frame(&Vec::new(), '[', ',', ']'), "[]");
    assert_eq!(row_string(&strings(&["x", "yy"]), &vec![3, 4]), "│ x │ yy │");
}

#[test]
fn column_widths_are_widest_cells() {
    let headers = strings(&["Hr", "Weather"]);
    let rows = vec![strings(&["00", "Rain"]), strings(&["123", "\x1b[34mThunderstorm\x1b[0m"])];
    assert_eq!(measure_columns(&headers, &rows), vec![3, 12]);
}

#[test]
fn small_table() {
    let headers = strings(&["A", "BB"]);
    let rows = vec![strings(&["x", "y"]), strings(&["long", "z"])];
    let lines = render_table(&headers, &rows).unwrap();
    let expected = vec![
        "┌──────┬────┐",
        "│  A   │ BB │",
        "├──────┼────┤",
        "│  x   │ y  │",
        "├──────┼────┤",
        "│ long │ z  │",
        "└──────┴────┘",
    ];
    assert_eq!(lines, expected);
    assert_eq!(lines.len(), 2 * rows.len() + 3);
}

#[test]
fn no_rows_no_lines() {
    let headers = strings(&["A"]);
    assert_eq!(render_table(&headers, &Vec::new()), Some(Vec::new()));
    assert_eq!(hourly_table_lines(&Vec::new()), Some(Vec::new()));
    assert_eq!(daily_table_lines(&Vec::new()), Some(Vec::new()));
}

#[test]
fn short_rows_stop_early() {
    let headers = strings(&["A", "B"]);
    let rows = vec![strings(&["x"])];
    let lines = render_table(&headers, &rows).unwrap();
    assert_eq!(lines[3], "│ x │");
}

#[test]
fn hourly_table_headers() {
    let rows = vec![strings(&["09", "Rain", " 5.0°C ▰▰▰▱▱▱▱▱▱", " 3.1°C", "40%", " 7 km/h"])];
    let lines = hourly_table_lines(&rows).unwrap();
    assert_eq!(lines.len(), 5);
    assert_eq!(lines[1], "│ Hr │ Weather │   Temperature    │  Feel  │ Rain │  Wind   │");
    assert_eq!(lines[3], "│ 09 │  Rain   │  5.0°C ▰▰▰▱▱▱▱▱▱ │  3.1°C │ 40%  │  7 km/h │");
}

#[test]
fn daily_table_headers() {
    let rows = vec![strings(&["Wed 01 May", "Clear", " 4.2°C", "15.9°C", "14.0°C", " 0%"])];
    let lines = daily_table_lines(&rows).unwrap();
    assert_eq!(lines[1], "│    Date    │ Weather │  Min   │  Max   │  Feel  │ Rain │");
    assert_eq!(lines[3], "│ Wed 01 May │  Clear  │  4.2°C │ 15.9°C │ 14.0°C │  0%  │");
}

#[test]
fn coloured_tables_stay_aligned() {
    colored::control::set_override(true);
    let rows = vec![
        hourly_row(0, 0, "5.0°C", Some(0), "3.0°C", 0, "7 km/h"),
        hourly_row(13, 95, "21.5°C", Some(9), "25.0°C", 100, "35 km/h"),
        hourly_row(23, 61, "-2.5°C", None, "-6.0°C", 45, "12 km/h"),
    ];
    let lines = hourly_table_lines(&rows).unwrap();
    assert_eq!(lines.len(), 9);
    let width = visible_width(&lines[0]);
    for line in &lines {
        assert_eq!(visible_width(line), width);
    }
    let days = vec![
        daily_row("Wed 01 May", 3, "4.2°C", "15.9°C", "14.0°C", Some(20)),
        daily_row("Thu 02 May", 71, "-1.0°C", "2.0°C", "0.5°C", None),
    ];
    let lines = daily_table_lines(&days).unwrap();
    let width = visible_width(&lines[0]);
    for line in &lines {
        assert_eq!(visible_width(line), width);
    }
    colored::control::unset_override();
}

#[test]
fn every_line_takes_the_table_width() {
    let rows = vec![
        hourly_row(0, 0, "5.0°C", Some(0), "3.0°C", 0, "7 km/h"),
        hourly_row(13, 95, "21.5°C", Some(9), "25.0°C", 100, "35 km/h"),
    ];
    let lines = hourly_table_lines(&rows).unwrap();
    let total = lines[0].chars().count();
    assert_eq!(total, 66);
    for (j, line) in lines.iter().enumerate() {
        if j % 2 == 1 {
            assert_eq!(visible_width(line), total);
        } else {
            assert_eq!(line.chars().count(), total);
        }
    }
}
