# weather

A terminal weather viewer. It asks for a place, looks it up and fetches its
seven-day forecast from Open-Meteo, and shows either a daily table or the
hourly table of a chosen day, with coloured conditions and temperature bars.

`src/` is the verified library (Verus):

- `weather`: weather codes to condition text and colour.
- `text`: padding of readings, decimal numerals and parsing of numbers.
- `paint`: terminal colours through the `colored` crate.
- `ansi`: removing control sequences, visible width (`unicode-width`), centring.
- `table`: boxed table layout.
- `forecast`: the cells and rows of the daily and hourly tables, the temperature bar.
- `clock`: reading timestamps and dates with `chrono`.
- `days`: grouping hourly readings by local day, the days offered for choice.
- `input`, `session`: reading the user's answers and the viewer's steps.

`app/main.rs` holds the program: terminal input and output, the HTTP
requests (`reqwest`, `tokio`), the JSON records (`serde`) and the
floating-point formatting of readings.
