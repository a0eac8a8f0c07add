//! Verified core of a terminal weather viewer: weather-code classification,
//! number and cell formatting, ANSI-aware width measurement, table layout,
//! grouping of hourly readings by local day, and the menu decisions.

pub mod text;
pub mod paint;
pub mod weather;
pub mod ansi;
pub mod table;
pub mod forecast;
pub mod days;
pub mod clock;
pub mod input;
pub mod session;
