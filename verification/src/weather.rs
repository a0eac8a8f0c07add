use vstd::prelude::*;
use crate::paint::{esc, Colour};

verus! {

/// The sky conditions that the viewer tells apart, each shown with one
/// word or phrase.
#[derive(Clone, Copy, Debug, PartialEq, Eq, Structural)]
pub enum Sky {
    Clear,
    Cloudy,
    Fog,
    LightRain,
    FreezingRain,
    Rain,
    Snow,
    Thunderstorm,
    Unknown,
}

/// The WMO weather code table, reduced to the conditions of `Sky`.
pub open spec fn sky_of(code: u8) -> Sky {
    if code == 0 || code == 1 {
        Sky::Clear
    } else if code == 2 || code == 3 {
        Sky::Cloudy
    } else if code == 45 || code == 48 {
        Sky::Fog
    } else if code == 51 || code == 53 || code == 55 {
        Sky::LightRain
    } else if code == 56 || code == 57 || code == 66 || code == 67 {
        Sky::FreezingRain
    } else if code == 61 || code == 63 || code == 65 || code == 80 || code == 81 || code == 82 {
        Sky::Rain
    } else if code == 71 || code == 73 || code == 75 || code == 77 || code == 85 || code == 86 {
        Sky::Snow
    } else if code == 95 || code == 96 || code == 99 {
        Sky::Thunderstorm
    } else {
        Sky::Unknown
    }
}

/// The text shown for each condition.
pub open spec fn sky_label(sky: Sky) -> Seq<char> {
    match sky {
        Sky::Clear => "Clear"@,
        Sky::Cloudy => "Cloudy"@,
        Sky::Fog => "Fog"@,
        Sky::LightRain => "Light Rain"@,
        Sky::FreezingRain => "Freezing Rain"@,
        Sky::Rain => "Rain"@,
        Sky::Snow => "Snow"@,
        Sky::Thunderstorm => "Thunderstorm"@,
        Sky::Unknown => "Unknown"@,
    }
}

/// The colour each condition is shown in: clear sky yellow, cloud bright
/// white, fog plain white, every kind of rain blue, snow bright cyan,
/// thunderstorms magenta, anything else white.
pub open spec fn sky_colour(sky: Sky) -> Colour {
    match sky {
        Sky::Clear => Colour::Yellow,
        Sky::Cloudy => Colour::BrightWhite,
        Sky::Fog => Colour::White,
        Sky::LightRain => Colour::Blue,
        Sky::FreezingRain => Colour::Blue,
        Sky::Rain => Colour::Blue,
        Sky::Snow => Colour::BrightCyan,
        Sky::Thunderstorm => Colour::Magenta,
        Sky::Unknown => Colour::White,
    }
}

/// The colour table by weather code, as the viewer states it.
pub open spec fn code_colour(code: u8) -> Colour {
    if code == 0 || code == 1 {
        Colour::Yellow
    } else if code == 2 || code == 3 {
        Colour::BrightWhite
    } else if code == 45 || code == 48 {
        Colour::White
    } else if code == 51 || code == 53 || code == 55 || code == 56 || code == 57 || code == 61
        || code == 63 || code == 65 || code == 66 || code == 67 || code == 80 || code == 81
        || code == 82 {
        Colour::Blue
    } else if code == 71 || code == 73 || code == 75 || code == 77 || code == 85 || code == 86 {
        Colour::BrightCyan
    } else if code == 95 || code == 96 || code == 99 {
        Colour::Magenta
    } else {
        Colour::White
    }
}

/// The condition for a weather code.
pub fn weather_sky(code: u8) -> (sky: Sky)
    ensures
        sky == sky_of(code),
{
    match code {
        0 | 1 => Sky::Clear,
        2 | 3 => Sky::Cloudy,
        45 | 48 => Sky::Fog,
        51 | 53 | 55 => Sky::LightRain,
        56 | 57 => Sky::FreezingRain,
        61 | 63 | 65 => Sky::Rain,
        66 | 67 => Sky::FreezingRain,
        71 | 73 | 75 => Sky::Snow,
        77 => Sky::Snow,
        80 | 81 | 82 => Sky::Rain,
        85 | 86 => Sky::Snow,
        95 => Sky::Thunderstorm,
        96 | 99 => Sky::Thunderstorm,
        _ => Sky::Unknown,
    }
}

/// The text for a condition.
pub fn sky_text(sky: Sky) -> (text: &'static str)
    ensures
        text@ == sky_label(sky),
{
    match sky {
        Sky::Clear => "Clear",
        Sky::Cloudy => "Cloudy",
        Sky::Fog => "Fog",
        Sky::LightRain => "Light Rain",
        Sky::FreezingRain => "Freezing Rain",
        Sky::Rain => "Rain",
        Sky::Snow => "Snow",
        Sky::Thunderstorm => "Thunderstorm",
        Sky::Unknown => "Unknown",
    }
}

/// A short, plain description of a weather code.
pub fn get_weather_text(code: u8) -> (text: &'static str)
    ensures
        text@ == sky_label(sky_of(code)),
{
    sky_text(weather_sky(code))
}

/// The colour a weather code is shown in.
pub fn get_weather_colour(code: u8) -> (colour: Colour)
    ensures
        colour == code_colour(code),
{
    match code {
        0 | 1 => Colour::Yellow,
        2 | 3 => Colour::BrightWhite,
        45 | 48 => Colour::White,
        51 | 53 | 55 | 56 | 57 | 61 | 63 | 65 | 66 | 67 | 80 | 81 | 82 => Colour::Blue,
        71 | 73 | 75 | 77 | 85 | 86 => Colour::BrightCyan,
        95 | 96 | 99 => Colour::Magenta,
        _ => Colour::White,
    }
}

/// No condition's text holds an escape character.
pub proof fn lemma_sky_label_plain(sky: Sky)
    ensures
        !sky_label(sky).contains(esc()),
{
    reveal_strlit("Clear");
    reveal_strlit("Cloudy");
    reveal_strlit("Fog");
    reveal_strlit("Light Rain");
    reveal_strlit("Freezing Rain");
    reveal_strlit("Rain");
    reveal_strlit("Snow");
    reveal_strlit("Thunderstorm");
    reveal_strlit("Unknown");
    let t = sky_label(sky);
    if t.contains(esc()) {
        let k = choose|k: int| 0 <= k < t.len() && t[k] == esc();
        assert(t[k] != esc());
    }
}

/// Each condition has its own text.
pub proof fn lemma_sky_labels_distinct(a: Sky, b: Sky)
    requires
        sky_label(a) == sky_label(b),
    ensures
        a == b,
{
    reveal_strlit("Clear");
    reveal_strlit("Cloudy");
    reveal_strlit("Fog");
    reveal_strlit("Light Rain");
    reveal_strlit("Freezing Rain");
    reveal_strlit("Rain");
    reveal_strlit("Snow");
    reveal_strlit("Thunderstorm");
    reveal_strlit("Unknown");
    assert(sky_label(a).len() == sky_label(b).len());
    assert(sky_label(a)[0] == sky_label(b)[0]);
    assert(sky_label(Sky::Clear).len() == 5);
    assert(sky_label(Sky::Cloudy).len() == 6);
    assert(sky_label(Sky::Fog).len() == 3);
    assert(sky_label(Sky::LightRain).len() == 10);
    assert(sky_label(Sky::FreezingRain).len() == 13);
    assert(sky_label(Sky::Rain).len() == 4);
    assert(sky_label(Sky::Snow).len() == 4);
    assert(sky_label(Sky::Thunderstorm).len() == 12);
    assert(sky_label(Sky::Unknown).len() == 7);
    assert(sky_label(Sky::Rain)[0] == 'R');
    assert(sky_label(Sky::Snow)[0] == 'S');
}

/// The colour of a weather code is the colour of its condition: the colour
/// table and the text table classify the codes alike.
pub proof fn lemma_colour_follows_condition(code: u8)
    ensures
        code_colour(code) == sky_colour(sky_of(code)),
{
}

/// Two weather codes shown with the same text are shown in the same colour.
pub proof fn lemma_same_text_same_colour(a: u8, b: u8)
    requires
        sky_label(sky_of(a)) == sky_label(sky_of(b)),
    ensures
        code_colour(a) == code_colour(b),
{
    lemma_sky_labels_distinct(sky_of(a), sky_of(b));
}

/// The WMO code table of the viewer, code by code: the text each code is
/// described with and the colour it is shown in.
pub proof fn lemma_weather_code_table(code: u8)
    ensures
        (code == 0 || code == 1) ==> sky_label(sky_of(code)) == "Clear"@ && code_colour(code) == Colour::Yellow,
        (code == 2 || code == 3) ==> sky_label(sky_of(code)) == "Cloudy"@ && code_colour(code) == Colour::BrightWhite,
        (code == 45 || code == 48) ==> sky_label(sky_of(code)) == "Fog"@ && code_colour(code) == Colour::White,
        (code == 51 || code == 53 || code == 55) ==> sky_label(sky_of(code)) == "Light Rain"@
            && code_colour(code) == Colour::Blue,
        (code == 56 || code == 57 || code == 66 || code == 67) ==> sky_label(sky_of(code)) == "Freezing Rain"@
            && code_colour(code) == Colour::Blue,
        (code == 61 || code == 63 || code == 65 || code == 80 || code == 81 || code == 82)
            ==> sky_label(sky_of(code)) == "Rain"@ && code_colour(code) == Colour::Blue,
        (code == 71 || code == 73 || code == 75 || code == 77 || code == 85 || code == 86)
            ==> sky_label(sky_of(code)) == "Snow"@ && code_colour(code) == Colour::BrightCyan,
        (code == 95 || code == 96 || code == 99) ==> sky_label(sky_of(code)) == "Thunderstorm"@
            && code_colour(code) == Colour::Magenta,
        !(code == 0 || code == 1 || code == 2 || code == 3 || code == 45 || code == 48 || code == 51
            || code == 53 || code == 55 || code == 56 || code == 57 || code == 61 || code == 63
            || code == 65 || code == 66 || code == 67 || code == 71 || code == 73 || code == 75
            || code == 77 || code == 80 || code == 81 || code == 82 || code == 85 || code == 86
            || code == 95 || code == 96 || code == 99) ==> sky_label(sky_of(code)) == "Unknown"@
            && code_colour(code) == Colour::White,
{
}

} // verus!
