//! Weather code descriptions.
//!
//! The upstream forecast encodes present weather as a WMO code; the
//! current-weather reply shows the matching text.

use vstd::prelude::*;

verus! {

/// The codes the library can describe.
pub open spec fn known_weather_code(code: u8) -> bool {
    ||| code == 0
    ||| code == 1
    ||| code == 2
    ||| code == 3
    ||| code == 45
    ||| code == 48
    ||| code == 51
    ||| code == 53
    ||| code == 55
    ||| code == 56
    ||| code == 57
    ||| code == 61
    ||| code == 63
    ||| code == 65
    ||| code == 66
    ||| code == 67
    ||| code == 71
    ||| code == 73
    ||| code == 75
    ||| code == 77
    ||| code == 80
    ||| code == 81
    ||| code == 82
    ||| code == 85
    ||| code == 86
    ||| code == 95
    ||| code == 96
    ||| code == 99
}

/// The description of a known weather code.
pub open spec fn spec_weather_description(code: u8) -> Seq<char> {
    if code == 0 {
        "clear sky"@
    } else if code == 1 {
        "mainly clear"@
    } else if code == 2 {
        "partly cloudy"@
    } else if code == 3 {
        "overcast"@
    } else if code == 45 {
        "fog"@
    } else if code == 48 {
        "rime-depositing fog"@
    } else if code == 51 {
        "light drizzle"@
    } else if code == 53 {
        "moderate drizzle"@
    } else if code == 55 {
        "dense drizzle"@
    } else if code == 56 {
        "light, freezing drizzle"@
    } else if code == 57 {
        "dense, freezing drizzle"@
    } else if code == 61 {
        "slight rain"@
    } else if code == 63 {
        "moderate rain"@
    } else if code == 65 {
        "heavy rain"@
    } else if code == 66 {
        "light, freezing rain"@
    } else if code == 67 {
        "heavy, freezing rain"@
    } else if code == 71 {
        "slight snowfall"@
    } else if code == 73 {
        "moderate snowfall"@
    } else if code == 75 {
        "heavy snowfall"@
    } else if code == 77 {
        "snow grains"@
    } else if code == 80 {
        "slight rain showers"@
    } else if code == 81 {
        "moderate rain showers"@
    } else if code == 82 {
        "violent rain showers"@
    } else if code == 85 {
        "slight snow showers"@
    } else if code == 86 {
        "heavy snow showers"@
    } else if code == 95 {
        "thunderstorm"@
    } else if code == 96 {
        "thunderstorm with slight hail"@
    } else {
        "thunderstorm with heavy hail"@
    }
}

/// The text for a WMO weather code, or `None` for a code the library
/// does not know.
pub fn weather_code_to_str(weather_code: u8) -> (r: Option<&'static str>)
    ensures
        r is Some <==> known_weather_code(weather_code),
        r matches Some(s) ==> s@ == spec_weather_description(weather_code),
{
    let text: &'static str = match weather_code {
        0 => "clear sky",
        1 => "mainly clear",
        2 => "partly cloudy",
        3 => "overcast",
        45 => "fog",
        48 => "rime-depositing fog",
        51 => "light drizzle",
        53 => "moderate drizzle",
        55 => "dense drizzle",
        56 => "light, freezing drizzle",
        57 => "dense, freezing drizzle",
        61 => "slight rain",
        63 => "moderate rain",
        65 => "heavy rain",
        66 => "light, freezing rain",
        67 => "heavy, freezing rain",
        71 => "slight snowfall",
        73 => "moderate snowfall",
        75 => "heavy snowfall",
        77 => "snow grains",
        80 => "slight rain showers",
        81 => "moderate rain showers",
        82 => "violent rain showers",
        85 => "slight snow showers",
        86 => "heavy snow showers",
        95 => "thunderstorm",
        96 => "thunderstorm with slight hail",
        99 => "thunderstorm with heavy hail",
        _ => {
            return None;
        },
    };
    Some(text)
}

} // verus!
