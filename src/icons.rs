//! Static lookup tables from readings to the icons shown on a report line.
//! Every table is total: a value outside its known range maps to the
//! question-mark icon.

use vstd::prelude::*;
use vstd::string::StringExecFns;

verus! {

/// The pair of icons (mood and clothing) for a whole-degree temperature.
pub open spec fn face_icon(t: int) -> Seq<char> {
    if -50 <= t <= 16 {
        "🥶🧦"@
    } else if 17 <= t <= 22 {
        "😀🧥"@
    } else if 23 <= t <= 30 {
        "😀🩳"@
    } else if 31 <= t <= 50 {
        "🥵🏜"@
    } else {
        "❓"@
    }
}

/// The arrow for a wind direction in degrees. The arrow points where the wind
/// blows to, so a northerly wind (0 degrees) shows a down arrow. Readings from
/// 361 to 380 are taken as a small overshoot past north and share its arrow;
/// anything else outside the compass is unknown.
pub open spec fn wind_icon(deg: int) -> Seq<char> {
    if 0 <= deg <= 10 {
        "⬇"@
    } else if 11 <= deg <= 78 {
        "↙"@
    } else if 79 <= deg <= 123 {
        "⬅"@
    } else if 124 <= deg <= 168 {
        "↖"@
    } else if 169 <= deg <= 213 {
        "⬆"@
    } else if 214 <= deg <= 258 {
        "↗"@
    } else if 259 <= deg <= 303 {
        "➡"@
    } else if 304 <= deg <= 348 {
        "↘"@
    } else if 349 <= deg <= 380 {
        "⬇"@
    } else {
        "❓"@
    }
}

/// The sky icon for a condition label; labels are matched exactly.
pub open spec fn condition_icon(label: Seq<char>) -> Seq<char> {
    if label == "Tornado"@ || label == "Squall"@ {
        "🌪"@
    } else if label == "Fog"@ || label == "Haze"@ || label == "Mist"@ || label == "Smoke"@
        || label == "Dust"@ || label == "Sand"@ || label == "Ash"@ {
        "🌫"@
    } else if label == "Thunderstorm"@ {
        "🌩"@
    } else if label == "Snow"@ {
        "❄"@
    } else if label == "Rain"@ {
        "⛈"@
    } else if label == "Clear"@ {
        "☀"@
    } else if label == "Clouds"@ {
        "☁"@
    } else if label == "Drizzle"@ {
        "🌧"@
    } else {
        "❓"@
    }
}

/// Mood and clothing icons for a temperature in whole degrees Celsius.
pub fn emoji_face(temperature: i32) -> (r: String)
    ensures
        r@ == face_icon(temperature as int),
{
    if -50 <= temperature && temperature <= 16 {
        String::from_str("🥶🧦")
    } else if 17 <= temperature && temperature <= 22 {
        String::from_str("😀🧥")
    } else if 23 <= temperature && temperature <= 30 {
        String::from_str("😀🩳")
    } else if 31 <= temperature && temperature <= 50 {
        String::from_str("🥵🏜")
    } else {
        String::from_str("❓")
    }
}

/// Compass arrow for a wind direction in degrees.
pub fn emoji_wind_direction(degree: i32) -> (r: String)
    ensures
        r@ == wind_icon(degree as int),
{
    if 0 <= degree && degree <= 10 {
        String::from_str("⬇")
    } else if 11 <= degree && degree <= 78 {
        String::from_str("↙")
    } else if 79 <= degree && degree <= 123 {
        String::from_str("⬅")
    } else if 124 <= degree && degree <= 168 {
        String::from_str("↖")
    } else if 169 <= degree && degree <= 213 {
        String::from_str("⬆")
    } else if 214 <= degree && degree <= 258 {
        String::from_str("↗")
    } else if 259 <= degree && degree <= 303 {
        String::from_str("➡")
    } else if 304 <= degree && degree <= 348 {
        String::from_str("↘")
    } else if 349 <= degree && degree <= 380 {
        String::from_str("⬇")
    } else {
        String::from_str("❓")
    }
}

/// Whether a label reads exactly as the given text.
fn label_is(label: &String, text: &str) -> (r: bool)
    ensures
        r == (label@ == text@),
{
    let expected = String::from_str(text);
    *label == expected
}

/// Sky icon for a condition label; an unknown label gets the question mark.
pub fn emoji_weather_condition(c: &String) -> (r: String)
    ensures
        r@ == condition_icon(c@),
{
    if label_is(c, "Tornado") || label_is(c, "Squall") {
        String::from_str("🌪")
    } else if label_is(c, "Fog") || label_is(c, "Haze") || label_is(c, "Mist") || label_is(
        c,
        "Smoke",
    ) || label_is(c, "Dust") || label_is(c, "Sand") || label_is(c, "Ash") {
        String::from_str("🌫")
    } else if label_is(c, "Thunderstorm") {
        String::from_str("🌩")
    } else if label_is(c, "Snow") {
        String::from_str("❄")
    } else if label_is(c, "Rain") {
        String::from_str("⛈")
    } else if label_is(c, "Clear") {
        String::from_str("☀")
    } else if label_is(c, "Clouds") {
        String::from_str("☁")
    } else if label_is(c, "Drizzle") {
        String::from_str("🌧")
    } else {
        String::from_str("❓")
    }
}

} // verus!
