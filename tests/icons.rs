use weather_client::icons::{emoji_face, emoji_weather_condition, emoji_wind_direction};

#[test]
fn face_bands() {
    assert_eq!(emoji_face(-50), "🥶🧦");
    assert_eq!(emoji_face(16), "🥶🧦");
    assert_eq!(emoji_face(17), "😀🧥");
    assert_eq!(emoji_face(22), "😀🧥");
    assert_eq!(emoji_face(23), "😀🩳");
    assert_eq!(emoji_face(30), "😀🩳");
    assert_eq!(emoji_face(31), "🥵🏜");
    assert_eq!(emoji_face(50), "🥵🏜");
}

#[test]
fn face_out_of_range_is_unknown() {
    assert_eq!(emoji_face(-51), "❓");
    assert_eq!(emoji_face(51), "❓");
    assert_eq!(emoji_face(i32::MIN), "❓");
    assert_eq!(emoji_face(i32::MAX), "❓");
}

#[test]
fn wind_north_points_down() {
    assert_eq!(emoji_wind_direction(0), "⬇");
    assert_eq!(emoji_wind_direction(10), "⬇");
}

#[test]
fn wind_east_points_left() {
    assert_eq!(emoji_wind_direction(79), "⬅");
    assert_eq!(emoji_wind_direction(78), "↙");
    assert_eq!(emoji_wind_direction(123), "⬅");
}

#[test]
fn wind_all_buckets() {
    assert_eq!(emoji_wind_direction(11), "↙");
    assert_eq!(emoji_wind_direction(124), "↖");
    assert_eq!(emoji_wind_direction(169), "⬆");
    assert_eq!(emoji_wind_direction(214), "↗");
    assert_eq!(emoji_wind_direction(259), "➡");
    assert_eq!(emoji_wind_direction(304), "↘");
    assert_eq!(emoji_wind_direction(349), "⬇");
    assert_eq!(emoji_wind_direction(360), "⬇");
}

#[test]
fn wind_overshoot_past_north_is_kept() {
    assert_eq!(emoji_wind_direction(361), "⬇");
    assert_eq!(emoji_wind_direction(380), "⬇");
}

#[test]
fn wind_out_of_range_is_unknown() {
    assert_eq!(emoji_wind_direction(400), "❓");
    assert_eq!(emoji_wind_direction(381), "❓");
    assert_eq!(emoji_wind_direction(-1), "❓");
}

#[test]
fn condition_clear_is_sun() {
    assert_eq!(emoji_weather_condition(&"Clear".to_string()), "☀");
}

#[test]
fn condition_unknown_is_fallback() {
    assert_eq!(emoji_weather_condition(&"Blizzard".to_string()), "❓");
    assert_eq!(emoji_weather_condition(&"clear".to_string()), "❓");
    assert_eq!(emoji_weather_condition(&String::new()), "❓");
}

#[test]
fn condition_table() {
    let cases = [
        ("Tornado", "🌪"),
        ("Fog", "🌫"),
        ("Thunderstorm", "🌩"),
        ("Snow", "❄"),
        ("Rain", "⛈"),
        ("Clouds", "☁"),
        ("Haze", "🌫"),
        ("Squall", "🌪"),
        ("Drizzle", "🌧"),
        ("Mist", "🌫"),
        ("Smoke", "🌫"),
        ("Dust", "🌫"),
        ("Sand", "🌫"),
        ("Ash", "🌫"),
    ];
    for (label, icon) in cases {
        assert_eq!(emoji_weather_condition(&label.to_string()), icon);
    }
}
