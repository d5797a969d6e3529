//! One weather reading and the console line that reports it.

use vstd::prelude::*;
use vstd::string::StringExecFns;
use crate::icons::{
    condition_icon, emoji_face, emoji_weather_condition, emoji_wind_direction, face_icon,
    wind_icon,
};

verus! {

/// Why a target produced no report line.
#[derive(PartialEq, Eq, Structural, Clone, Copy, Debug)]
pub enum Failure {
    /// The request could not be completed (network, timeout or status).
    Transport,
    /// The body did not hold a reading in the expected shape.
    Parse,
}

/// One decoded reading. Real-valued quantities are held in thousandths of
/// their unit (degrees Celsius, metres per second), truncated toward zero, so
/// 16.4 degrees is 16400 and 16.4996 is 16499. Rounding such a value with
/// `round_milli` gives the reading rounded half away from zero.
pub struct WeatherRecord {
    pub name: String,
    pub wind_speed_milli: i64,
    pub wind_deg: i32,
    pub conditions: Vec<String>,
    pub temp_milli: i64,
    pub temp_min_milli: i64,
    pub temp_max_milli: i64,
}

/// A quantity in thousandths rounded to the nearest whole unit, halves away
/// from zero.
pub open spec fn round_thousandths(m: int) -> int {
    if m >= 0 {
        (m + 500) / 1000
    } else {
        -((-m + 500) / 1000)
    }
}

/// Rounds a quantity in thousandths to the nearest whole unit, halves away
/// from zero.
pub fn round_milli(m: i64) -> (r: i64)
    ensures
        r as int == round_thousandths(m as int),
{
    if m >= 0 {
        ((m as i128 + 500) / 1000) as i64
    } else {
        let q = ((-(m as i128)) + 500) / 1000;
        -(q as i64)
    }
}

/// The character of one decimal digit.
pub open spec fn digit_char(d: nat) -> char {
    if d == 0 {
        '0'
    } else if d == 1 {
        '1'
    } else if d == 2 {
        '2'
    } else if d == 3 {
        '3'
    } else if d == 4 {
        '4'
    } else if d == 5 {
        '5'
    } else if d == 6 {
        '6'
    } else if d == 7 {
        '7'
    } else if d == 8 {
        '8'
    } else {
        '9'
    }
}

/// Decimal digits of a natural number, most significant first, no leading zero.
pub open spec fn digits(n: nat) -> Seq<char>
    decreases n,
{
    if n < 10 {
        seq![digit_char(n)]
    } else {
        digits(n / 10).push(digit_char(n % 10))
    }
}

/// Decimal text of an integer, with a leading minus sign when negative.
pub open spec fn decimal(n: int) -> Seq<char> {
    if n < 0 {
        seq!['-'] + digits((-n) as nat)
    } else {
        digits(n as nat)
    }
}

/// `s` preceded by spaces up to `width` characters.
pub open spec fn pad_left(s: Seq<char>, width: nat) -> Seq<char> {
    if s.len() >= width {
        s
    } else {
        Seq::new((width - s.len()) as nat, |i: int| ' ') + s
    }
}

/// `s` followed by spaces up to `width` characters.
pub open spec fn pad_right(s: Seq<char>, width: nat) -> Seq<char> {
    if s.len() >= width {
        s
    } else {
        s + Seq::new((width - s.len()) as nat, |i: int| ' ')
    }
}

/// The report line for a reading whose first condition label is `label`:
/// the place name in a column of twelve, the current, lowest and highest
/// temperature, the temperature icons, the wind speed with its direction,
/// and the sky icon. Temperatures and speed are rounded to whole units.
pub open spec fn report_line(
    name: Seq<char>,
    temp_milli: int,
    min_milli: int,
    max_milli: int,
    speed_milli: int,
    deg: int,
    label: Seq<char>,
) -> Seq<char> {
    let t = round_thousandths(temp_milli);
    pad_right(name, 12) + " "@ + pad_left(decimal(t), 2) + "°"@ + " "@ + pad_left(
        decimal(round_thousandths(min_milli)),
        2,
    ) + "⬇"@ + " "@ + pad_left(decimal(round_thousandths(max_milli)), 2) + "⬆"@ + "  "@
        + face_icon(t) + "  "@ + decimal(round_thousandths(speed_milli)) + wind_icon(deg)
        + "  "@ + condition_icon(label)
}

/// The line that reports how long the whole run took.
pub open spec fn duration_text(millis: nat) -> Seq<char> {
    "Duration "@ + digits(millis) + "ms"@
}

fn digit_text(d: u64) -> (r: &'static str)
    requires
        d < 10,
    ensures
        r@ == seq![digit_char(d as nat)],
{
    proof {
        reveal_strlit("0");
        reveal_strlit("1");
        reveal_strlit("2");
        reveal_strlit("3");
        reveal_strlit("4");
        reveal_strlit("5");
        reveal_strlit("6");
        reveal_strlit("7");
        reveal_strlit("8");
        reveal_strlit("9");
    }
    if d == 0 {
        "0"
    } else if d == 1 {
        "1"
    } else if d == 2 {
        "2"
    } else if d == 3 {
        "3"
    } else if d == 4 {
        "4"
    } else if d == 5 {
        "5"
    } else if d == 6 {
        "6"
    } else if d == 7 {
        "7"
    } else if d == 8 {
        "8"
    } else {
        "9"
    }
}

/// Appends the decimal digits of `n`.
fn append_digits(out: &mut String, n: u64)
    ensures
        final(out)@ == old(out)@ + digits(n as nat),
    decreases n,
{
    if n >= 10 {
        append_digits(out, n / 10);
    }
    out.append(digit_text(n % 10));
    proof {
        assert(final(out)@ =~= old(out)@ + digits(n as nat));
    }
}

/// Appends the decimal text of `n`.
fn append_decimal(out: &mut String, n: i64)
    ensures
        final(out)@ == old(out)@ + decimal(n as int),
{
    if n < 0 {
        proof {
            reveal_strlit("-");
        }
        out.append("-");
        append_digits(out, (-(n as i128)) as u64);
        proof {
            assert(final(out)@ =~= old(out)@ + decimal(n as int));
        }
    } else {
        append_digits(out, n as u64);
    }
}

/// Appends `count` spaces.
fn append_spaces(out: &mut String, count: usize)
    ensures
        final(out)@ == old(out)@ + Seq::new(count as nat, |i: int| ' '),
{
    proof {
        reveal_strlit(" ");
        assert(" "@ =~= seq![' ']);
    }
    let mut k: usize = 0;
    while k < count
        invariant
            k <= count,
            " "@ == seq![' '],
            out@ == old(out)@ + Seq::new(k as nat, |i: int| ' '),
        decreases count - k,
    {
        out.append(" ");
        k = k + 1;
        assert(out@ =~= old(out)@ + Seq::new(k as nat, |i: int| ' '));
    }
}

/// Decimal text of `n`, preceded by spaces up to `width` characters.
fn padded_decimal(n: i64, width: usize) -> (r: String)
    ensures
        r@ == pad_left(decimal(n as int), width as nat),
{
    let mut text = String::new();
    append_decimal(&mut text, n);
    let len = text.as_str().unicode_len();
    let mut out = String::new();
    if len < width {
        append_spaces(&mut out, width - len);
    }
    out.append(text.as_str());
    assert(out@ =~= pad_left(decimal(n as int), width as nat));
    out
}

/// The report line for one reading. A reading with no condition label is
/// malformed and gives `Failure::Parse`; only the first label is shown.
pub fn render_line(record: &WeatherRecord) -> (r: Result<String, Failure>)
    ensures
        record.conditions@.len() == 0 <==> r == Err::<String, Failure>(Failure::Parse),
        r is Err ==> r == Err::<String, Failure>(Failure::Parse),
        record.conditions@.len() > 0 ==> r is Ok,
        r matches Ok(line) ==> line@ == report_line(
            record.name@,
            record.temp_milli as int,
            record.temp_min_milli as int,
            record.temp_max_milli as int,
            record.wind_speed_milli as int,
            record.wind_deg as int,
            record.conditions@[0]@,
        ),
{
    if record.conditions.len() == 0 {
        return Err(Failure::Parse);
    }
    let label = &record.conditions[0];
    let temperature = round_milli(record.temp_milli);
    let mut line = String::new();
    line.append(record.name.as_str());
    let name_len = record.name.as_str().unicode_len();
    if name_len < 12 {
        append_spaces(&mut line, 12 - name_len);
    }
    assert(line@ =~= pad_right(record.name@, 12));
    line.append(" ");
    line.append(padded_decimal(temperature, 2).as_str());
    line.append("°");
    line.append(" ");
    line.append(padded_decimal(round_milli(record.temp_min_milli), 2).as_str());
    line.append("⬇");
    line.append(" ");
    line.append(padded_decimal(round_milli(record.temp_max_milli), 2).as_str());
    line.append("⬆");
    line.append("  ");
    // Every temperature outside the 32-bit range is far outside every band.
    let banded: i32 = if temperature < -100 {
        -100
    } else if temperature > 100 {
        100
    } else {
        temperature as i32
    };
    line.append(emoji_face(banded).as_str());
    line.append("  ");
    append_decimal(&mut line, round_milli(record.wind_speed_milli));
    line.append(emoji_wind_direction(record.wind_deg).as_str());
    line.append("  ");
    line.append(emoji_weather_condition(label).as_str());
    assert(line@ =~= report_line(
        record.name@,
        record.temp_milli as int,
        record.temp_min_milli as int,
        record.temp_max_milli as int,
        record.wind_speed_milli as int,
        record.wind_deg as int,
        label@,
    ));
    Ok(line)
}

/// The closing line that reports the run's duration in milliseconds.
pub fn duration_line(millis: u64) -> (r: String)
    ensures
        r@ == duration_text(millis as nat),
{
    let mut line = String::from_str("Duration ");
    append_digits(&mut line, millis);
    line.append("ms");
    assert(line@ =~= duration_text(millis as nat));
    line
}

} // verus!
