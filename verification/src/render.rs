use vstd::prelude::*;

use crate::model::BoundDir;
use crate::model::FetchError;
use crate::model::Notification;
use crate::model::NotificationV;
use crate::model::Reading;
use crate::model::str_eq;
use vstd::string::StringExecFns;

verus! {

/// The character of one decimal digit.
pub open spec fn digit_char(d: nat) -> char {
    if d == 0 {
        '0'
    } else if d == 1 {
        '1'
    } else if d == 2 {
        '2'
    } else if d == 3 {
        '3'
    } else if d == 4 {
        '4'
    } else if d == 5 {
        '5'
    } else if d == 6 {
        '6'
    } else if d == 7 {
        '7'
    } else if d == 8 {
        '8'
    } else {
        '9'
    }
}

/// The decimal digits of `n`, most significant first.
pub open spec fn dec_str(n: nat) -> Seq<char>
    decreases n,
{
    if n < 10 {
        seq![digit_char(n)]
    } else {
        dec_str(n / 10).push(digit_char(n % 10))
    }
}

/// The rendering of a fixed-point value in tenths: optional sign, integer
/// part, a decimal point, and the tenths digit (240 renders as "24.0",
/// -35 as "-3.5").
pub open spec fn tenths_str(v: int) -> Seq<char> {
    let m = if v < 0 { -v } else { v };
    let digits = dec_str((m / 10) as nat).push('.').push(digit_char((m % 10) as nat));
    if v < 0 {
        seq!['-'] + digits
    } else {
        digits
    }
}

fn digit_lit(d: u64) -> (s: &'static str)
    requires
        d < 10,
    ensures
        s@ == seq![digit_char(d as nat)],
{
    if d == 0 {
        proof { reveal_strlit("0"); }
        assert("0"@ =~= seq![digit_char(0)]);
        "0"
    } else if d == 1 {
        proof { reveal_strlit("1"); }
        assert("1"@ =~= seq![digit_char(1)]);
        "1"
    } else if d == 2 {
        proof { reveal_strlit("2"); }
        assert("2"@ =~= seq![digit_char(2)]);
        "2"
    } else if d == 3 {
        proof { reveal_strlit("3"); }
        assert("3"@ =~= seq![digit_char(3)]);
        "3"
    } else if d == 4 {
        proof { reveal_strlit("4"); }
        assert("4"@ =~= seq![digit_char(4)]);
        "4"
    } else if d == 5 {
        proof { reveal_strlit("5"); }
        assert("5"@ =~= seq![digit_char(5)]);
        "5"
    } else if d == 6 {
        proof { reveal_strlit("6"); }
        assert("6"@ =~= seq![digit_char(6)]);
        "6"
    } else if d == 7 {
        proof { reveal_strlit("7"); }
        assert("7"@ =~= seq![digit_char(7)]);
        "7"
    } else if d == 8 {
        proof { reveal_strlit("8"); }
        assert("8"@ =~= seq![digit_char(8)]);
        "8"
    } else {
        proof { reveal_strlit("9"); }
        assert("9"@ =~= seq![digit_char(9)]);
        "9"
    }
}

/// The decimal rendering of an unsigned number.
pub fn u64_dec(n: u64) -> (s: String)
    ensures
        s@ == dec_str(n as nat),
    decreases n,
{
    if n < 10 {
        digit_lit(n).to_owned()
    } else {
        let q: u64 = n / 10;
        let d: u64 = n % 10;
        assert(q as nat == (n as nat) / 10);
        assert(d as nat == (n as nat) % 10);
        let prefix = u64_dec(q);
        let s = prefix.concat(digit_lit(d));
        assert(s@ =~= dec_str((n as nat) / 10).push(digit_char((n as nat) % 10)));
        s
    }
}

/// The rendering of a fixed-point tenths value.
pub fn tenths_to_string(v: i64) -> (s: String)
    ensures
        s@ == tenths_str(v as int),
{
    let wide: i128 = v as i128;
    let mag: u64 = if wide < 0 {
        (-wide) as u64
    } else {
        wide as u64
    };
    assert(mag as int == (if v < 0 { -(v as int) } else { v as int }));
    let digits = u64_dec(mag / 10).concat(".").concat(digit_lit(mag % 10));
    proof {
        assert((mag / 10) as nat == (mag as nat) / 10);
        assert((mag % 10) as nat == (mag as nat) % 10);
        reveal_strlit(".");
        assert("."@ =~= seq!['.']);
        assert(digits@ =~= dec_str((mag as nat) / 10).push('.').push(digit_char((mag as nat) % 10)));
    }
    if v < 0 {
        let s = "-".to_owned().concat(digits.as_str());
        proof {
            reveal_strlit("-");
            assert("-"@ =~= seq!['-']);
            assert(s@ =~= tenths_str(v as int));
        }
        s
    } else {
        assert(digits@ =~= tenths_str(v as int));
        digits
    }
}

/// The display name of a sensor: the one known sensor has a room name, any
/// other is shown by its identifier.
pub open spec fn sensor_label_spec(id: Seq<char>) -> Seq<char> {
    if id == "sensor1"@ {
        "living room"@
    } else {
        id
    }
}

/// The display name of a metric.
pub open spec fn metric_name_spec(m: Seq<char>) -> Seq<char> {
    if m == "temperature"@ {
        "temperature"@
    } else if m == "humidity"@ {
        "humidity"@
    } else {
        m
    }
}

/// The unit a metric is shown with.
pub open spec fn metric_unit_spec(m: Seq<char>) -> Seq<char> {
    if m == "temperature"@ {
        " C"@
    } else if m == "humidity"@ {
        " %"@
    } else {
        ""@
    }
}

/// The display name of a sensor.
pub fn sensor_label<'a>(id: &'a str) -> (r: &'a str)
    ensures
        r@ == sensor_label_spec(id@),
{
    if str_eq(id, "sensor1") {
        "living room"
    } else {
        id
    }
}

/// The display name of a metric.
pub fn metric_name<'a>(m: &'a str) -> (r: &'a str)
    ensures
        r@ == metric_name_spec(m@),
{
    if str_eq(m, "temperature") {
        "temperature"
    } else if str_eq(m, "humidity") {
        "humidity"
    } else {
        m
    }
}

/// The unit a metric is shown with.
pub fn metric_unit(m: &str) -> (r: &'static str)
    ensures
        r@ == metric_unit_spec(m@),
{
    if str_eq(m, "temperature") {
        " C"
    } else if str_eq(m, "humidity") {
        " %"
    } else {
        ""
    }
}

/// One rendered status line for a reading, with an already rendered
/// observation time.
pub open spec fn line_spec(r: Reading, time: Seq<char>) -> Seq<char> {
    "- "@ + sensor_label_spec(r.sensor_id@) + " "@ + metric_name_spec(r.metric@) + ": "@
        + tenths_str(r.value as int) + metric_unit_spec(r.metric@) + " ("@ + time + ")\n"@
}

/// Renders one status line.
pub fn render_line(r: &Reading, time: &str) -> (s: String)
    ensures
        s@ == line_spec(*r, time@),
{
    let mut s: String = "- ".to_owned();
    s.append(sensor_label(r.sensor_id.as_str()));
    s.append(" ");
    s.append(metric_name(r.metric.as_str()));
    s.append(": ");
    let value = tenths_to_string(r.value);
    s.append(value.as_str());
    s.append(metric_unit(r.metric.as_str()));
    s.append(" (");
    s.append(time);
    s.append(")\n");
    assert(s@ =~= line_spec(*r, time@));
    s
}

/// The rendered status lines of a list of readings, each with its rendered
/// observation time.
pub open spec fn lines_spec(rs: Seq<Reading>, times: Seq<String>) -> Seq<char>
    decreases rs.len(),
{
    if rs.len() == 0 {
        Seq::empty()
    } else {
        lines_spec(rs.drop_last(), times.drop_last()) + line_spec(rs.last(), times.last()@)
    }
}

/// The full status message: a header line, then one line per reading.
pub open spec fn status_spec(rs: Seq<Reading>, times: Seq<String>) -> Seq<char> {
    "Current sensor readings:\n"@ + lines_spec(rs, times)
}

/// Renders the status message from readings and their already rendered
/// observation times — the verified part of the on-demand status path.
pub fn render_status_with_times(readings: &Vec<Reading>, times: &Vec<String>) -> (s: String)
    requires
        times@.len() == readings@.len(),
    ensures
        s@ == status_spec(readings@, times@),
{
    let n: usize = readings.len();
    let mut s: String = "Current sensor readings:\n".to_owned();
    let mut i: usize = 0;
    proof {
        assert(readings@.take(0) =~= Seq::<Reading>::empty());
        assert(times@.take(0) =~= Seq::<String>::empty());
        assert(s@ =~= "Current sensor readings:\n"@ + lines_spec(readings@.take(0), times@.take(0)));
    }
    while i < n
        invariant
            n == readings@.len(),
            times@.len() == readings@.len(),
            0 <= i <= n,
            s@ == "Current sensor readings:\n"@ + lines_spec(readings@.take(i as int), times@.take(i as int)),
        decreases n - i,
    {
        let line = render_line(&readings[i], times[i].as_str());
        s.append(line.as_str());
        proof {
            assert(readings@.take(i + 1).drop_last() =~= readings@.take(i as int));
            assert(times@.take(i + 1).drop_last() =~= times@.take(i as int));
            assert(readings@.take(i + 1).last() == readings@[i as int]);
            assert(times@.take(i + 1).last() == times@[i as int]);
            assert(s@ =~= "Current sensor readings:\n"@ + lines_spec(readings@.take(i + 1), times@.take(i + 1)));
        }
        i = i + 1;
    }
    proof {
        assert(readings@.take(n as int) =~= readings@);
        assert(times@.take(n as int) =~= times@);
    }
    s
}

/// Relies on chrono (`DateTime::from_timestamp`, the `Local` time zone and
/// `format`) to render an epoch timestamp as local wall-clock time. The
/// result depends on the machine's time zone, so nothing is promised of it.
/// chrono aborts the process if the machine's time-zone data is unusable —
/// an environmental failure, like running out of memory.
#[verifier::external_body]
fn local_time_string(epoch: i64) -> String {
    let utc = chrono::DateTime::from_timestamp(epoch, 0)
        .unwrap_or_else(|| chrono::DateTime::from_timestamp(0, 0).unwrap());
    let local = utc.with_timezone(&chrono::Local);
    local.format("%d.%m.%Y %H:%M:%S").to_string()
}

/// Renders the status message, formatting each reading's observation time in
/// the machine's local time zone. Whatever those time renderings are, the
/// message is the exact status rendering of the readings with them.
pub fn render_status(readings: &Vec<Reading>) -> (s: String)
    ensures
        exists|ts: Seq<String>|
            ts.len() == readings@.len() && s@ == status_spec(readings@, ts),
{
    let n: usize = readings.len();
    let mut times: Vec<String> = Vec::new();
    let mut i: usize = 0;
    while i < n
        invariant
            n == readings@.len(),
            0 <= i <= n,
            times@.len() == i,
        decreases n - i,
    {
        times.push(local_time_string(readings[i].observed_at));
        i = i + 1;
    }
    let s = render_status_with_times(readings, &times);
    proof {
        let ts = times@;
        assert(ts.len() == readings@.len() && s@ == status_spec(readings@, ts));
    }
    s
}

/// The text of one alert notification.
pub open spec fn note_text_spec(n: NotificationV) -> Seq<char> {
    "Alert: "@ + metric_name_spec(n.metric) + " of "@ + sensor_label_spec(n.sensor_id) + (match n.dir {
        BoundDir::Min => " fell below "@,
        BoundDir::Max => " rose above "@,
    }) + tenths_str(n.bound) + ": "@ + tenths_str(n.value)
}

/// Renders the text of one alert notification.
pub fn notification_text(n: &Notification) -> (s: String)
    ensures
        s@ == note_text_spec(n@),
{
    let mut s: String = "Alert: ".to_owned();
    s.append(metric_name(n.metric.as_str()));
    s.append(" of ");
    s.append(sensor_label(n.sensor_id.as_str()));
    s.append(match n.dir {
        BoundDir::Min => " fell below ",
        BoundDir::Max => " rose above ",
    });
    let bound = tenths_to_string(n.bound);
    s.append(bound.as_str());
    s.append(": ");
    let value = tenths_to_string(n.value);
    s.append(value.as_str());
    assert(s@ =~= note_text_spec(n@));
    s
}

/// The text answering an on-demand status request: the rendering of fresh
/// readings, or an explicit failure notice — never stale or partial data.
pub fn status_text(result: &Result<Vec<Reading>, FetchError>) -> (s: String)
    ensures
        match result {
            Ok(rs) => exists|ts: Seq<String>| ts.len() == rs@.len() && s@ == status_spec(rs@, ts),
            Err(_) => s@ == "Could not retrieve the sensor data."@,
        },
{
    match result {
        Ok(rs) => render_status(rs),
        Err(_) => "Could not retrieve the sensor data.".to_owned(),
    }
}

} // verus!
