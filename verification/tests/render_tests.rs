use sensor_alert::commands::apply_command;
use sensor_alert::commands::confirm_text;
use sensor_alert::commands::greeting_reply;
use sensor_alert::commands::Command;
use sensor_alert::commands::Reply;
use sensor_alert::render::render_line;
use sensor_alert::render::render_status;
use sensor_alert::render::render_status_with_times;
use sensor_alert::render::status_text;
use sensor_alert::render::tenths_to_string;
use sensor_alert::render::u64_dec;
use sensor_alert::BoundDir;
use sensor_alert::FetchError;
use sensor_alert::Reading;
use sensor_alert::ThresholdStore;

fn reading(sensor_id: &str, metric: &str, value: i64) -> Reading {
    Reading {
        sensor_id: sensor_id.to_owned(),
        metric: metric.to_owned(),
        value,
        observed_at: 1_700_000_000,
    }
}

#[test]
fn decimal_rendering() {
    assert_eq!(u64_dec(0), "0");
    assert_eq!(u64_dec(7), "7");
    assert_eq!(u64_dec(10), "10");
    assert_eq!(u64_dec(90210), "90210");
    assert_eq!(u64_dec(u64::MAX), "18446744073709551615");
}

#[test]
fn tenths_rendering() {
    assert_eq!(tenths_to_string(240), "24.0");
    assert_eq!(tenths_to_string(-35), "-3.5");
    assert_eq!(tenths_to_string(0), "0.0");
    assert_eq!(tenths_to_string(5), "0.5");
    assert_eq!(tenths_to_string(-5), "-0.5");
    assert_eq!(tenths_to_string(1005), "100.5");
    assert_eq!(tenths_to_string(i64::MIN), "-922337203685477580.8");
}

#[test]
fn one_status_line() {
    let line = render_line(&reading("sensor1", "temperature", 240), "01.01.2024 12:00:00");
    assert_eq!(line, "- living room temperature: 24.0 C (01.01.2024 12:00:00)\n");

    let line = render_line(&reading("attic", "humidity", 605), "t");
    assert_eq!(line, "- attic humidity: 60.5 % (t)\n");

    let line = render_line(&reading("attic", "pressure", 605), "t");
    assert_eq!(line, "- attic pressure: 60.5 (t)\n");
}

#[test]
fn whole_status_message() {
    let readings = vec![
        reading("sensor1", "temperature", 240),
        reading("sensor1", "humidity", 605),
    ];
    let times = vec!["t1".to_owned(), "t2".to_owned()];
    let s = render_status_with_times(&readings, &times);
    assert_eq!(
        s,
        "Current sensor readings:\n\
         - living room temperature: 24.0 C (t1)\n\
         - living room humidity: 60.5 % (t2)\n"
    );
}

#[test]
fn status_with_local_times() {
    // The time rendering depends on the machine's time zone; the rest of the
    // message does not.
    let readings = vec![reading("sensor1", "temperature", 240)];
    let s = render_status(&readings);
    assert!(s.starts_with("Current sensor readings:\n- living room temperature: 24.0 C ("));
    assert!(s.ends_with(")\n"));
}

#[test]
fn status_text_reports_fetch_failures() {
    let s = status_text(&Err(FetchError::Transport));
    assert_eq!(s, "Could not retrieve the sensor data.");
    let s = status_text(&Ok(Vec::new()));
    assert_eq!(s, "Current sensor readings:\n");
}

#[test]
fn bound_confirmation_text() {
    let s = confirm_text("sensor1", "temperature", BoundDir::Max, 250);
    assert_eq!(s, "Maximum bound set: temperature of sensor1 at 25.0");
    let s = confirm_text("sensor1", "humidity", BoundDir::Min, 305);
    assert_eq!(s, "Minimum bound set: humidity of sensor1 at 30.5");
}

#[test]
fn commands_drive_the_store() {
    let mut store = ThresholdStore::new();
    let reply = apply_command(
        &mut store,
        42,
        &Command::SetBound {
            sensor_id: "sensor1".to_owned(),
            metric: "temperature".to_owned(),
            dir: BoundDir::Max,
            value: 250,
        },
    );
    match reply {
        Reply::Text(t) => assert_eq!(t, "Maximum bound set: temperature of sensor1 at 25.0"),
        _ => panic!("expected a confirmation text"),
    }
    assert_eq!(store.get(42, "sensor1", "temperature", BoundDir::Max), Some(250));

    match apply_command(&mut store, 42, &Command::Status) {
        Reply::FetchStatus => {}
        _ => panic!("a status request asks the caller to fetch"),
    }
    match apply_command(&mut store, 42, &Command::Start) {
        Reply::Text(t) => assert_eq!(t, "Welcome! Use /help to list the commands."),
        _ => panic!("expected the welcome text"),
    }
    match apply_command(&mut store, 42, &Command::Help) {
        Reply::Text(t) => {
            assert!(t.contains("/status"));
        }
        _ => panic!("expected the help text"),
    }
    // None of the other commands touched the store.
    assert_eq!(store.len(), 1);
}

#[test]
fn greetings_match_case_insensitively() {
    assert_eq!(greeting_reply("hallo"), "👋 Hallo Julia! Wie kann ich helfen?");
    assert_eq!(greeting_reply("HALLO"), "👋 Hallo Julia! Wie kann ich helfen?");
    assert_eq!(greeting_reply("Wie GEHT'S?"), "Mir geht es super! 🤖");
    assert_eq!(greeting_reply("ich liebe dich"), "Ich liebe dich auch");
    assert_eq!(
        greeting_reply("open the pod bay doors"),
        "Ich habe dich nicht verstanden. Nutze /help für Befehle."
    );
}
