use sensor_alert::engine::apply_fetch;
use sensor_alert::engine::evaluate_tick;
use sensor_alert::AlertFlagTable;
use sensor_alert::BoundDir;
use sensor_alert::FetchError;
use sensor_alert::Reading;
use sensor_alert::ThresholdStore;

fn reading(sensor_id: &str, metric: &str, value: i64) -> Reading {
    Reading {
        sensor_id: sensor_id.to_owned(),
        metric: metric.to_owned(),
        value,
        observed_at: 1_700_000_000,
    }
}

#[test]
fn min_violation_fires_once_then_suppresses() {
    let mut store = ThresholdStore::new();
    let mut flags = AlertFlagTable::new();
    store.set(1, "sensor1", "temperature", BoundDir::Min, 180);

    // 17.5 < 18.0: first tick notifies.
    let notes = evaluate_tick(&vec![reading("sensor1", "temperature", 175)], &store, &mut flags);
    assert_eq!(notes.len(), 1);
    assert_eq!(notes[0].subscriber, 1);
    assert_eq!(notes[0].value, 175);
    assert_eq!(notes[0].bound, 180);
    assert!(matches!(notes[0].dir, BoundDir::Min));

    // Same sustained violation: no repeat notification.
    let notes = evaluate_tick(&vec![reading("sensor1", "temperature", 175)], &store, &mut flags);
    assert_eq!(notes.len(), 0);
}

#[test]
fn min_bound_is_strict() {
    let mut store = ThresholdStore::new();
    let mut flags = AlertFlagTable::new();
    store.set(1, "sensor1", "temperature", BoundDir::Min, 180);

    // Exactly at the bound: no violation.
    let notes = evaluate_tick(&vec![reading("sensor1", "temperature", 180)], &store, &mut flags);
    assert_eq!(notes.len(), 0);

    // One tenth below: violation.
    let notes = evaluate_tick(&vec![reading("sensor1", "temperature", 179)], &store, &mut flags);
    assert_eq!(notes.len(), 1);
}

#[test]
fn clearing_rearms_the_alert() {
    // Flag transitions false -> true -> false -> true give exactly two
    // notifications.
    let mut store = ThresholdStore::new();
    let mut flags = AlertFlagTable::new();
    store.set(9, "sensor1", "humidity", BoundDir::Max, 600);

    let mut total: usize = 0;
    for value in [650, 655, 580, 650] {
        total += evaluate_tick(&vec![reading("sensor1", "humidity", value)], &store, &mut flags).len();
    }
    assert_eq!(total, 2);
}

#[test]
fn max_temperature_scenario() {
    // Subscriber sets max temperature 25.0 for sensor1.
    let mut store = ThresholdStore::new();
    let mut flags = AlertFlagTable::new();
    store.set(5, "sensor1", "temperature", BoundDir::Max, 250);

    // Tick 1: 26.0 -> notification, flag raised.
    let notes = evaluate_tick(&vec![reading("sensor1", "temperature", 260)], &store, &mut flags);
    assert_eq!(notes.len(), 1);
    assert_eq!(notes[0].value, 260);
    assert_eq!(flags.get(5, "sensor1", "temperature", BoundDir::Max), Some(true));

    // Tick 2: 27.0 -> no notification, flag stays raised.
    let notes = evaluate_tick(&vec![reading("sensor1", "temperature", 270)], &store, &mut flags);
    assert_eq!(notes.len(), 0);
    assert_eq!(flags.get(5, "sensor1", "temperature", BoundDir::Max), Some(true));

    // Tick 3: 24.0 -> flag resets, no notification.
    let notes = evaluate_tick(&vec![reading("sensor1", "temperature", 240)], &store, &mut flags);
    assert_eq!(notes.len(), 0);
    assert_eq!(flags.get(5, "sensor1", "temperature", BoundDir::Max), Some(false));

    // Tick 4: 30.0 -> notification again.
    let notes = evaluate_tick(&vec![reading("sensor1", "temperature", 300)], &store, &mut flags);
    assert_eq!(notes.len(), 1);
    assert_eq!(notes[0].value, 300);
}

#[test]
fn two_subscribers_with_independent_bounds() {
    let mut store = ThresholdStore::new();
    let mut flags = AlertFlagTable::new();
    store.set(1, "sensor1", "temperature", BoundDir::Max, 250);
    store.set(2, "sensor1", "temperature", BoundDir::Max, 280);

    // 26.0 violates only subscriber 1's bound.
    let notes = evaluate_tick(&vec![reading("sensor1", "temperature", 260)], &store, &mut flags);
    assert_eq!(notes.len(), 1);
    assert_eq!(notes[0].subscriber, 1);
    assert_eq!(notes[0].bound, 250);

    // 29.0 violates both; subscriber 1 is already alerting, so only
    // subscriber 2 is notified, against its own bound.
    let notes = evaluate_tick(&vec![reading("sensor1", "temperature", 290)], &store, &mut flags);
    assert_eq!(notes.len(), 1);
    assert_eq!(notes[0].subscriber, 2);
    assert_eq!(notes[0].bound, 280);
}

#[test]
fn both_subscribers_notified_when_both_violated() {
    let mut store = ThresholdStore::new();
    let mut flags = AlertFlagTable::new();
    store.set(1, "sensor1", "temperature", BoundDir::Max, 250);
    store.set(2, "sensor1", "temperature", BoundDir::Max, 280);

    let notes = evaluate_tick(&vec![reading("sensor1", "temperature", 290)], &store, &mut flags);
    assert_eq!(notes.len(), 2);
    let subs: Vec<i64> = notes.iter().map(|n| n.subscriber).collect();
    assert!(subs.contains(&1));
    assert!(subs.contains(&2));
    for n in &notes {
        let expected = if n.subscriber == 1 { 250 } else { 280 };
        assert_eq!(n.bound, expected);
    }
}

#[test]
fn unrelated_readings_and_bounds_do_not_interact() {
    let mut store = ThresholdStore::new();
    let mut flags = AlertFlagTable::new();
    store.set(1, "sensor1", "temperature", BoundDir::Max, 250);

    // Different sensor, different metric: no match, no flag, no note.
    let notes = evaluate_tick(
        &vec![reading("sensor2", "temperature", 900), reading("sensor1", "humidity", 900)],
        &store,
        &mut flags,
    );
    assert_eq!(notes.len(), 0);
    assert_eq!(flags.get(1, "sensor1", "temperature", BoundDir::Max), None);
}

#[test]
fn fetch_failure_changes_nothing() {
    let mut store = ThresholdStore::new();
    let mut flags = AlertFlagTable::new();
    store.set(3, "sensor1", "temperature", BoundDir::Max, 250);

    // Raise a flag first.
    let notes = apply_fetch(&Ok(vec![reading("sensor1", "temperature", 260)]), &store, &mut flags);
    assert_eq!(notes.len(), 1);
    assert_eq!(flags.get(3, "sensor1", "temperature", BoundDir::Max), Some(true));

    // A transport failure: no notifications, flag state untouched.
    let notes = apply_fetch(&Err(FetchError::Transport), &store, &mut flags);
    assert_eq!(notes.len(), 0);
    assert_eq!(flags.get(3, "sensor1", "temperature", BoundDir::Max), Some(true));

    // A decode failure likewise.
    let notes = apply_fetch(&Err(FetchError::Decode), &store, &mut flags);
    assert_eq!(notes.len(), 0);
    assert_eq!(flags.get(3, "sensor1", "temperature", BoundDir::Max), Some(true));
}

#[test]
fn empty_inputs_are_quiet() {
    let store = ThresholdStore::new();
    let mut flags = AlertFlagTable::new();
    let notes = evaluate_tick(&vec![reading("sensor1", "temperature", 260)], &store, &mut flags);
    assert_eq!(notes.len(), 0);

    let mut store = ThresholdStore::new();
    store.set(1, "sensor1", "temperature", BoundDir::Max, 250);
    let notes = evaluate_tick(&Vec::new(), &store, &mut flags);
    assert_eq!(notes.len(), 0);
}
