use sensor_alert::BoundDir;
use sensor_alert::ThresholdStore;

#[test]
fn set_then_get_returns_the_bound() {
    let mut store = ThresholdStore::new();
    assert_eq!(store.get(1, "sensor1", "temperature", BoundDir::Min), None);
    store.set(1, "sensor1", "temperature", BoundDir::Min, 180);
    assert_eq!(store.get(1, "sensor1", "temperature", BoundDir::Min), Some(180));
    assert_eq!(store.len(), 1);
}

#[test]
fn repeated_identical_sets_are_idempotent() {
    let mut store = ThresholdStore::new();
    for _ in 0..5 {
        store.set(1, "sensor1", "temperature", BoundDir::Max, 250);
    }
    assert_eq!(store.get(1, "sensor1", "temperature", BoundDir::Max), Some(250));
    assert_eq!(store.len(), 1);
}

#[test]
fn last_write_wins() {
    let mut store = ThresholdStore::new();
    store.set(1, "sensor1", "temperature", BoundDir::Max, 250);
    store.set(1, "sensor1", "temperature", BoundDir::Max, 300);
    assert_eq!(store.get(1, "sensor1", "temperature", BoundDir::Max), Some(300));
    assert_eq!(store.len(), 1);
}

#[test]
fn keys_are_independent() {
    let mut store = ThresholdStore::new();
    store.set(1, "sensor1", "temperature", BoundDir::Min, 100);
    store.set(1, "sensor1", "temperature", BoundDir::Max, 250);
    store.set(1, "sensor1", "humidity", BoundDir::Max, 600);
    store.set(2, "sensor1", "temperature", BoundDir::Min, 150);
    assert_eq!(store.len(), 4);
    assert_eq!(store.get(1, "sensor1", "temperature", BoundDir::Min), Some(100));
    assert_eq!(store.get(1, "sensor1", "temperature", BoundDir::Max), Some(250));
    assert_eq!(store.get(1, "sensor1", "humidity", BoundDir::Max), Some(600));
    assert_eq!(store.get(2, "sensor1", "temperature", BoundDir::Min), Some(150));
    assert_eq!(store.get(2, "sensor1", "humidity", BoundDir::Max), None);
}

#[test]
fn clear_removes_one_bound() {
    let mut store = ThresholdStore::new();
    store.set(1, "sensor1", "temperature", BoundDir::Min, 100);
    store.set(1, "sensor1", "temperature", BoundDir::Max, 250);
    store.clear(1, "sensor1", "temperature", BoundDir::Min);
    assert_eq!(store.get(1, "sensor1", "temperature", BoundDir::Min), None);
    assert_eq!(store.get(1, "sensor1", "temperature", BoundDir::Max), Some(250));
    assert_eq!(store.len(), 1);

    // Clearing an absent bound is harmless.
    store.clear(1, "sensor1", "temperature", BoundDir::Min);
    assert_eq!(store.len(), 1);
}

#[test]
fn get_all_returns_only_the_subscribers_rows() {
    let mut store = ThresholdStore::new();
    store.set(1, "sensor1", "temperature", BoundDir::Min, 100);
    store.set(2, "sensor1", "temperature", BoundDir::Min, 150);
    store.set(1, "sensor1", "humidity", BoundDir::Max, 600);

    let mine = store.get_all(1);
    assert_eq!(mine.len(), 2);
    for e in &mine {
        assert_eq!(e.subscriber, 1);
    }
    assert_eq!(mine[0].sensor_id, "sensor1");
    assert_eq!(mine[0].metric, "temperature");
    assert_eq!(mine[0].value, 100);
    assert_eq!(mine[1].metric, "humidity");
    assert_eq!(mine[1].value, 600);

    assert_eq!(store.get_all(3).len(), 0);
}
