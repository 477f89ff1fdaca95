use dobby_backend::collector::{check_memory, sum_network_totals, FakeCollector, NetworkCounters, NetworkTotals};
use dobby_backend::domain::AppError;

#[derive(Debug, Clone, PartialEq)]
struct Sample {
    timestamp: i64,
    cpu_percent: f32,
}

fn sample(ts: i64, cpu: f32) -> Sample {
    Sample {
        timestamp: ts,
        cpu_percent: cpu,
    }
}

#[test]
fn fake_collector_returns_sequence_in_order() {
    let mut fake = FakeCollector::from_samples(vec![
        sample(100, 10.0),
        sample(200, 20.0),
        sample(300, 30.0),
    ]);
    assert_eq!(fake.remaining(), 3);
    assert_eq!(fake.collect().unwrap().timestamp, 100);
    assert_eq!(fake.collect().unwrap().cpu_percent, 20.0);
    assert_eq!(fake.collect().unwrap().timestamp, 300);
    assert!(matches!(fake.collect(), Err(AppError::Collect(_))));
}

#[test]
fn fake_collector_surfaces_configured_error() {
    let mut fake = FakeCollector::new(vec![
        Ok(sample(1, 1.0)),
        Err(AppError::Collect("boom".to_string())),
        Ok(sample(3, 3.0)),
    ]);
    assert_eq!(fake.collect().unwrap().timestamp, 1);
    let err = fake.collect().unwrap_err();
    assert!(matches!(err, AppError::Collect(ref m) if m == "boom"));
    assert_eq!(fake.collect().unwrap().timestamp, 3);
}

#[test]
fn fake_collector_exhaustion_message_and_remaining() {
    let mut fake: FakeCollector<Sample> = FakeCollector::new(vec![]);
    assert_eq!(fake.remaining(), 0);
    match fake.collect() {
        Err(AppError::Collect(m)) => assert_eq!(m, "FakeCollector sequence exhausted"),
        other => panic!("unexpected {other:?}"),
    }
    assert_eq!(fake.remaining(), 0);
}

#[test]
fn zero_total_memory_is_a_collect_error() {
    match check_memory(0) {
        Err(AppError::Collect(m)) => assert_eq!(m, "sysinfo reported zero total memory"),
        other => panic!("unexpected {other:?}"),
    }
    assert!(check_memory(1).is_ok());
}

#[test]
fn network_totals_sum_and_saturate() {
    assert_eq!(sum_network_totals(&vec![]), (0, 0));
    assert_eq!(sum_network_totals(&vec![(1, 2), (10, 20), (100, 200)]), (111, 222));
    assert_eq!(sum_network_totals(&vec![(u64::MAX, 1), (5, 1)]), (u64::MAX, 2));
}

#[test]
fn network_counters_hand_back_the_previous_reading() {
    let mut c = NetworkCounters::new();
    let first = NetworkTotals { rx_bytes: 10, tx_bytes: 20, timestamp: 100 };
    let second = NetworkTotals { rx_bytes: 30, tx_bytes: 40, timestamp: 110 };
    assert_eq!(c.record(first), None);
    assert_eq!(c.record(second), Some(first));
    assert_eq!(c.record(first), Some(second));
}
