use std::time::Duration;

use distributed_log_processor::metrics::{Metrics, ReportWindow};

#[test]
fn new_metrics_are_zero() {
    let metrics = Metrics::new();
    assert_eq!(metrics.snapshot(), (0, 0));
}

#[test]
fn record_processed_counts_and_sums_micros() {
    let mut metrics = Metrics::new();
    metrics.record_processed(Duration::from_micros(1_500));
    metrics.record_processed(Duration::from_millis(2));
    metrics.record_processed(Duration::from_nanos(999));
    assert_eq!(metrics.messages_processed, 3);
    assert_eq!(metrics.total_latency_us, 3_500);
    assert_eq!(metrics.snapshot(), (3, 3_500));
}

#[test]
fn whole_seconds_are_converted_to_micros() {
    let mut metrics = Metrics::new();
    metrics.record_processed(Duration::new(2, 345_678_000));
    assert_eq!(metrics.total_latency_us, 2_345_678);
}

#[test]
fn counters_wrap_around() {
    let mut metrics = Metrics { messages_processed: u64::MAX, total_latency_us: u64::MAX - 1 };
    metrics.record_processed(Duration::from_micros(3));
    assert_eq!(metrics.messages_processed, 0);
    assert_eq!(metrics.total_latency_us, 1);
}

#[test]
fn huge_durations_are_truncated_to_64_bits() {
    let mut metrics = Metrics::new();
    let d = Duration::new(u64::MAX, 0);
    let micros = d.as_micros();
    metrics.record_processed(d);
    assert_eq!(metrics.total_latency_us, micros as u64);
}

#[test]
fn window_counts_growth_since_last_report() {
    let mut window = ReportWindow::new();
    assert_eq!(window.observe(100), 100);
    assert_eq!(window.observe(250), 150);
    assert_eq!(window.observe(250), 0);
    assert_eq!(window.previous_count, 250);
}

#[test]
fn window_never_goes_negative() {
    let mut window = ReportWindow { previous_count: 500 };
    assert_eq!(window.observe(10), 0);
    assert_eq!(window.previous_count, 10);
}

#[test]
fn windows_add_up_to_total_growth() {
    let totals = [5u64, 5, 17, 40, 41, 100];
    let mut window = ReportWindow::new();
    let sum: u64 = totals.iter().map(|t| window.observe(*t)).sum();
    assert_eq!(sum, 100);
}
