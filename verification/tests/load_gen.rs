use rand::rngs::StdRng;
use rand::SeedableRng;

use distributed_log_processor::load_gen::{
    entry_json, entry_type_at, errors_when_unreachable, make_entry_json, ClientTally,
};
use distributed_log_processor::message::EntryType;

#[test]
fn entry_json_has_the_message_format() {
    assert_eq!(
        entry_json(1, 150_000, EntryType::Deposit),
        r#"{"timestamp":"2024-01-15T09:30:00Z","account_id":"acc_0001","amount":1500.00,"type":"deposit","currency":"USD"}"#
    );
}

#[test]
fn entry_json_pads_and_formats_amounts() {
    assert_eq!(
        entry_json(42, 1_005, EntryType::Fee),
        r#"{"timestamp":"2024-01-15T09:30:00Z","account_id":"acc_0042","amount":10.05,"type":"fee","currency":"USD"}"#
    );
    assert_eq!(
        entry_json(999, 5_000_000, EntryType::Withdrawal),
        r#"{"timestamp":"2024-01-15T09:30:00Z","account_id":"acc_0999","amount":50000.00,"type":"withdrawal","currency":"USD"}"#
    );
    assert_eq!(
        entry_json(12345, 7, EntryType::Transfer),
        r#"{"timestamp":"2024-01-15T09:30:00Z","account_id":"acc_12345","amount":0.07,"type":"transfer","currency":"USD"}"#
    );
}

#[test]
fn entry_json_matches_std_formatting() {
    for (n, cents) in [(0u64, 0u64), (7, 1_000), (10, 123_456), (100, 4_999_999), (1000, 99)] {
        let expected = format!(
            r#"{{"timestamp":"2024-01-15T09:30:00Z","account_id":"acc_{:04}","amount":{}.{:02},"type":"fee","currency":"USD"}}"#,
            n,
            cents / 100,
            cents % 100
        );
        assert_eq!(entry_json(n, cents, EntryType::Fee), expected);
    }
}

#[test]
fn entry_types_are_indexed_in_order() {
    assert_eq!(entry_type_at(0), EntryType::Deposit);
    assert_eq!(entry_type_at(1), EntryType::Withdrawal);
    assert_eq!(entry_type_at(2), EntryType::Transfer);
    assert_eq!(entry_type_at(3), EntryType::Fee);
}

#[test]
fn random_entries_are_valid_messages() {
    let mut rng = StdRng::seed_from_u64(7);
    for _ in 0..200 {
        let line = make_entry_json(&mut rng);
        let value: serde_json::Value = serde_json::from_str(&line).unwrap();
        let account = value["account_id"].as_str().unwrap();
        assert_eq!(account.len(), 8);
        let n: u64 = account[4..].parse().unwrap();
        assert!(account.starts_with("acc_") && n < 1000);
        let amount = value["amount"].as_f64().unwrap();
        assert!((10.0..=50000.0).contains(&amount));
        let kind = value["type"].as_str().unwrap();
        assert!(["deposit", "withdrawal", "transfer", "fee"].contains(&kind));
        assert_eq!(value["currency"], "USD");
        assert_eq!(value["timestamp"], "2024-01-15T09:30:00Z");
    }
}

#[test]
fn unreachable_server_errors() {
    assert_eq!(errors_when_unreachable(1000, None), 1000);
    assert_eq!(errors_when_unreachable(1000, Some(30)), 1);
    assert_eq!(errors_when_unreachable(0, None), 0);
}

#[test]
fn tally_counts_writes_and_stops_on_failure() {
    let mut tally = ClientTally::new(10, None);
    assert!(tally.record_write(true));
    assert!(tally.record_write(true));
    assert!(!tally.record_write(false));
    assert_eq!((tally.sent(), tally.errors()), (2, 1));
    assert!(!tally.wants_another(true));
    assert_eq!(tally.finish(false), (2, 2));
}

#[test]
fn successful_flush_adds_no_error() {
    let mut tally = ClientTally::new(3, None);
    assert!(tally.record_write(true));
    assert_eq!(tally.finish(true), (1, 0));
}

#[test]
fn counted_run_stops_after_the_planned_messages() {
    let mut tally = ClientTally::new(3, None);
    let mut written = 0;
    while tally.wants_another(true) {
        tally.record_write(true);
        written += 1;
    }
    assert_eq!(written, 3);
    assert_eq!(tally.finish(true), (3, 0));
}

#[test]
fn timed_run_follows_the_clock() {
    let mut tally = ClientTally::new(1, Some(5));
    for _ in 0..10 {
        assert!(tally.wants_another(true));
        tally.record_write(true);
    }
    assert!(!tally.wants_another(false));
    assert_eq!(tally.finish(true), (10, 0));
}

#[test]
fn counted_run_with_failure_stays_within_plan() {
    let outcomes = [true, true, false, true];
    let mut tally = ClientTally::new(5, None);
    let mut i = 0;
    while tally.wants_another(false) && i < outcomes.len() {
        let go_on = tally.record_write(outcomes[i]);
        i += 1;
        if !go_on {
            break;
        }
    }
    let (sent, errors) = tally.finish(false);
    assert_eq!((sent, errors), (2, 2));
    assert!(sent + errors <= 5 + 1);
}

#[test]
fn generated_lines_are_single_lines() {
    let mut rng = StdRng::seed_from_u64(11);
    for _ in 0..100 {
        assert!(!make_entry_json(&mut rng).contains('\n'));
    }
}
