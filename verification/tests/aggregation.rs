use distributed_log_processor::aggregator::Aggregator;
use distributed_log_processor::aggregator_mutex::MutexAggregator;
use distributed_log_processor::message::{AccountStats, EntryType, LogEntry};

fn entry(account: &str, amount: i64, entry_type: EntryType) -> LogEntry {
    LogEntry {
        timestamp: 1_705_311_000_000,
        account_id: account.to_string(),
        amount,
        entry_type,
        currency: "USD".to_string(),
    }
}

#[test]
fn new_aggregator_is_empty() {
    let aggregator = Aggregator::new();
    assert_eq!(aggregator.account_count(), 0);
    assert!(aggregator.get_stats("acc_0001").is_none());
}

#[test]
fn deposit_is_added_to_deposits_and_counted() {
    let mut aggregator = Aggregator::new();
    aggregator.process(&entry("acc_0001", 150_000, EntryType::Deposit));
    let stats = aggregator.get_stats("acc_0001").unwrap();
    assert_eq!(stats.total_deposits(), 150_000);
    assert_eq!(stats.total_withdrawals(), 0);
    assert_eq!(stats.transaction_count(), 1);
}

#[test]
fn withdrawal_is_added_to_withdrawals() {
    let mut aggregator = Aggregator::new();
    aggregator.process(&entry("acc_0002", 2_500, EntryType::Withdrawal));
    let stats = aggregator.get_stats("acc_0002").unwrap();
    assert_eq!(stats.total_deposits(), 0);
    assert_eq!(stats.total_withdrawals(), 2_500);
    assert_eq!(stats.transaction_count(), 1);
}

#[test]
fn transfer_and_fee_are_only_counted() {
    let mut aggregator = Aggregator::new();
    aggregator.process(&entry("acc_0003", 700, EntryType::Transfer));
    aggregator.process(&entry("acc_0003", 25, EntryType::Fee));
    let stats = aggregator.get_stats("acc_0003").unwrap();
    assert_eq!(stats.total_deposits(), 0);
    assert_eq!(stats.total_withdrawals(), 0);
    assert_eq!(stats.transaction_count(), 2);
}

#[test]
fn accounts_are_kept_apart() {
    let mut aggregator = Aggregator::new();
    aggregator.process(&entry("acc_0001", 100, EntryType::Deposit));
    aggregator.process(&entry("acc_0002", 200, EntryType::Deposit));
    aggregator.process(&entry("acc_0001", 300, EntryType::Deposit));
    assert_eq!(aggregator.account_count(), 2);
    assert_eq!(aggregator.get_stats("acc_0001").unwrap().total_deposits(), 400);
    assert_eq!(aggregator.get_stats("acc_0002").unwrap().total_deposits(), 200);
    assert_eq!(aggregator.get_stats("acc_0001").unwrap().transaction_count(), 2);
}

#[test]
fn negative_amounts_are_summed_as_given() {
    let mut aggregator = Aggregator::new();
    aggregator.process(&entry("acc_0004", -500, EntryType::Deposit));
    aggregator.process(&entry("acc_0004", 200, EntryType::Deposit));
    assert_eq!(aggregator.get_stats("acc_0004").unwrap().total_deposits(), -300);
}

#[test]
fn extreme_amounts_do_not_overflow() {
    let mut aggregator = Aggregator::new();
    for _ in 0..4 {
        aggregator.process(&entry("acc_big", i64::MAX, EntryType::Deposit));
        aggregator.process(&entry("acc_big", i64::MIN, EntryType::Withdrawal));
    }
    let stats = aggregator.get_stats("acc_big").unwrap();
    assert_eq!(stats.total_deposits(), 4 * (i64::MAX as i128));
    assert_eq!(stats.total_withdrawals(), 4 * (i64::MIN as i128));
    assert_eq!(stats.transaction_count(), 8);
}

#[test]
fn batch_totals_equal_sums_per_account() {
    let entries = vec![
        entry("a", 10, EntryType::Deposit),
        entry("b", 20, EntryType::Withdrawal),
        entry("a", 30, EntryType::Withdrawal),
        entry("c", 40, EntryType::Fee),
        entry("a", 50, EntryType::Deposit),
        entry("b", 60, EntryType::Transfer),
    ];
    let mut aggregator = Aggregator::new();
    for e in &entries {
        aggregator.process(e);
    }
    assert_eq!(aggregator.account_count(), 3);
    for account in ["a", "b", "c"] {
        let mine: Vec<&LogEntry> = entries.iter().filter(|e| e.account_id == account).collect();
        let deposits: i128 = mine
            .iter()
            .filter(|e| e.entry_type == EntryType::Deposit)
            .map(|e| e.amount as i128)
            .sum();
        let withdrawals: i128 = mine
            .iter()
            .filter(|e| e.entry_type == EntryType::Withdrawal)
            .map(|e| e.amount as i128)
            .sum();
        let stats = aggregator.get_stats(account).unwrap();
        assert_eq!(stats.total_deposits(), deposits);
        assert_eq!(stats.total_withdrawals(), withdrawals);
        assert_eq!(stats.transaction_count(), mine.len() as u64);
    }
}

#[test]
fn processing_order_does_not_change_the_result() {
    let first = entry("a", 10, EntryType::Deposit);
    let second = entry("a", 7, EntryType::Withdrawal);
    let third = entry("b", 3, EntryType::Deposit);
    let mut forward = Aggregator::new();
    forward.process(&first);
    forward.process(&second);
    forward.process(&third);
    let mut backward = Aggregator::new();
    backward.process(&third);
    backward.process(&second);
    backward.process(&first);
    for account in ["a", "b"] {
        let f = forward.get_stats(account).unwrap();
        let b = backward.get_stats(account).unwrap();
        assert_eq!(f.total_deposits(), b.total_deposits());
        assert_eq!(f.total_withdrawals(), b.total_withdrawals());
        assert_eq!(f.transaction_count(), b.transaction_count());
    }
}

#[test]
fn mutex_aggregator_counts_distinct_accounts() {
    let mut aggregator = MutexAggregator::new();
    assert_eq!(aggregator.account_count(), 0);
    aggregator.process(&entry("acc_0001", 100, EntryType::Deposit));
    aggregator.process(&entry("acc_0001", 100, EntryType::Fee));
    aggregator.process(&entry("acc_0002", 100, EntryType::Withdrawal));
    assert_eq!(aggregator.account_count(), 2);
}

#[test]
fn default_stats_are_zero() {
    let stats = AccountStats::default();
    assert_eq!(stats.total_deposits(), 0);
    assert_eq!(stats.total_withdrawals(), 0);
    assert_eq!(stats.transaction_count(), 0);
}

#[test]
fn credited_adds_one_entry() {
    let stats = AccountStats::default()
        .credited(&entry("x", 99, EntryType::Deposit))
        .credited(&entry("x", 1, EntryType::Withdrawal));
    assert_eq!(stats.total_deposits(), 99);
    assert_eq!(stats.total_withdrawals(), 1);
    assert_eq!(stats.transaction_count(), 2);
}

#[test]
fn entry_type_names_match_message_format() {
    assert_eq!(EntryType::Deposit.name(), "deposit");
    assert_eq!(EntryType::Withdrawal.name(), "withdrawal");
    assert_eq!(EntryType::Transfer.name(), "transfer");
    assert_eq!(EntryType::Fee.name(), "fee");
}

#[test]
fn account_count_grows_only_for_new_accounts() {
    let mut aggregator = Aggregator::new();
    let mut mutex_aggregator = MutexAggregator::new();
    let entries = [
        entry("acc_0001", 1, EntryType::Deposit),
        entry("acc_0001", 2, EntryType::Fee),
        entry("acc_0002", 3, EntryType::Withdrawal),
        entry("acc_0001", 4, EntryType::Transfer),
    ];
    let expected = [1usize, 1, 2, 2];
    for (e, n) in entries.iter().zip(expected) {
        aggregator.process(e);
        mutex_aggregator.process(e);
        assert_eq!(aggregator.account_count(), n);
        assert_eq!(mutex_aggregator.account_count(), n);
    }
}

#[test]
fn both_aggregators_agree_on_a_sequence() {
    let names = ["a", "b", "c", "d"];
    let kinds = [EntryType::Deposit, EntryType::Withdrawal, EntryType::Transfer, EntryType::Fee];
    let mut aggregator = Aggregator::new();
    let mut mutex_aggregator = MutexAggregator::new();
    for i in 0..40i64 {
        let e = entry(names[(i * 7 % 4) as usize], i * 13 - 100, kinds[(i % 4) as usize]);
        aggregator.process(&e);
        mutex_aggregator.process(&e);
        assert_eq!(aggregator.account_count(), mutex_aggregator.account_count());
    }
}

#[test]
fn other_accounts_are_untouched() {
    let mut aggregator = Aggregator::new();
    let mut mutex_aggregator = MutexAggregator::new();
    aggregator.process(&entry("keep", 5, EntryType::Deposit));
    mutex_aggregator.process(&entry("keep", 5, EntryType::Deposit));
    aggregator.process(&entry("other", 9, EntryType::Withdrawal));
    mutex_aggregator.process(&entry("other", 9, EntryType::Withdrawal));
    for stats in [aggregator.get_stats("keep").unwrap(), mutex_aggregator.get_stats("keep").unwrap()] {
        assert_eq!(stats.total_deposits(), 5);
        assert_eq!(stats.total_withdrawals(), 0);
        assert_eq!(stats.transaction_count(), 1);
    }
    assert!(aggregator.get_stats("absent").is_none());
    assert!(mutex_aggregator.get_stats("absent").is_none());
}
