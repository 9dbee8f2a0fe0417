//! The records the processor ingests and the per-account statistics it keeps.
//!
//! Amounts are fixed-point integers: an `amount` of `150075` stands for
//! `1500.75` units of the entry's currency (hundredths of a unit).
use vstd::prelude::*;

verus! {

/// The kind of a ledger entry, as written in the `type` field of a message
/// (`deposit`, `withdrawal`, `transfer`, `fee`).
#[derive(Clone, Copy, Debug, PartialEq, Eq, Structural)]
pub enum EntryType {
    Deposit,
    Withdrawal,
    Transfer,
    Fee,
}

/// The name of an entry type in a message's `type` field.
pub open spec fn entry_type_name(t: EntryType) -> Seq<char> {
    match t {
        EntryType::Deposit => "deposit"@,
        EntryType::Withdrawal => "withdrawal"@,
        EntryType::Transfer => "transfer"@,
        EntryType::Fee => "fee"@,
    }
}

impl EntryType {
    /// The lower-case name that messages use for this type.
    pub fn name(&self) -> (r: &'static str)
        ensures
            r@ == entry_type_name(*self),
    {
        match self {
            EntryType::Deposit => "deposit",
            EntryType::Withdrawal => "withdrawal",
            EntryType::Transfer => "transfer",
            EntryType::Fee => "fee",
        }
    }
}

/// One structured log message.
#[derive(Clone, Debug)]
pub struct LogEntry {
    /// Milliseconds since the Unix epoch (UTC).
    pub timestamp: i64,
    pub account_id: String,
    /// Hundredths of a currency unit.
    pub amount: i64,
    pub entry_type: EntryType,
    pub currency: String,
}

/// The mathematical value of an [`AccountStats`].
pub struct StatsView {
    pub total_deposits: int,
    pub total_withdrawals: int,
    pub transaction_count: nat,
}

/// Largest magnitude of one amount (`|i64::MIN|`).
pub open spec fn amount_bound() -> int {
    0x8000_0000_0000_0000
}

/// The statistics of an account that has seen no entry.
pub open spec fn empty_stats() -> StatsView {
    StatsView { total_deposits: 0, total_withdrawals: 0, transaction_count: 0 }
}

/// What an entry adds to the totals it is credited to.
pub open spec fn deposit_part(e: LogEntry) -> int {
    match e.entry_type {
        EntryType::Deposit => e.amount as int,
        _ => 0,
    }
}

/// What an entry adds to the withdrawal total.
pub open spec fn withdrawal_part(e: LogEntry) -> int {
    match e.entry_type {
        EntryType::Withdrawal => e.amount as int,
        _ => 0,
    }
}

/// The statistics of an account after one more entry: every entry is
/// counted, deposits and withdrawals add their amount to their own total,
/// transfers and fees add to no total.
pub open spec fn credit(s: StatsView, e: LogEntry) -> StatsView {
    StatsView {
        total_deposits: s.total_deposits + deposit_part(e),
        total_withdrawals: s.total_withdrawals + withdrawal_part(e),
        transaction_count: s.transaction_count + 1,
    }
}

/// Running totals of one account.
#[derive(Clone, Copy, Debug)]
pub struct AccountStats {
    total_deposits: i128,
    total_withdrawals: i128,
    transaction_count: u64,
}

impl View for AccountStats {
    type V = StatsView;

    closed spec fn view(&self) -> StatsView {
        StatsView {
            total_deposits: self.total_deposits as int,
            total_withdrawals: self.total_withdrawals as int,
            transaction_count: self.transaction_count as nat,
        }
    }
}

impl AccountStats {
    /// Each total is made of at most `transaction_count` amounts, so its
    /// magnitude is at most `transaction_count * |i64::MIN|`.
    #[verifier::type_invariant]
    closed spec fn totals_within_count(self) -> bool {
        &&& -(self.transaction_count * amount_bound()) <= self.total_deposits
        &&& self.total_deposits <= self.transaction_count * amount_bound()
        &&& -(self.transaction_count * amount_bound()) <= self.total_withdrawals
        &&& self.total_withdrawals <= self.transaction_count * amount_bound()
    }

    /// Sum of the deposit amounts seen.
    pub fn total_deposits(&self) -> (r: i128)
        ensures
            r == self@.total_deposits,
    {
        self.total_deposits
    }

    /// Sum of the withdrawal amounts seen.
    pub fn total_withdrawals(&self) -> (r: i128)
        ensures
            r == self@.total_withdrawals,
    {
        self.total_withdrawals
    }

    /// Number of entries seen, of any type.
    pub fn transaction_count(&self) -> (r: u64)
        ensures
            r == self@.transaction_count,
    {
        self.transaction_count
    }

    /// The statistics after one more entry for this account.
    pub fn credited(&self, entry: &LogEntry) -> (r: AccountStats)
        requires
            self@.transaction_count < u64::MAX,
        ensures
            r@ == credit(self@, *entry),
    {
        proof {
            use_type_invariant(self);
        }
        let count: u64 = self.transaction_count;
        let amount: i128 = entry.amount as i128;
        let ghost c = count as int;
        assert(c * amount_bound() + amount_bound() == (c + 1) * amount_bound());
        assert((c + 1) * amount_bound() <= u64::MAX * amount_bound());
        let mut deposits: i128 = self.total_deposits;
        let mut withdrawals: i128 = self.total_withdrawals;
        match entry.entry_type {
            EntryType::Deposit => {
                deposits = deposits + amount;
            },
            EntryType::Withdrawal => {
                withdrawals = withdrawals + amount;
            },
            EntryType::Transfer | EntryType::Fee => {},
        }
        AccountStats {
            total_deposits: deposits,
            total_withdrawals: withdrawals,
            transaction_count: count + 1,
        }
    }
}

impl Default for AccountStats {
    /// All totals and the count are zero.
    fn default() -> (r: AccountStats)
        ensures
            r@ == empty_stats(),
    {
        AccountStats { total_deposits: 0, total_withdrawals: 0, transaction_count: 0 }
    }
}

} // verus!
