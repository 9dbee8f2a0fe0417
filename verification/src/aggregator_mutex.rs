//! Aggregation into a single standard hash map. Callers that share one
//! instance between threads put it behind one lock, so that every write
//! serialises on it; it is kept for comparison with the sharded map.
use vstd::hash_map::StringHashMap;
use vstd::prelude::*;

use crate::ledger::{after_entry, stats_of};
use crate::message::{AccountStats, LogEntry, StatsView};

verus! {

/// Per-account statistics in one `HashMap<String, AccountStats>`.
pub struct MutexAggregator {
    stats: StringHashMap<AccountStats>,
}

impl View for MutexAggregator {
    type V = Map<Seq<char>, StatsView>;

    closed spec fn view(&self) -> Map<Seq<char>, StatsView> {
        self.stats@.map_values(|s: AccountStats| s@)
    }
}

impl MutexAggregator {
    /// The map holds finitely many accounts.
    #[verifier::type_invariant]
    spec fn finitely_many_accounts(self) -> bool {
        self.stats@.dom().finite()
    }

    /// An aggregator that has seen no entry.
    pub fn new() -> (r: MutexAggregator)
        ensures
            r@ == Map::<Seq<char>, StatsView>::empty(),
    {
        let r = MutexAggregator { stats: StringHashMap::new() };
        assert(r@ =~= Map::<Seq<char>, StatsView>::empty());
        r
    }

    /// Counts `entry` against its account, adding its amount to the deposit
    /// or withdrawal total as its type says.
    pub fn process(&mut self, entry: &LogEntry)
        requires
            stats_of(old(self)@, entry.account_id@).transaction_count < u64::MAX,
        ensures
            final(self)@ == after_entry(old(self)@, *entry),
            forall|id: Seq<char>|
                id != entry.account_id@ ==> (#[trigger] final(self)@.contains_key(id)
                    == old(self)@.contains_key(id) && (old(self)@.contains_key(id) ==> final(self)@[id]
                    == old(self)@[id])),
            final(self)@.dom().len() == old(self)@.dom().len() + (if old(self)@.contains_key(
                entry.account_id@,
            ) {
                0int
            } else {
                1int
            }),
    {
        proof {
            use_type_invariant(&*self);
        }
        let current = match self.stats.get(entry.account_id.as_str()) {
            Some(s) => *s,
            None => AccountStats::default(),
        };
        let next = current.credited(entry);
        let mut stats = StringHashMap::new();
        std::mem::swap(&mut stats, &mut self.stats);
        let ghost before = stats@;
        stats.insert(entry.account_id.clone(), next);
        assert(stats@ == before.insert(entry.account_id@, next));
        self.stats = stats;
        assert(self@ =~= after_entry(old(self)@, *entry));
        assert(old(self)@.dom() =~= before.dom());
        assert(self@.dom() =~= before.dom().insert(entry.account_id@));
    }

    /// The statistics of `account_id`, or `None` when no entry has named it.
    pub fn get_stats(&self, account_id: &str) -> (r: Option<AccountStats>)
        ensures
            match r {
                Some(s) => self@.contains_key(account_id@) && s@ == self@[account_id@],
                None => !self@.contains_key(account_id@),
            },
    {
        match self.stats.get(account_id) {
            Some(s) => Some(*s),
            None => None,
        }
    }

    /// Number of distinct accounts seen.
    pub fn account_count(&self) -> (r: usize)
        ensures
            r == self@.dom().len(),
    {
        let n: usize = self.stats.len();
        assert(self@.dom() =~= self.stats@.dom());
        n
    }
}

} // verus!
