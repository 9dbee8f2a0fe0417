//! Aggregation into a sharded map (`dashmap::DashMap`). Updates take the
//! aggregator by exclusive reference.
use dashmap::DashMap;
use vstd::prelude::*;

use crate::ledger::{after_entry, stats_of};
use crate::message::{AccountStats, LogEntry, StatsView};

verus! {

#[verifier::external_type_specification]
#[verifier::external_body]
#[verifier::reject_recursive_types(K)]
#[verifier::reject_recursive_types(V)]
#[verifier::reject_recursive_types(S)]
pub struct ExDashMap<K, V, S>(DashMap<K, V, S>);

/// The entries held by a `DashMap<String, AccountStats>`, keyed by the
/// characters of each key.
pub uninterp spec fn dashmap_stats(map: DashMap<String, AccountStats>) -> Map<Seq<char>, AccountStats>;

/// `DashMap::new`: a map with no entry.
#[verifier::external_body]
fn stats_map_new() -> (r: DashMap<String, AccountStats>)
    ensures
        dashmap_stats(r).dom() == Set::<Seq<char>>::empty(),
{
    DashMap::new()
}

/// `DashMap::get`: the value stored under `key`, if any (copied out of the
/// guard that the call returns).
#[verifier::external_body]
fn stats_map_get(map: &DashMap<String, AccountStats>, key: &str) -> (r: Option<AccountStats>)
    ensures
        match r {
            Some(v) => dashmap_stats(*map).contains_key(key@) && v == dashmap_stats(*map)[key@],
            None => !dashmap_stats(*map).contains_key(key@),
        },
{
    map.get(key).map(|guard| *guard.value())
}

/// `DashMap::insert`: stores `value` under `key`, replacing any earlier
/// value; the number of entries grows by one exactly when `key` was absent.
/// The map is taken by `&mut` here so that the change is visible to the
/// caller's contract; the method itself needs only `&self`.
#[verifier::external_body]
fn stats_map_insert(map: &mut DashMap<String, AccountStats>, key: String, value: AccountStats)
    ensures
        dashmap_stats(*final(map)) == dashmap_stats(*old(map)).insert(key@, value),
        dashmap_stats(*final(map)).dom().len() == dashmap_stats(*old(map)).dom().len() + (if dashmap_stats(
            *old(map),
        ).contains_key(key@) {
            0int
        } else {
            1int
        }),
{
    map.insert(key, value);
}

/// `DashMap::len`: the number of entries.
#[verifier::external_body]
fn stats_map_len(map: &DashMap<String, AccountStats>) -> (r: usize)
    ensures
        r == dashmap_stats(*map).dom().len(),
{
    map.len()
}

/// Per-account statistics in a sharded map. Updates need exclusive access
/// (`&mut self`): an instance shared between threads is put behind a lock by
/// its owner.
pub struct Aggregator {
    stats: DashMap<String, AccountStats>,
}

impl View for Aggregator {
    type V = Map<Seq<char>, StatsView>;

    closed spec fn view(&self) -> Map<Seq<char>, StatsView> {
        dashmap_stats(self.stats).map_values(|s: AccountStats| s@)
    }
}

impl Aggregator {
    /// An aggregator that has seen no entry.
    pub fn new() -> (r: Aggregator)
        ensures
            r@ == Map::<Seq<char>, StatsView>::empty(),
    {
        let r = Aggregator { stats: stats_map_new() };
        assert(r@ =~= Map::<Seq<char>, StatsView>::empty());
        r
    }

    /// Counts `entry` against its account, adding its amount to the deposit
    /// or withdrawal total as its type says; an account seen for the first
    /// time starts from zero.
    pub fn process(&mut self, entry: &LogEntry)
        requires
            stats_of(old(self)@, entry.account_id@).transaction_count < u64::MAX,
        ensures
            final(self)@ == after_entry(old(self)@, *entry),
            forall|id: Seq<char>|
                id != entry.account_id@ ==> (#[trigger] final(self)@.contains_key(id)
                    == old(self)@.contains_key(id) && (old(self)@.contains_key(id) ==> final(self)@[id]
                    == old(self)@[id])),
            final(self)@.dom().len() == old(self)@.dom().len() + (if old(self)@.contains_key(
                entry.account_id@,
            ) {
                0int
            } else {
                1int
            }),
    {
        let current = match stats_map_get(&self.stats, entry.account_id.as_str()) {
            Some(s) => s,
            None => AccountStats::default(),
        };
        let next = current.credited(entry);
        stats_map_insert(&mut self.stats, entry.account_id.clone(), next);
        assert(self@ =~= after_entry(old(self)@, *entry));
        assert(self@.dom() =~= dashmap_stats(self.stats).dom());
        assert(old(self)@.dom() =~= dashmap_stats(old(self).stats).dom());
    }

    /// Number of distinct accounts seen.
    pub fn account_count(&self) -> (r: usize)
        ensures
            r == self@.dom().len(),
    {
        let n: usize = stats_map_len(&self.stats);
        assert(self@.dom() =~= dashmap_stats(self.stats).dom());
        n
    }

    /// The statistics of `account_id`, or `None` when no entry has named it.
    pub fn get_stats(&self, account_id: &str) -> (r: Option<AccountStats>)
        ensures
            match r {
                Some(s) => self@.contains_key(account_id@) && s@ == self@[account_id@],
                None => !self@.contains_key(account_id@),
            },
    {
        stats_map_get(&self.stats, account_id)
    }
}

} // verus!
