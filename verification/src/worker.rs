//! Routing of entries to worker shards by a hash of their account id, so
//! that one worker owns each account.
use std::collections::hash_map::DefaultHasher;
use std::hash::{BuildHasher, BuildHasherDefault};
use vstd::prelude::*;

use crate::message::LogEntry;

verus! {

/// The value `DefaultHasher` gives for an account id.
pub uninterp spec fn default_hash(account_id: Seq<char>) -> u64;

/// `BuildHasher::hash_one` with `DefaultHasher` (made by `DefaultHasher::new`
/// through `BuildHasherDefault`): the 64-bit hash of the string. Its value is
/// not stated beyond being a function of the string's characters:
/// `DefaultHasher::new` is not randomly seeded.
#[verifier::external_body]
fn hash_account(account_id: &str) -> (r: u64)
    ensures
        r == default_hash(account_id@),
{
    BuildHasherDefault::<DefaultHasher>::default().hash_one(account_id)
}

/// The shard that owns account `account_id` among `shard_count` shards.
pub open spec fn shard_for(account_id: Seq<char>, shard_count: usize) -> usize {
    (default_hash(account_id) as usize) % shard_count
}

/// The index of the worker that processes entries of `account_id`.
pub fn route_index(account_id: &str, shard_count: usize) -> (r: usize)
    requires
        shard_count > 0,
    ensures
        r == shard_for(account_id@, shard_count),
        r == (default_hash(account_id@) as usize) % shard_count,
        r < shard_count,
{
    let h: u64 = hash_account(account_id);
    (h as usize) % shard_count
}

/// The index of the worker that processes `entry`.
pub fn route_entry(entry: &LogEntry, shard_count: usize) -> (r: usize)
    requires
        shard_count > 0,
    ensures
        r == shard_for(entry.account_id@, shard_count),
        r == (default_hash(entry.account_id@) as usize) % shard_count,
        r < shard_count,
{
    route_index(entry.account_id.as_str(), shard_count)
}

/// The worker of an account is the remainder of the account's hash by the
/// number of workers: it is below that number and differs from the hash by
/// a multiple of it. So every worker `k` owns exactly the accounts whose hash
/// leaves remainder `k`, and none is left without accounts by the routing.
pub proof fn lemma_shard_is_hash_remainder(account_id: Seq<char>, shard_count: usize)
    requires
        shard_count > 0,
    ensures
        shard_for(account_id, shard_count) < shard_count,
        ((default_hash(account_id) as usize) as int - shard_for(account_id, shard_count) as int)
            % (shard_count as int) == 0,
{
    let h: int = (default_hash(account_id) as usize) as int;
    let n: int = shard_count as int;
    let q: int = h / n;
    vstd::arithmetic::div_mod::lemma_fundamental_div_mod(h, n);
    vstd::arithmetic::div_mod::lemma_mod_multiples_basic(q, n);
    assert(n * q == q * n) by (nonlinear_arith);
    assert(h - h % n == q * n);
}

/// Worker `k` receives every account whose hash leaves remainder `k` by the
/// number of workers, so each worker owns a share of the hash values.
pub proof fn lemma_worker_owns_its_remainder(account_id: Seq<char>, shard_count: usize, k: usize)
    requires
        k < shard_count,
        (default_hash(account_id) as usize) as int % (shard_count as int) == k as int,
    ensures
        shard_for(account_id, shard_count) == k,
{
}

/// Entries of one account always go to the same worker, a valid one: each
/// worker exclusively owns its accounts, whatever else the entries hold.
pub proof fn lemma_account_owned_by_one_shard(a: LogEntry, b: LogEntry, shard_count: usize)
    requires
        shard_count > 0,
        a.account_id@ == b.account_id@,
    ensures
        shard_for(a.account_id@, shard_count) == shard_for(b.account_id@, shard_count),
        0 <= shard_for(a.account_id@, shard_count) < shard_count,
{
}

} // verus!
