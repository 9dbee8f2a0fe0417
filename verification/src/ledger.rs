//! The meaning of aggregation, stated over maps from account ids to
//! statistics, and the laws that hold of it whatever the order of entries.
use vstd::prelude::*;

use crate::message::{credit, deposit_part, empty_stats, withdrawal_part, LogEntry, StatsView};

verus! {

/// The statistics kept for `id`, or the empty statistics when `id` has none.
pub open spec fn stats_of(m: Map<Seq<char>, StatsView>, id: Seq<char>) -> StatsView {
    if m.contains_key(id) {
        m[id]
    } else {
        empty_stats()
    }
}

/// The statistics after one entry: only the entry's own account changes.
pub open spec fn after_entry(m: Map<Seq<char>, StatsView>, e: LogEntry) -> Map<Seq<char>, StatsView> {
    m.insert(e.account_id@, credit(stats_of(m, e.account_id@), e))
}

/// The statistics after the entries `es`, applied in order, starting from `m`.
pub open spec fn replay(m: Map<Seq<char>, StatsView>, es: Seq<LogEntry>) -> Map<Seq<char>, StatsView>
    decreases es.len(),
{
    if es.len() == 0 {
        m
    } else {
        after_entry(replay(m, es.drop_last()), es.last())
    }
}

/// Processing one more entry after a batch is processing the longer batch:
/// an aggregator that has processed `es` in order and then processes `e`
/// holds the replay of `es` followed by `e`.
pub proof fn lemma_replay_push(m: Map<Seq<char>, StatsView>, es: Seq<LogEntry>, e: LogEntry)
    ensures
        replay(m, es.push(e)) == after_entry(replay(m, es), e),
{
    assert(es.push(e).drop_last() =~= es);
}

/// The entries of `es` that belong to account `id`, in order.
pub open spec fn entries_for(es: Seq<LogEntry>, id: Seq<char>) -> Seq<LogEntry> {
    es.filter(|e: LogEntry| e.account_id@ == id)
}

/// Sum of the deposit amounts in `es`.
pub open spec fn sum_deposits(es: Seq<LogEntry>) -> int
    decreases es.len(),
{
    if es.len() == 0 {
        0
    } else {
        sum_deposits(es.drop_last()) + deposit_part(es.last())
    }
}

/// Sum of the withdrawal amounts in `es`.
pub open spec fn sum_withdrawals(es: Seq<LogEntry>) -> int
    decreases es.len(),
{
    if es.len() == 0 {
        0
    } else {
        sum_withdrawals(es.drop_last()) + withdrawal_part(es.last())
    }
}

/// The statistics of account `id` computed directly from a whole batch of
/// entries: how many there are for it, and the sums of its deposits and of
/// its withdrawals.
pub open spec fn summary(es: Seq<LogEntry>, id: Seq<char>) -> StatsView {
    let mine = entries_for(es, id);
    StatsView {
        total_deposits: sum_deposits(mine),
        total_withdrawals: sum_withdrawals(mine),
        transaction_count: mine.len(),
    }
}

/// The account ids that occur in `es`.
pub open spec fn accounts_in(es: Seq<LogEntry>) -> Set<Seq<char>> {
    Set::new(|id: Seq<char>| exists|i: int| 0 <= i < es.len() && (#[trigger] es[i]).account_id@ == id)
}

/// Processing entries one at a time gives, for every account, exactly the
/// statistics of its own entries: as many transactions as it has entries,
/// the sum of its deposits and the sum of its withdrawals (transfers and fees
/// are counted and add to no total); and an account has statistics if and
/// only if at least one entry names it.
pub proof fn lemma_replay_summarizes(es: Seq<LogEntry>)
    ensures
        replay(Map::empty(), es).dom() == accounts_in(es),
        forall|id: Seq<char>|
            #[trigger] replay(Map::empty(), es).contains_key(id) ==> replay(Map::empty(), es)[id]
                == summary(es, id),
    decreases es.len(),
{
    if es.len() == 0 {
        assert(replay(Map::empty(), es).dom() =~= accounts_in(es));
    } else {
        let prefix = es.drop_last();
        let e = es.last();
        lemma_replay_summarizes(prefix);
        let before = replay(Map::empty(), prefix);
        let after = replay(Map::empty(), es);
        assert(after == after_entry(before, e));
        assert forall|id: Seq<char>| #[trigger] accounts_in(es).contains(id) <==> after.dom().contains(
            id,
        ) by {
            if accounts_in(es).contains(id) {
                let i: int = choose|i: int| 0 <= i < es.len() && (#[trigger] es[i]).account_id@ == id;
                if i < es.len() - 1 {
                    assert(prefix[i] == es[i]);
                    assert(accounts_in(prefix).contains(id));
                }
            }
            if after.dom().contains(id) && id != e.account_id@ {
                assert(before.dom().contains(id));
                assert(accounts_in(prefix).contains(id));
                let i: int = choose|i: int| 0 <= i < prefix.len() && (#[trigger] prefix[i]).account_id@ == id;
                assert(es[i] == prefix[i]);
            }
            if id == e.account_id@ {
                assert(es[es.len() - 1].account_id@ == id);
            }
        }
        assert(after.dom() =~= accounts_in(es));
        assert forall|id: Seq<char>| #[trigger] after.contains_key(id) implies after[id] == summary(
            es,
            id,
        ) by {
            let p = |x: LogEntry| x.account_id@ == id;
            reveal(Seq::filter);
            assert(entries_for(es, id) == es.filter(p));
            assert(entries_for(prefix, id) == prefix.filter(p));
            assert(es.filter(p) == if p(e) {
                prefix.filter(p).push(e)
            } else {
                prefix.filter(p)
            });
            if id == e.account_id@ {
                let mine = prefix.filter(p).push(e);
                assert(mine.drop_last() =~= prefix.filter(p));
                assert(mine.last() == e);
                if !before.contains_key(id) {
                    assert(!accounts_in(prefix).contains(id));
                    assert(prefix.filter(p).len() == 0) by {
                        if prefix.filter(p).len() > 0 {
                            prefix.lemma_filter_pred(p, 0);
                            prefix.lemma_filter_contains_rev(p, prefix.filter(p)[0]);
                            let k: int = choose|k: int|
                                0 <= k < prefix.len() && prefix[k] == prefix.filter(p)[0];
                            assert(accounts_in(prefix).contains(id));
                        }
                    }
                    assert(prefix.filter(p) =~= Seq::<LogEntry>::empty());
                }
                assert(stats_of(before, id) == summary(prefix, id));
                assert(sum_deposits(mine) == sum_deposits(prefix.filter(p)) + deposit_part(e));
                assert(sum_withdrawals(mine) == sum_withdrawals(prefix.filter(p)) + withdrawal_part(e));
                assert(entries_for(es, id) == mine);
            } else {
                assert(before.contains_key(id));
                assert(entries_for(es, id) == entries_for(prefix, id));
            }
        }
    }
}

/// Two entries applied in either order give the same statistics, whether
/// they belong to the same account or to different ones.
pub proof fn lemma_entries_commute(m: Map<Seq<char>, StatsView>, a: LogEntry, b: LogEntry)
    ensures
        after_entry(after_entry(m, a), b) == after_entry(after_entry(m, b), a),
{
    assert(after_entry(after_entry(m, a), b) =~= after_entry(after_entry(m, b), a));
}

/// Inserting an entry anywhere in a batch gives what applying it after the
/// batch gives.
proof fn lemma_replay_insert(m: Map<Seq<char>, StatsView>, s: Seq<LogEntry>, j: int, x: LogEntry)
    requires
        0 <= j <= s.len(),
    ensures
        replay(m, s.insert(j, x)) == after_entry(replay(m, s), x),
    decreases s.len(),
{
    if j == s.len() {
        assert(s.insert(j, x) =~= s.push(x));
        lemma_replay_push(m, s, x);
    } else {
        let t = s.drop_last();
        lemma_replay_insert(m, t, j, x);
        assert(s.insert(j, x) =~= t.insert(j, x).push(s.last()));
        lemma_replay_push(m, t.insert(j, x), s.last());
        lemma_entries_commute(replay(m, t), x, s.last());
    }
}

/// A batch gives the same statistics in whatever order its entries are
/// processed: any two orderings of the same entries (the same multiset)
/// replay to the same map, so the number of accounts and every account's
/// count and totals agree.
pub proof fn lemma_replay_permutation(m: Map<Seq<char>, StatsView>, es1: Seq<LogEntry>, es2: Seq<LogEntry>)
    requires
        es1.to_multiset() == es2.to_multiset(),
    ensures
        replay(m, es1) == replay(m, es2),
    decreases es1.len(),
{
    broadcast use vstd::seq_lib::to_multiset_len;
    broadcast use vstd::seq_lib::to_multiset_contains;
    broadcast use vstd::seq_lib::to_multiset_build;
    broadcast use vstd::seq_lib::to_multiset_remove;
    broadcast use vstd::multiset::group_multiset_axioms;

    if es1.len() == 0 {
        vstd::seq_lib::to_multiset_len(es1);
        vstd::seq_lib::to_multiset_len(es2);
        assert(es2 =~= es1);
    } else {
        let x = es1.last();
        let r1 = es1.drop_last();
        assert(es1 =~= r1.push(x));
        assert(es1.to_multiset() =~= r1.to_multiset().insert(x));
        assert(es1.contains(x)) by {
            assert(es1[es1.len() - 1] == x);
        }
        assert(es1.to_multiset().count(x) > 0);
        assert(es2.contains(x));
        let j: int = choose|j: int| 0 <= j < es2.len() && es2[j] == x;
        let r2 = es2.remove(j);
        assert(r2.to_multiset() == es2.to_multiset().remove(x));
        assert(r1.to_multiset() =~= r2.to_multiset());
        lemma_replay_permutation(m, r1, r2);
        assert(r2.insert(j, x) =~= es2);
        lemma_replay_insert(m, r2, j, x);
    }
}

} // verus!
