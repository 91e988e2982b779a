//! Per-account unread state and aggregation for the single system-tray badge.
//!
//! Each WhatsApp WebView reports only its own count. The tray is an app-wide
//! surface, so this module owns the per-account counts and their saturated sum.

use std::collections::HashMap;
use vstd::prelude::*;
use vstd::std_specs::hash::spec_hash_map_iter;
use vstd::std_specs::iter::IteratorSpec;

use crate::accounts::AccountId;

verus! {

broadcast use vstd::std_specs::hash::group_hash_axioms;

/// The sum of all the counts in `m`.
pub open spec fn map_sum(m: Map<u32, u32>) -> nat
    decreases m.dom().len(),
{
    if m.dom().finite() && m.dom().len() > 0 {
        let k = m.dom().choose();
        (m[k] + map_sum(m.remove(k))) as nat
    } else {
        0
    }
}

/// `n` capped at `u32::MAX`.
pub open spec fn saturate(n: nat) -> u32 {
    if n > u32::MAX {
        u32::MAX
    } else {
        n as u32
    }
}

/// The sum does not depend on which key is taken out first.
pub proof fn lemma_map_sum_remove(m: Map<u32, u32>, k: u32)
    requires
        m.dom().finite(),
        m.dom().contains(k),
    ensures
        map_sum(m) == m[k] + map_sum(m.remove(k)),
    decreases m.dom().len(),
{
    let c = m.dom().choose();
    if c != k {
        lemma_map_sum_remove(m.remove(c), k);
        lemma_map_sum_remove(m.remove(k), c);
        assert(m.remove(c).remove(k) =~= m.remove(k).remove(c));
    }
}

/// Reporting a new count for one account replaces that account's previous
/// contribution to the total and leaves the others as they were.
pub proof fn lemma_map_sum_insert(m: Map<u32, u32>, k: u32, v: u32)
    requires
        m.dom().finite(),
    ensures
        map_sum(m.insert(k, v)) == map_sum(m.remove(k)) + v,
{
    lemma_map_sum_remove(m.insert(k, v), k);
    assert(m.insert(k, v).remove(k) =~= m.remove(k));
}

/// The sum of the values of the `(key, value)` pairs in `s`.
pub open spec fn pairs_sum(s: Seq<(u32, u32)>) -> nat
    decreases s.len(),
{
    if s.len() == 0 {
        0
    } else {
        (pairs_sum(s.drop_last()) + s.last().1) as nat
    }
}

proof fn lemma_pairs_sum_first(s: Seq<(u32, u32)>)
    requires
        s.len() > 0,
    ensures
        pairs_sum(s) == s[0].1 + pairs_sum(s.drop_first()),
    decreases s.len(),
{
    if s.len() > 1 {
        lemma_pairs_sum_first(s.drop_last());
        assert(s.drop_last().drop_first() =~= s.drop_first().drop_last());
        assert(s.drop_first().last() == s.last());
        assert(s.drop_last()[0] == s[0]);
        assert(pairs_sum(s.drop_first()) == pairs_sum(s.drop_first().drop_last())
            + s.drop_first().last().1);
    } else {
        assert(pairs_sum(s.drop_last()) == 0);
        assert(pairs_sum(s.drop_first()) == 0);
    }
}

/// A duplicate-free listing of the entries of `m` sums to `map_sum(m)`.
proof fn lemma_pairs_sum_listing(s: Seq<(u32, u32)>, m: Map<u32, u32>)
    requires
        m.dom().finite(),
        s.no_duplicates(),
        s.len() == m.dom().len(),
        forall|i: int| 0 <= i < s.len() ==> m.contains_key(#[trigger] s[i].0) && m[s[i].0] == s[i].1,
    ensures
        pairs_sum(s) == map_sum(m),
    decreases s.len(),
{
    if s.len() == 0 {
        assert(m.dom() =~= Set::empty());
    } else {
        let (k, v) = s[0];
        let rest = s.drop_first();
        let m2 = m.remove(k);
        assert forall|i: int| 0 <= i < rest.len() implies m2.contains_key(#[trigger] rest[i].0)
            && m2[rest[i].0] == rest[i].1 by {
            assert(rest[i] == s[i + 1]);
            if rest[i].0 == k {
                assert(s[i + 1] == s[0]);
            }
        }
        lemma_pairs_sum_listing(rest, m2);
        lemma_pairs_sum_first(s);
        lemma_map_sum_remove(m, k);
    }
}

/// The app-wide unread total: the sum of all counts, saturated at `u32::MAX`
/// instead of wrapping.
pub fn total(counts: &HashMap<AccountId, u32>) -> (r: u32)
    ensures
        r == saturate(map_sum(counts@)),
{
    let mut sum: u32 = 0;
    let ghost all = spec_hash_map_iter(counts).remaining().map_values(
        |p: (&u32, &u32)| (*p.0, *p.1),
    );
    let ghost mut k: int = 0;
    for pair in it: counts.iter()
        invariant
            all == it.seq().map_values(|p: (&u32, &u32)| (*p.0, *p.1)),
            k == it.index(),
            sum == saturate(pairs_sum(all.take(k))),
    {
        let v = *pair.1;
        proof {
            assert(all.take(k + 1).drop_last() =~= all.take(k));
            assert(all.take(k + 1).last() == all[k]);
        }
        sum = sum.saturating_add(v);
        proof {
            k = k + 1;
        }
    }
    proof {
        assert(all.take(k) =~= all);
        let r = spec_hash_map_iter(counts).remaining();
        assert(all.no_duplicates()) by {
            assert forall|i: int, j: int| 0 <= i < j < all.len() implies all[i] != all[j] by {
                assert(r[i] != r[j]);
            }
        }
        assert forall|i: int| 0 <= i < all.len() implies counts@.contains_key(#[trigger] all[i].0)
            && counts@[all[i].0] == all[i].1 by {
            assert(counts@.contains_key(*r[i].0));
        }
        lemma_pairs_sum_listing(all, counts@);
    }
    sum
}

/// Unread counts per account.
pub struct UnreadCounts {
    pub counts: HashMap<AccountId, u32>,
}

impl UnreadCounts {
    pub fn new() -> (r: UnreadCounts)
        ensures
            r.counts@ == Map::<u32, u32>::empty(),
    {
        UnreadCounts { counts: HashMap::new() }
    }

    /// Records `count` for one account and returns the new saturated total.
    /// Zero removes the entry so deleted/quiet accounts do not accumulate state.
    pub fn set(&mut self, account_id: AccountId, count: u32) -> (r: u32)
        ensures
            final(self).counts@ == (if count == 0 {
                old(self).counts@.remove(account_id)
            } else {
                old(self).counts@.insert(account_id, count)
            }),
            r == saturate(map_sum(final(self).counts@)),
    {
        if count == 0 {
            self.counts.remove(&account_id);
        } else {
            self.counts.insert(account_id, count);
        }
        total(&self.counts)
    }

    /// Drops a removed account's contribution and returns the new total.
    pub fn remove(&mut self, account_id: AccountId) -> (r: u32)
        ensures
            final(self).counts@ == old(self).counts@.remove(account_id),
            r == saturate(map_sum(final(self).counts@)),
    {
        self.counts.remove(&account_id);
        total(&self.counts)
    }
}

} // verus!
