//! Choosing which cache entries to evict: the least recently used ones.
use vstd::prelude::*;
use crate::sorting::{SortKey, stable_sort, stable_sorted, keys_sorted, lemma_stable_sorted};

verus! {

/// A cache key with the frame in which it was last used.
#[derive(Debug, Clone, Copy)]
pub struct LruStamp<K> {
    pub key: K,
    pub last_used: u64,
}

impl<K> SortKey for LruStamp<K> {
    open spec fn sort_key(&self) -> int {
        self.last_used as int
    }

    fn key(&self) -> (k: i128) {
        self.last_used as i128
    }
}

/// The keys to evict so that at most `max_entries` remain: the stamps ordered by
/// last use (ties keep their given order), oldest first, as many as exceed the limit.
pub open spec fn lru_victims<K>(stamps: Seq<LruStamp<K>>, max_entries: nat) -> Seq<K> {
    if stamps.len() <= max_entries {
        seq![]
    } else {
        stable_sorted(stamps).take(stamps.len() - max_entries).map_values(|s: LruStamp<K>| s.key)
    }
}

pub fn least_recently_used<K>(stamps: Vec<LruStamp<K>>, max_entries: usize) -> (victims: Vec<K>)
    ensures
        victims@ == lru_victims(stamps@, max_entries as nat),
{
    let n = stamps.len();
    if n <= max_entries {
        return Vec::new();
    }
    let remove_count = n - max_entries;
    let mut order = stamps;
    stable_sort(&mut order);
    let ghost sorted = order@;
    proof {
        lemma_stable_sorted(stamps@);
    }
    order.truncate(remove_count);
    let mut rev: Vec<K> = Vec::new();
    while order.len() > 0
        invariant
            order.len() + rev.len() == remove_count,
            remove_count <= sorted.len(),
            order@ == sorted.take(order.len() as int),
            forall|i: int| 0 <= i < rev.len() ==> #[trigger] rev@[i] == sorted[remove_count - 1 - i].key,
        decreases order.len(),
    {
        let s = order.pop().unwrap();
        assert(order@ =~= sorted.take(order.len() as int));
        rev.push(s.key);
    }
    let mut victims: Vec<K> = Vec::new();
    while rev.len() > 0
        invariant
            victims.len() + rev.len() == remove_count,
            remove_count <= sorted.len(),
            forall|i: int| 0 <= i < rev.len() ==> #[trigger] rev@[i] == sorted[remove_count - 1 - i].key,
            forall|i: int| 0 <= i < victims.len() ==> #[trigger] victims@[i] == sorted[i].key,
        decreases rev.len(),
    {
        let k = rev.pop().unwrap();
        victims.push(k);
    }
    assert(victims@ =~= sorted.take(remove_count as int).map_values(|s: LruStamp<K>| s.key));
    victims
}

/// Eviction takes the oldest: no victim was used later than any stamp that stays.
pub proof fn lemma_victims_are_oldest<K>(stamps: Seq<LruStamp<K>>, max_entries: nat)
    requires
        stamps.len() > max_entries,
    ensures
        ({
            let sorted = stable_sorted(stamps);
            let c = stamps.len() - max_entries;
            &&& sorted.len() == stamps.len()
            &&& sorted.to_multiset() == stamps.to_multiset()
            &&& forall|i: int, j: int|
                0 <= i < c <= j < sorted.len() ==> #[trigger] sorted[i].last_used
                    <= #[trigger] sorted[j].last_used
        }),
{
    lemma_stable_sorted(stamps);
    let sorted = stable_sorted(stamps);
    assert forall|i: int, j: int|
        0 <= i < stamps.len() - max_entries <= j < sorted.len() implies #[trigger] sorted[i].last_used
        <= #[trigger] sorted[j].last_used by {
        assert(sorted[i].sort_key() <= sorted[j].sort_key());
    }
}

} // verus!
