//! Configuration history: the last few configurations ever applied,
//! deduplicated by hash and pruned to a fixed number of entries.

use vstd::prelude::*;

use crate::ident::new_uuid;
use crate::text::str_eq;

verus! {

/// Maximum number of configuration history entries retained.
pub const MAX_HISTORY_ENTRIES: usize = 16;

/// One stored configuration.
#[derive(Debug)]
pub struct ConfigHistoryEntry {
    /// Identity of the entry.
    pub uuid: String,
    /// When it was stored (epoch milliseconds).
    pub created_at: u64,
    /// The serialized configuration.
    pub data: String,
    /// Format tag of the serialization.
    pub format: String,
    /// Hash of the serialized configuration.
    pub hash: String,
}

impl Clone for ConfigHistoryEntry {
    fn clone(&self) -> (r: Self)
        ensures
            r == *self,
    {
        ConfigHistoryEntry {
            uuid: self.uuid.clone(),
            created_at: self.created_at,
            data: self.data.clone(),
            format: self.format.clone(),
            hash: self.hash.clone(),
        }
    }
}

/// What a successful insert does to the history: the new entry (with
/// the given fields and a 36-character identity) is appended, and when
/// the history already held [`MAX_HISTORY_ENTRIES`] entries the one
/// with the oldest `created_at` (the new entry included) is dropped.
pub open spec fn spec_inserted(
    pre: Seq<ConfigHistoryEntry>,
    post: Seq<ConfigHistoryEntry>,
    data: Seq<char>,
    format: Seq<char>,
    hash: Seq<char>,
    now_ms: u64,
) -> bool {
    let times = pre.map_values(|e: ConfigHistoryEntry| e.created_at).push(now_ms);
    let oi = spec_oldest_time(times, times.len() as int)->0;
    &&& (pre.len() < MAX_HISTORY_ENTRIES ==> post.len() == pre.len() + 1 && post.subrange(0,
        pre.len() as int) == pre && spec_fresh_entry(post.last(), data, format, hash, now_ms))
    &&& (pre.len() >= MAX_HISTORY_ENTRIES ==> ((oi == pre.len() ==> post == pre) && (oi < pre.len()
        ==> post.len() == pre.len() && post.drop_last() == pre.remove(oi) && spec_fresh_entry(
        post.last(), data, format, hash, now_ms))))
}

/// The retained configuration history.
pub struct ConfigHistoryRepository {
    /// All retained entries, in insertion order.
    pub entries: Vec<ConfigHistoryEntry>,
}

/// Index of the least time among the first `n`, the earliest on a tie.
pub open spec fn spec_oldest_time(s: Seq<u64>, n: int) -> Option<int>
    decreases n,
{
    if n <= 0 {
        Option::None
    } else {
        match spec_oldest_time(s, n - 1) {
            Option::None => Option::Some(n - 1),
            Option::Some(j) => if s[n - 1] < s[j] {
                Option::Some(n - 1)
            } else {
                Option::Some(j)
            },
        }
    }
}

/// The chosen oldest time index lies in the prefix.
proof fn lemma_oldest_time_bounds(s: Seq<u64>, n: int)
    requires
        n <= s.len(),
    ensures
        spec_oldest_time(s, n) matches Some(i) ==> 0 <= i < n,
        n > 0 ==> spec_oldest_time(s, n) is Some,
    decreases n,
{
    if n > 0 {
        lemma_oldest_time_bounds(s, n - 1);
    }
}

/// What a freshly stored entry looks like.
pub open spec fn spec_fresh_entry(
    e: ConfigHistoryEntry,
    data: Seq<char>,
    format: Seq<char>,
    hash: Seq<char>,
    now_ms: u64,
) -> bool {
    &&& e.data@ == data
    &&& e.format@ == format
    &&& e.hash@ == hash
    &&& e.created_at == now_ms
    &&& e.uuid@.len() == 36
}

/// Index of the entry with the greatest `created_at` among the first
/// `n`, the latest on a tie.
pub open spec fn spec_latest_index(s: Seq<ConfigHistoryEntry>, n: int) -> Option<int>
    decreases n,
{
    if n <= 0 {
        Option::None
    } else {
        match spec_latest_index(s, n - 1) {
            Option::None => Option::Some(n - 1),
            Option::Some(j) => if s[n - 1].created_at >= s[j].created_at {
                Option::Some(n - 1)
            } else {
                Option::Some(j)
            },
        }
    }
}

/// The chosen latest index lies in the prefix.
proof fn lemma_choice_bounds(s: Seq<ConfigHistoryEntry>, n: int)
    requires
        n <= s.len(),
    ensures
        spec_latest_index(s, n) matches Some(i) ==> 0 <= i < n,
        n > 0 ==> spec_latest_index(s, n) is Some,
    decreases n,
{
    if n > 0 {
        lemma_choice_bounds(s, n - 1);
    }
}

impl ConfigHistoryRepository {
    /// An empty history.
    pub fn new() -> (r: Self)
        ensures
            r.entries@.len() == 0,
    {
        ConfigHistoryRepository { entries: Vec::new() }
    }

    /// Whether a configuration with this hash was already stored.
    pub fn hash_exists(&self, hash: &str) -> (r: bool)
        ensures
            r == exists|i: int|
                0 <= i < self.entries@.len() && (#[trigger] self.entries@[i]).hash@ == hash@,
    {
        let n = self.entries.len();
        let mut i: usize = 0;
        while i < n
            invariant
                0 <= i <= n,
                forall|j: int| 0 <= j < i ==> (#[trigger] self.entries@[j]).hash@ != hash@,
            decreases n - i,
        {
            if str_eq(self.entries[i].hash.as_str(), hash) {
                return true;
            }
            i = i + 1;
        }
        false
    }

    /// Store a configuration unless its hash is already present, then
    /// prune the history to [`MAX_HISTORY_ENTRIES`] entries by dropping
    /// the oldest.  Returns whether it was stored.
    pub fn insert_if_new(&mut self, data: &str, format: &str, hash: &str, now_ms: u64) -> (inserted:
        bool)
        ensures
            inserted == !(exists|i: int|
                0 <= i < old(self).entries@.len() && (#[trigger] old(self).entries@[i]).hash@
                    == hash@),
            !inserted ==> *final(self) == *old(self),
            inserted ==> spec_inserted(old(self).entries@, final(self).entries@, data@, format@,
                hash@, now_ms),
    {
        if self.hash_exists(hash) {
            return false;
        }
        let entry = ConfigHistoryEntry {
            uuid: new_uuid(),
            created_at: now_ms,
            data: data.to_owned(),
            format: format.to_owned(),
            hash: hash.to_owned(),
        };
        let ghost pre = self.entries@;
        self.entries.push(entry);
        let ghost times = pre.map_values(|e: ConfigHistoryEntry| e.created_at).push(now_ms);
        proof {
            assert(times.len() == self.entries@.len());
            assert(forall|k: int|
                0 <= k < times.len() ==> times[k] == (#[trigger] self.entries@[k]).created_at);
        }
        proof {
            assert(self.entries@.subrange(0, pre.len() as int) =~= pre);
        }
        if self.entries.len() > MAX_HISTORY_ENTRIES {
            let n = self.entries.len();
            let mut oldest: usize = 0;
            let mut i: usize = 1;
            proof {
                assert(spec_oldest_time(times, 0) is None);
                assert(spec_oldest_time(times, 1) == Option::Some(0int));
            }
            while i < n
                invariant
                    1 <= i <= n,
                    0 <= oldest < i,
                    n == self.entries@.len(),
                    n == times.len(),
                    forall|k: int|
                        0 <= k < times.len() ==> times[k] == (
                        #[trigger] self.entries@[k]).created_at,
                    spec_oldest_time(times, i as int) == Option::Some(oldest as int),
                decreases n - i,
            {
                if self.entries[i].created_at < self.entries[oldest].created_at {
                    oldest = i;
                }
                i = i + 1;
            }
            proof {
                lemma_oldest_time_bounds(times, n as int);
            }
            let ghost pushed = self.entries@;
            self.entries.remove(oldest);
            proof {
                let oi = spec_oldest_time(times, times.len() as int)->0;
                if oi == pre.len() {
                    assert(self.entries@ =~= pre);
                } else {
                    assert(self.entries@.drop_last() =~= pre.remove(oi));
                    assert(self.entries@.last() == pushed.last());
                }
            }
        }
        true
    }

    /// The most recently stored configuration, by `created_at` (the
    /// later entry winning a tie).
    pub fn get_latest(&self) -> (r: Option<ConfigHistoryEntry>)
        ensures
            r is None <==> self.entries@.len() == 0,
            r matches Some(e) ==> spec_latest_index(self.entries@, self.entries@.len() as int)
                matches Some(i) && e == self.entries@[i],
    {
        let n = self.entries.len();
        if n == 0 {
            return Option::None;
        }
        let mut best: usize = 0;
        let mut i: usize = 1;
        proof {
            lemma_choice_bounds(self.entries@, 1);
        }
        while i < n
            invariant
                1 <= i <= n,
                0 <= best < i,
                spec_latest_index(self.entries@, i as int) == Option::Some(best as int),
            decreases n - i,
        {
            if self.entries[i].created_at >= self.entries[best].created_at {
                best = i;
            }
            i = i + 1;
        }
        proof {
            lemma_choice_bounds(self.entries@, n as int);
        }
        Option::Some(self.entries[best].clone())
    }

    /// The hash of the most recently stored configuration.
    pub fn get_latest_hash(&self) -> (r: Option<String>)
        ensures
            r is None <==> self.entries@.len() == 0,
            r matches Some(h) ==> spec_latest_index(self.entries@, self.entries@.len() as int)
                matches Some(i) && h == self.entries@[i].hash,
    {
        match self.get_latest() {
            Option::Some(e) => Option::Some(e.hash),
            Option::None => Option::None,
        }
    }

    /// All retained entries, in insertion order; display ordering by
    /// time is the caller's.
    pub fn get_all(&self) -> (r: Vec<ConfigHistoryEntry>)
        ensures
            r@ == self.entries@,
    {
        let n = self.entries.len();
        let mut r: Vec<ConfigHistoryEntry> = Vec::new();
        let mut i: usize = 0;
        while i < n
            invariant
                0 <= i <= n,
                r@ =~= self.entries@.take(i as int),
            decreases n - i,
        {
            r.push(self.entries[i].clone());
            proof {
                assert(r@ =~= self.entries@.take(i + 1));
            }
            i = i + 1;
        }
        proof {
            assert(self.entries@.take(n as int) =~= self.entries@);
        }
        r
    }
}

} // verus!
