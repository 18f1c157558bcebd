//! The crawl frontier: every URL the crawler knows, with its crawl
//! status, discovery lineage, retry schedule and caching fields.
//!
//! Rows are unique by `(source_id, url)`.  A claim atomically flips the
//! best Discovered row to Fetching, so no two workers ever hold the same
//! row; recording an outcome moves a Fetching row to a settled state
//! along the allowed edges only.

use vstd::prelude::*;

use crate::backoff::{spec_backoff_delay, MAX_BACKOFF_MS};
use crate::fetcher::FetchOutcome;
use crate::status::{allowed_transition, DiscoveryMethod, UrlStatus};
use crate::text::spec_dec_str;

verus! {

/// Cool-off before an Exhausted row becomes eligible again: 70 days.
pub const EXHAUSTED_COOLOFF_MS: u64 = 70 * 24 * 60 * 60 * 1000;

/// Depth below which a fetched branch row counts as unexplored.
pub const UNEXPLORED_MAX_DEPTH: u32 = 10;

/// One frontier row.
#[derive(Debug)]
pub struct CrawlUrlEntry {
    /// The URL itself.
    pub url: String,
    /// Source this URL belongs to.
    pub source_id: String,
    /// Where the row stands in the state machine.
    pub status: UrlStatus,
    /// How the URL was discovered.
    pub discovery_method: DiscoveryMethod,
    /// URL of the page that discovered this one, if any.
    pub parent_url: Option<String>,
    /// Opaque discovery context, in its encoded form.
    pub discovery_context: String,
    /// Link depth from the seed.
    pub depth: u32,
    /// When the URL was discovered (epoch milliseconds).
    pub discovered_at: u64,
    /// When the URL was last fetched successfully.
    pub fetched_at: Option<u64>,
    /// When the row was last claimed; read by the startup reaper.
    pub claimed_at: Option<u64>,
    /// Failed attempts so far.
    pub retry_count: u32,
    /// Message of the last failure.
    pub last_error: Option<String>,
    /// Earliest time a Failed row may be retried; on an Exhausted row,
    /// the time of the exhausting attempt.
    pub next_retry_at: Option<u64>,
    /// Entity tag from the last response, for conditional requests.
    pub etag: Option<String>,
    /// `Last-Modified` from the last response, for conditional requests.
    pub last_modified: Option<String>,
    /// Hash of the stored body, set iff a body was stored.
    pub content_hash: Option<String>,
    /// Document the stored body belongs to.
    pub document_id: Option<String>,
}

impl Clone for CrawlUrlEntry {
    fn clone(&self) -> (r: Self)
        ensures
            r == *self,
    {
        CrawlUrlEntry {
            url: self.url.clone(),
            source_id: self.source_id.clone(),
            status: self.status,
            discovery_method: self.discovery_method,
            parent_url: self.parent_url.clone(),
            discovery_context: self.discovery_context.clone(),
            depth: self.depth,
            discovered_at: self.discovered_at,
            fetched_at: self.fetched_at,
            claimed_at: self.claimed_at,
            retry_count: self.retry_count,
            last_error: self.last_error.clone(),
            next_retry_at: self.next_retry_at,
            etag: self.etag.clone(),
            last_modified: self.last_modified.clone(),
            content_hash: self.content_hash.clone(),
            document_id: self.document_id.clone(),
        }
    }
}

impl CrawlUrlEntry {
    /// Row-level invariant: a Fetched row has a fetch time, a Failed row
    /// has at least one failed attempt behind it.
    pub open spec fn row_wf(self) -> bool {
        &&& (self.status == UrlStatus::Fetched ==> self.fetched_at is Some)
        &&& (self.status == UrlStatus::Failed ==> self.retry_count >= 1)
        &&& (self.status == UrlStatus::Exhausted ==> self.retry_count >= 1)
    }

    /// Rows are identified by source and URL.
    pub open spec fn same_key(self, source_id: Seq<char>, url: Seq<char>) -> bool {
        self.source_id@ == source_id && self.url@ == url
    }

    /// Strictly earlier in the claim order: shallower, or as shallow and
    /// discovered earlier.
    pub open spec fn claim_before(self, other: Self) -> bool {
        self.depth < other.depth || (self.depth == other.depth && self.discovered_at
            < other.discovered_at)
    }
}

/// The frontier: the set of known URLs of all sources.
pub struct Frontier {
    /// All rows, in insertion order.
    pub entries: Vec<CrawlUrlEntry>,
}

impl Frontier {
    /// Keys are unique and every row satisfies its invariant.
    pub open spec fn wf(self) -> bool {
        &&& forall|i: int, j: int|
            0 <= i < j < self.entries@.len() ==> !(#[trigger] self.entries@[i]).same_key(
                (#[trigger] self.entries@[j]).source_id@, self.entries@[j].url@)
        &&& forall|i: int| 0 <= i < self.entries@.len() ==> (#[trigger] self.entries@[i]).row_wf()
    }

    /// Index of the row for a key, if any.
    pub open spec fn spec_find(self, source_id: Seq<char>, url: Seq<char>) -> Option<int> {
        if exists|i: int| 0 <= i < self.entries@.len() && (#[trigger] self.entries@[i]).same_key(
            source_id, url) {
            Option::Some(choose|i: int|
                0 <= i < self.entries@.len() && (#[trigger] self.entries@[i]).same_key(source_id,
                    url))
        } else {
            Option::None
        }
    }

    /// The row stored for a key, if any.
    pub open spec fn spec_entry(self, source_id: Seq<char>, url: Seq<char>) -> Option<CrawlUrlEntry> {
        match self.spec_find(source_id, url) {
            Option::Some(i) => Option::Some(self.entries@[i]),
            Option::None => Option::None,
        }
    }

    /// An empty frontier.
    pub fn new() -> (r: Self)
        ensures
            r.wf(),
            r.entries@.len() == 0,
    {
        Frontier { entries: Vec::new() }
    }

    /// Index of the row for a key, scanning in insertion order.
    pub fn find(&self, source_id: &str, url: &str) -> (r: Option<usize>)
        requires
            self.wf(),
        ensures
            r is Some ==> self.spec_find(source_id@, url@) == Option::Some(r->0 as int),
            r is None ==> self.spec_find(source_id@, url@) is None,
    {
        let n = self.entries.len();
        let mut i: usize = 0;
        while i < n
            invariant
                0 <= i <= n,
                forall|j: int|
                    0 <= j < i ==> !(#[trigger] self.entries@[j]).same_key(source_id@, url@),
            decreases n - i,
        {
            let e = &self.entries[i];
            if crate::text::str_eq(e.source_id.as_str(), source_id) && crate::text::str_eq(
                e.url.as_str(),
                url,
            ) {
                proof {
                    let w = choose|k: int|
                        0 <= k < self.entries@.len() && (#[trigger] self.entries@[k]).same_key(
                            source_id@, url@);
                    if w != i {
                        assert(!self.entries@[i as int].same_key(self.entries@[w].source_id@,
                            self.entries@[w].url@) || !self.entries@[w].same_key(
                            self.entries@[i as int].source_id@, self.entries@[i as int].url@));
                    }
                }
                return Option::Some(i);
            }
            i = i + 1;
        }
        Option::None
    }

    /// Whether a URL has already been discovered for a source.
    pub fn url_exists(&self, source_id: &str, url: &str) -> (r: bool)
        requires
            self.wf(),
        ensures
            r == (self.spec_entry(source_id@, url@) is Some),
    {
        self.find(source_id, url).is_some()
    }

    /// Insert a newly discovered URL, ignoring it when the key is
    /// already known.  Returns whether the row was inserted.
    pub fn add(
        &mut self,
        source_id: &str,
        url: &str,
        discovery_method: DiscoveryMethod,
        parent_url: Option<String>,
        discovery_context: String,
        depth: u32,
        now_ms: u64,
    ) -> (inserted: bool)
        requires
            old(self).wf(),
        ensures
            final(self).wf(),
            inserted == (old(self).spec_entry(source_id@, url@) is None),
            !inserted ==> *final(self) == *old(self),
            inserted ==> final(self).entries@.len() == old(self).entries@.len() + 1,
            inserted ==> final(self).entries@.subrange(0, old(self).entries@.len() as int) == old(
                self).entries@,
            inserted ==> spec_fresh_row(final(self).entries@.last(), source_id@, url@,
                discovery_method, parent_url, discovery_context, depth, now_ms),
            forall|sid: Seq<char>, u: Seq<char>|
                !(sid == source_id@ && u == url@) ==> #[trigger] final(self).spec_entry(sid, u)
                    == old(self).spec_entry(sid, u),
    {
        let found = self.find(source_id, url);
        match found {
            Option::Some(_) => {
                proof {
                    lemma_entry_unchanged_all(*self, *self);
                }
                false
            },
            Option::None => {
                let entry = CrawlUrlEntry {
                    url: url.to_owned(),
                    source_id: source_id.to_owned(),
                    status: UrlStatus::Discovered,
                    discovery_method,
                    parent_url,
                    discovery_context,
                    depth,
                    discovered_at: now_ms,
                    fetched_at: Option::None,
                    claimed_at: Option::None,
                    retry_count: 0,
                    last_error: Option::None,
                    next_retry_at: Option::None,
                    etag: Option::None,
                    last_modified: Option::None,
                    content_hash: Option::None,
                    document_id: Option::None,
                };
                self.entries.push(entry);
                proof {
                    lemma_frontier_after_push(*old(self), *self, source_id@, url@);
                    assert(final(self).entries@.subrange(0, old(self).entries@.len() as int) =~= old(
                        self).entries@);
                }
                true
            },
        }
    }

    /// Whether row `i` is claimable under the optional source filter.
    pub open spec fn spec_claimable(self, filter: Option<Seq<char>>, i: int) -> bool {
        &&& 0 <= i < self.entries@.len()
        &&& self.entries@[i].status == UrlStatus::Discovered
        &&& match filter {
            Option::Some(sid) => self.entries@[i].source_id@ == sid,
            Option::None => true,
        }
    }

    /// The row a claim of the first `n` rows takes: the claimable row
    /// with the least `(depth, discovered_at)`, earliest row on a tie.
    pub open spec fn spec_best_upto(self, filter: Option<Seq<char>>, n: int) -> Option<int>
        decreases n,
    {
        if n <= 0 {
            Option::None
        } else {
            let prev = self.spec_best_upto(filter, n - 1);
            if !self.spec_claimable(filter, n - 1) {
                prev
            } else {
                match prev {
                    Option::None => Option::Some(n - 1),
                    Option::Some(j) => if self.entries@[n - 1].claim_before(self.entries@[j]) {
                        Option::Some(n - 1)
                    } else {
                        Option::Some(j)
                    },
                }
            }
        }
    }

    /// The row the next claim takes, if any.
    pub open spec fn spec_claim_choice(self, filter: Option<Seq<char>>) -> Option<int> {
        self.spec_best_upto(filter, self.entries@.len() as int)
    }

    /// Atomically claim the best pending row: flip it from Discovered to
    /// Fetching and hand back a copy of the claimed row (already marked
    /// Fetching).  Returns `None` when nothing is claimable.
    pub fn claim(&mut self, source_id: Option<&str>, now_ms: u64) -> (r: Option<CrawlUrlEntry>)
        requires
            old(self).wf(),
        ensures
            final(self).wf(),
            final(self).entries@.len() == old(self).entries@.len(),
            r is None ==> *final(self) == *old(self) && old(self).spec_claim_choice(
                spec_filter_of(source_id)) is None,
            r is Some ==> ({
                let i = old(self).spec_claim_choice(spec_filter_of(source_id))->0;
                &&& old(self).spec_claim_choice(spec_filter_of(source_id)) is Some
                &&& 0 <= i < old(self).entries@.len()
                &&& r->0 == final(self).entries@[i]
                &&& r->0.status == UrlStatus::Fetching
                &&& r->0.claimed_at == Option::Some(now_ms)
                &&& old(self).entries@[i].status == UrlStatus::Discovered
                &&& allowed_transition(old(self).entries@[i].status, r->0.status)
                &&& final(self).entries@ == old(self).entries@.update(i, final(self).entries@[i])
                &&& r->0 == CrawlUrlEntry {
                    status: UrlStatus::Fetching,
                    claimed_at: Option::Some(now_ms),
                    ..old(self).entries@[i]
                }
            }),
    {
        let n = self.entries.len();
        let mut best: Option<usize> = Option::None;
        let mut i: usize = 0;
        while i < n
            invariant
                0 <= i <= n,
                match best {
                    Option::Some(b) => 0 <= b < i && self.spec_best_upto(spec_filter_of(source_id),
                        i as int) == Option::Some(b as int),
                    Option::None => self.spec_best_upto(spec_filter_of(source_id), i as int)
                        is None,
                },
            decreases n - i,
        {
            let e = &self.entries[i];
            let claimable = match e.status {
                UrlStatus::Discovered => match source_id {
                    Option::Some(sid) => crate::text::str_eq(e.source_id.as_str(), sid),
                    Option::None => true,
                },
                _ => false,
            };
            if claimable {
                match best {
                    Option::None => {
                        best = Option::Some(i);
                    },
                    Option::Some(b) => {
                        let cur = &self.entries[b];
                        if e.depth < cur.depth || (e.depth == cur.depth && e.discovered_at
                            < cur.discovered_at) {
                            best = Option::Some(i);
                        }
                    },
                }
            }
            i = i + 1;
        }
        match best {
            Option::None => Option::None,
            Option::Some(b) => {
                proof {
                    lemma_best_upto_claimable(*self, spec_filter_of(source_id), n as int);
                }
                let slot = &mut self.entries[b];
                slot.status = UrlStatus::Fetching;
                slot.claimed_at = Option::Some(now_ms);
                let r = self.entries[b].clone();
                proof {
                    let post = *self;
                    assert(post.entries@ =~= old(self).entries@.update(b as int,
                        post.entries@[b as int]));
                    assert forall|x: int, y: int| 0 <= x < y < self.entries@.len() implies !(
                    #[trigger] self.entries@[x]).same_key((#[trigger] self.entries@[y]).source_id@,
                        self.entries@[y].url@) by {
                        assert(old(self).entries@[x].same_key(old(self).entries@[x].source_id@, old(
                            self).entries@[x].url@));
                        assert(self.entries@[x].source_id@ == old(self).entries@[x].source_id@);
                    }
                }
                Option::Some(r)
            },
        }
    }

    /// Record the typed outcome of a fetch attempt on the claimed row.
    /// Returns whether the row was found; an unknown key changes
    /// nothing.  The new row follows [`spec_result_row`], and the status
    /// change is an allowed edge of the state machine.
    pub fn record_result(
        &mut self,
        source_id: &str,
        url: &str,
        outcome: &FetchOutcome,
        now_ms: u64,
        policy: RetryPolicy,
    ) -> (found: bool)
        requires
            old(self).wf(),
            old(self).spec_entry(source_id@, url@) matches Some(e) ==> e.status
                == UrlStatus::Fetching,
            now_ms <= u64::MAX - MAX_BACKOFF_MS,
            policy.max_retries >= 1,
        ensures
            final(self).wf(),
            found == (old(self).spec_entry(source_id@, url@) is Some),
            !found ==> *final(self) == *old(self),
            found ==> ({
                let i = old(self).spec_find(source_id@, url@)->0;
                &&& final(self).entries@ == old(self).entries@.update(i, final(self).entries@[i])
                &&& spec_result_row(old(self).entries@[i], *outcome, now_ms, policy, final(
                    self).entries@[i])
                &&& allowed_transition(old(self).entries@[i].status, final(self).entries@[i].status)
            }),
            forall|sid: Seq<char>, u: Seq<char>|
                !(sid == source_id@ && u == url@) ==> #[trigger] final(self).spec_entry(sid, u)
                    == old(self).spec_entry(sid, u),
    {
        let found = self.find(source_id, url);
        match found {
            Option::None => {
                proof {
                    lemma_entry_unchanged_all(*self, *self);
                }
                false
            },
            Option::Some(i) => {
                proof {
                    assert(self.spec_find(source_id@, url@)->0 == i as int);
                }
                let new_retry: u32 = if self.entries[i].retry_count < u32::MAX {
                    self.entries[i].retry_count + 1
                } else {
                    self.entries[i].retry_count
                };
                let exhausted = new_retry >= policy.max_retries;
                match outcome {
                    FetchOutcome::Fetched {
                        content_hash,
                        document_id,
                        new_etag,
                        new_last_modified,
                    } => {
                        let slot = &mut self.entries[i];
                        slot.status = UrlStatus::Fetched;
                        slot.fetched_at = Option::Some(now_ms);
                        slot.claimed_at = Option::None;
                        slot.retry_count = 0;
                        slot.last_error = Option::None;
                        slot.next_retry_at = Option::None;
                        slot.etag = new_etag.clone();
                        slot.last_modified = new_last_modified.clone();
                        slot.content_hash = Option::Some(content_hash.clone());
                        slot.document_id = Option::Some(document_id.clone());
                    },
                    FetchOutcome::NotModified { new_etag, new_last_modified } => {
                        let slot = &mut self.entries[i];
                        slot.status = UrlStatus::Fetched;
                        slot.fetched_at = Option::Some(now_ms);
                        slot.claimed_at = Option::None;
                        slot.retry_count = 0;
                        slot.last_error = Option::None;
                        slot.next_retry_at = Option::None;
                        match new_etag {
                            Option::Some(t) => {
                                slot.etag = Option::Some(t.clone());
                            },
                            Option::None => {
                            },
                        }
                        match new_last_modified {
                            Option::Some(m) => {
                                slot.last_modified = Option::Some(m.clone());
                            },
                            Option::None => {
                            },
                        }
                    },
                    FetchOutcome::RateLimited { retry_after_ms } => {
                        let wait: u64 = match retry_after_ms {
                            Option::Some(w) => if *w >= MAX_BACKOFF_MS {
                                MAX_BACKOFF_MS
                            } else {
                                *w
                            },
                            Option::None => crate::backoff::backoff_delay(
                                new_retry,
                                policy.retry_base_ms,
                            ),
                        };
                        let slot = &mut self.entries[i];
                        slot.retry_count = new_retry;
                        slot.claimed_at = Option::None;
                        slot.last_error = Option::Some("rate limited".to_owned());
                        if exhausted {
                            slot.status = UrlStatus::Exhausted;
                            slot.next_retry_at = Option::Some(now_ms);
                        } else {
                            slot.status = UrlStatus::Failed;
                            slot.next_retry_at = Option::Some(now_ms + wait);
                        }
                    },
                    FetchOutcome::ClientError { status } => {
                        let mut msg = "HTTP ".to_owned();
                        let digits = crate::text::u64_to_dec(*status as u64);
                        msg.append(digits.as_str());
                        let slot = &mut self.entries[i];
                        slot.retry_count = new_retry;
                        slot.claimed_at = Option::None;
                        slot.last_error = Option::Some(msg);
                        if exhausted {
                            slot.status = UrlStatus::Exhausted;
                            slot.next_retry_at = Option::Some(now_ms);
                        } else {
                            slot.status = UrlStatus::Failed;
                            slot.next_retry_at = Option::None;
                        }
                    },
                    FetchOutcome::TransientError { reason } => {
                        let wait = crate::backoff::backoff_delay(new_retry, policy.retry_base_ms);
                        let slot = &mut self.entries[i];
                        slot.retry_count = new_retry;
                        slot.claimed_at = Option::None;
                        slot.last_error = Option::Some(reason.clone());
                        if exhausted {
                            slot.status = UrlStatus::Exhausted;
                            slot.next_retry_at = Option::Some(now_ms);
                        } else {
                            slot.status = UrlStatus::Failed;
                            slot.next_retry_at = Option::Some(now_ms + wait);
                        }
                    },
                }
                proof {
                    let post = *self;
                    assert(post.entries@ =~= old(self).entries@.update(i as int,
                        post.entries@[i as int]));
                    lemma_frontier_after_update(*old(self), *self, i as int);
                }
                true
            },
        }
    }

    /// Flip a settled row back to Discovered so that it is fetched
    /// afresh; its retry schedule is cleared.
    pub fn mark_for_refresh(&mut self, source_id: &str, url: &str) -> (found: bool)
        requires
            old(self).wf(),
        ensures
            final(self).wf(),
            found == (old(self).spec_entry(source_id@, url@) is Some),
            !found ==> *final(self) == *old(self),
            found ==> ({
                let i = old(self).spec_find(source_id@, url@)->0;
                &&& final(self).entries@ == old(self).entries@.update(i, final(self).entries@[i])
                &&& final(self).entries@[i] == (CrawlUrlEntry {
                    status: UrlStatus::Discovered,
                    next_retry_at: Option::None,
                    claimed_at: Option::None,
                    ..old(self).entries@[i]
                })
                &&& allowed_transition(old(self).entries@[i].status, UrlStatus::Discovered)
            }),
            forall|sid: Seq<char>, u: Seq<char>|
                !(sid == source_id@ && u == url@) ==> #[trigger] final(self).spec_entry(sid, u)
                    == old(self).spec_entry(sid, u),
    {
        let found = self.find(source_id, url);
        match found {
            Option::None => {
                proof {
                    lemma_entry_unchanged_all(*self, *self);
                }
                false
            },
            Option::Some(i) => {
                proof {
                    assert(self.spec_find(source_id@, url@)->0 == i as int);
                }
                let slot = &mut self.entries[i];
                slot.status = UrlStatus::Discovered;
                slot.next_retry_at = Option::None;
                slot.claimed_at = Option::None;
                proof {
                    let post = *self;
                    assert(post.entries@ =~= old(self).entries@.update(i as int,
                        post.entries@[i as int]));
                    lemma_frontier_after_update(*old(self), *self, i as int);
                }
                true
            },
        }
    }

    /// Whether the startup reaper resets a row: it is stuck in Fetching
    /// with no claim time, or its claim is at least `ttl_ms` old.
    pub open spec fn spec_reapable(e: CrawlUrlEntry, now_ms: u64, ttl_ms: u64) -> bool {
        e.status == UrlStatus::Fetching && match e.claimed_at {
            Option::None => true,
            Option::Some(t) => t + ttl_ms <= now_ms,
        }
    }

    /// The row after the reaper has looked at it.
    pub open spec fn spec_reaped(e: CrawlUrlEntry, now_ms: u64, ttl_ms: u64) -> CrawlUrlEntry {
        if Self::spec_reapable(e, now_ms, ttl_ms) {
            CrawlUrlEntry { status: UrlStatus::Discovered, claimed_at: Option::None, ..e }
        } else {
            e
        }
    }

    /// Startup reaper: reset every Fetching row whose claim is `ttl_ms`
    /// old (or unknown) back to Discovered, so that a crashed worker
    /// never sidelines a URL.  Afterwards no row sits in Fetching beyond
    /// the TTL.
    pub fn reap(&mut self, now_ms: u64, ttl_ms: u64)
        requires
            old(self).wf(),
        ensures
            final(self).wf(),
            final(self).entries@.len() == old(self).entries@.len(),
            forall|i: int|
                0 <= i < old(self).entries@.len() ==> #[trigger] final(self).entries@[i]
                    == Self::spec_reaped(old(self).entries@[i], now_ms, ttl_ms),
            forall|i: int|
                0 <= i < final(self).entries@.len() && (#[trigger] final(self).entries@[i]).status
                    == UrlStatus::Fetching ==> (final(self).entries@[i].claimed_at matches Some(t)
                    && t + ttl_ms > now_ms),
            forall|i: int|
                0 <= i < old(self).entries@.len() ==> allowed_transition(
                    (#[trigger] old(self).entries@[i]).status, final(self).entries@[i].status),
    {
        let n = self.entries.len();
        let mut i: usize = 0;
        while i < n
            invariant
                0 <= i <= n,
                n == self.entries@.len(),
                forall|j: int|
                    0 <= j < i ==> #[trigger] self.entries@[j] == Self::spec_reaped(old(
                        self).entries@[j], now_ms, ttl_ms),
                forall|j: int| i <= j < n ==> #[trigger] self.entries@[j] == old(self).entries@[j],
            decreases n - i,
        {
            let reap_it = match self.entries[i].status {
                UrlStatus::Fetching => match self.entries[i].claimed_at {
                    Option::None => true,
                    Option::Some(t) => t <= now_ms && ttl_ms <= now_ms - t,
                },
                _ => false,
            };
            proof {
                assert(reap_it == Self::spec_reapable(self.entries@[i as int], now_ms, ttl_ms));
            }
            if reap_it {
                let slot = &mut self.entries[i];
                slot.status = UrlStatus::Discovered;
                slot.claimed_at = Option::None;
            }
            i = i + 1;
        }
        proof {
            assert forall|x: int, y: int| 0 <= x < y < self.entries@.len() implies !(
            #[trigger] self.entries@[x]).same_key((#[trigger] self.entries@[y]).source_id@,
                self.entries@[y].url@) by {
                assert(!old(self).entries@[x].same_key(old(self).entries@[y].source_id@, old(
                    self).entries@[y].url@));
            }
        }
    }

    /// Rows of `source_id` in the given status.
    pub open spec fn spec_count_status(self, source_id: Seq<char>, status: UrlStatus) -> int {
        spec_count_rows(self.entries@, source_id, status)
    }

    /// Count the rows of a source in one status.
    pub fn count_status(&self, source_id: &str, status: UrlStatus) -> (r: usize)
        ensures
            r == self.spec_count_status(source_id@, status),
    {
        let n = self.entries.len();
        let mut count: usize = 0;
        let mut i: usize = 0;
        while i < n
            invariant
                0 <= i <= n,
                count == spec_count_rows(self.entries@.take(i as int), source_id@, status),
                count <= i,
            decreases n - i,
        {
            proof {
                assert(self.entries@.take(i + 1).drop_last() =~= self.entries@.take(i as int));
                assert(self.entries@.take(i + 1).last() == self.entries@[i as int]);
            }
            let e = &self.entries[i];
            let matches_status = match (e.status, status) {
                (UrlStatus::Discovered, UrlStatus::Discovered) => true,
                (UrlStatus::Fetching, UrlStatus::Fetching) => true,
                (UrlStatus::Fetched, UrlStatus::Fetched) => true,
                (UrlStatus::Failed, UrlStatus::Failed) => true,
                (UrlStatus::Exhausted, UrlStatus::Exhausted) => true,
                _ => false,
            };
            if matches_status && crate::text::str_eq(e.source_id.as_str(), source_id) {
                count = count + 1;
            }
            i = i + 1;
        }
        proof {
            assert(self.entries@.take(n as int) =~= self.entries@);
        }
        count
    }

    /// Whether a row of this source should go when pending state is
    /// cleared: it is Discovered, Fetching or Failed.
    pub open spec fn spec_pending_clearable(e: CrawlUrlEntry, source_id: Seq<char>) -> bool {
        e.source_id@ == source_id && (e.status == UrlStatus::Discovered || e.status
            == UrlStatus::Fetching || e.status == UrlStatus::Failed)
    }

    /// Clear pending crawl state for a source: every Discovered,
    /// Fetching or Failed row of it is removed; Fetched and Exhausted
    /// rows stay.
    pub fn clear_pending(&mut self, source_id: &str)
        requires
            old(self).wf(),
        ensures
            final(self).wf(),
            final(self).entries@ == old(self).entries@.filter(|e: CrawlUrlEntry|
                !Self::spec_pending_clearable(e, source_id@)),
            forall|i: int|
                0 <= i < final(self).entries@.len() ==> !Self::spec_pending_clearable(
                    #[trigger] final(self).entries@[i], source_id@),
    {
        let ghost f = |e: CrawlUrlEntry| !Self::spec_pending_clearable(e, source_id@);
        let n = self.entries.len();
        let mut kept: Vec<CrawlUrlEntry> = Vec::new();
        let ghost mut witness: Seq<int> = Seq::empty();
        let mut i: usize = 0;
        while i < n
            invariant
                0 <= i <= n,
                n == self.entries@.len(),
                kept@ == self.entries@.take(i as int).filter(f),
                witness.len() == kept@.len(),
                forall|k: int|
                    0 <= k < witness.len() ==> 0 <= #[trigger] witness[k] < i && kept@[k]
                        == self.entries@[witness[k]],
                forall|k1: int, k2: int| 0 <= k1 < k2 < witness.len() ==> witness[k1] < witness[k2],
            decreases n - i,
        {
            proof {
                assert(self.entries@.take(i + 1).drop_last() =~= self.entries@.take(i as int));
                reveal_with_fuel(Seq::filter, 2);
                assert(self.entries@.take(i + 1).last() == self.entries@[i as int]);
            }
            let e = &self.entries[i];
            let clearable = crate::text::str_eq(e.source_id.as_str(), source_id) && match e.status {
                UrlStatus::Discovered => true,
                UrlStatus::Fetching => true,
                UrlStatus::Failed => true,
                _ => false,
            };
            if !clearable {
                kept.push(e.clone());
                proof {
                    witness = witness.push(i as int);
                }
            }
            i = i + 1;
        }
        proof {
            assert(self.entries@.take(n as int) =~= self.entries@);
            assert forall|x: int, y: int| 0 <= x < y < kept@.len() implies !(
            #[trigger] kept@[x]).same_key((#[trigger] kept@[y]).source_id@, kept@[y].url@) by {
                assert(kept@[x] == self.entries@[witness[x]]);
                assert(kept@[y] == self.entries@[witness[y]]);
                assert(witness[x] < witness[y]);
                assert(!self.entries@[witness[x]].same_key(self.entries@[witness[y]].source_id@,
                    self.entries@[witness[y]].url@));
            }
            assert forall|k: int| 0 <= k < kept@.len() implies (#[trigger] kept@[k]).row_wf() by {
                assert(kept@[k] == self.entries@[witness[k]]);
            }
        }
        self.entries = kept;
    }

    /// Clear all crawl state for a source, Fetched rows included.
    pub fn clear_all(&mut self, source_id: &str)
        requires
            old(self).wf(),
        ensures
            final(self).wf(),
            final(self).entries@ == old(self).entries@.filter(|e: CrawlUrlEntry|
                e.source_id@ != source_id@),
            forall|i: int|
                0 <= i < final(self).entries@.len() ==> (#[trigger] final(self).entries@[i]).source_id@
                    != source_id@,
    {
        let ghost f = |e: CrawlUrlEntry| e.source_id@ != source_id@;
        let n = self.entries.len();
        let mut kept: Vec<CrawlUrlEntry> = Vec::new();
        let ghost mut witness: Seq<int> = Seq::empty();
        let mut i: usize = 0;
        while i < n
            invariant
                0 <= i <= n,
                n == self.entries@.len(),
                kept@ == self.entries@.take(i as int).filter(f),
                witness.len() == kept@.len(),
                forall|k: int|
                    0 <= k < witness.len() ==> 0 <= #[trigger] witness[k] < i && kept@[k]
                        == self.entries@[witness[k]],
                forall|k1: int, k2: int| 0 <= k1 < k2 < witness.len() ==> witness[k1] < witness[k2],
            decreases n - i,
        {
            proof {
                assert(self.entries@.take(i + 1).drop_last() =~= self.entries@.take(i as int));
                reveal_with_fuel(Seq::filter, 2);
                assert(self.entries@.take(i + 1).last() == self.entries@[i as int]);
            }
            let e = &self.entries[i];
            if !crate::text::str_eq(e.source_id.as_str(), source_id) {
                kept.push(e.clone());
                proof {
                    witness = witness.push(i as int);
                }
            }
            i = i + 1;
        }
        proof {
            assert(self.entries@.take(n as int) =~= self.entries@);
            assert forall|x: int, y: int| 0 <= x < y < kept@.len() implies !(
            #[trigger] kept@[x]).same_key((#[trigger] kept@[y]).source_id@, kept@[y].url@) by {
                assert(kept@[x] == self.entries@[witness[x]]);
                assert(kept@[y] == self.entries@[witness[y]]);
                assert(!self.entries@[witness[x]].same_key(self.entries@[witness[y]].source_id@,
                    self.entries@[witness[y]].url@));
            }
            assert forall|k: int| 0 <= k < kept@.len() implies (#[trigger] kept@[k]).row_wf() by {
                assert(kept@[k] == self.entries@[witness[k]]);
            }
        }
        self.entries = kept;
    }

    /// Rename a source: every row of `old_id` moves to `new_id`.  The
    /// target name must be unused, so keys stay unique.
    pub fn rename_source(&mut self, old_id: &str, new_id: &str)
        requires
            old(self).wf(),
            forall|i: int|
                0 <= i < old(self).entries@.len() ==> (#[trigger] old(
                    self).entries@[i]).source_id@ != new_id@,
        ensures
            final(self).wf(),
            final(self).entries@.len() == old(self).entries@.len(),
            forall|i: int|
                0 <= i < old(self).entries@.len() && (#[trigger] old(
                    self).entries@[i]).source_id@ == old_id@ ==> spec_renamed_row(old(
                    self).entries@[i], final(self).entries@[i], new_id@),
            forall|i: int|
                0 <= i < old(self).entries@.len() && (#[trigger] old(
                    self).entries@[i]).source_id@ != old_id@ ==> final(self).entries@[i] == old(
                    self).entries@[i],
    {
        let n = self.entries.len();
        let mut i: usize = 0;
        while i < n
            invariant
                0 <= i <= n,
                n == self.entries@.len(),
                forall|j: int|
                    0 <= j < i && (#[trigger] old(self).entries@[j]).source_id@ == old_id@
                        ==> spec_renamed_row(old(self).entries@[j], self.entries@[j], new_id@),
                forall|j: int|
                    (i <= j < n || (0 <= j < i && (#[trigger] old(self).entries@[j]).source_id@
                        != old_id@)) ==> self.entries@[j] == old(self).entries@[j],
            decreases n - i,
        {
            if crate::text::str_eq(self.entries[i].source_id.as_str(), old_id) {
                let slot = &mut self.entries[i];
                slot.source_id = new_id.to_owned();
            }
            i = i + 1;
        }
        proof {
            assert forall|x: int, y: int| 0 <= x < y < self.entries@.len() implies !(
            #[trigger] self.entries@[x]).same_key((#[trigger] self.entries@[y]).source_id@,
                self.entries@[y].url@) by {
                assert(!old(self).entries@[x].same_key(old(self).entries@[y].source_id@, old(
                    self).entries@[y].url@));
                assert(old(self).entries@[x].source_id@ != new_id@);
                assert(old(self).entries@[y].source_id@ != new_id@);
                assert(self.entries@[x].url@ == old(self).entries@[x].url@);
                assert(self.entries@[y].url@ == old(self).entries@[y].url@);
            }
            assert forall|x: int| 0 <= x < self.entries@.len() implies (
            #[trigger] self.entries@[x]).row_wf() by {
                assert(old(self).entries@[x].row_wf());
            }
        }
    }

    /// All rows of one source, whatever their status.
    pub open spec fn spec_count_source(self, source_id: Seq<char>) -> int {
        self.entries@.filter(|e: CrawlUrlEntry| e.source_id@ == source_id).len() as int
    }

    /// The rollup a source's crawl state must satisfy: counts by
    /// status, the pending and unexplored flags, and the timing bounds.
    pub open spec fn spec_state_rollup(self, sid: Seq<char>, r: CrawlState) -> bool {
        &&& r.source_id@ == sid
        &&& r.urls_discovered == self.spec_count_source(sid)
        &&& r.urls_fetched == self.spec_count_status(sid, UrlStatus::Fetched)
        &&& r.urls_failed == self.spec_count_status(sid, UrlStatus::Failed)
            + self.spec_count_status(sid, UrlStatus::Exhausted)
        &&& r.urls_pending == self.spec_count_status(sid, UrlStatus::Discovered)
            + self.spec_count_status(sid, UrlStatus::Fetching)
        &&& r.has_pending_urls == (r.urls_pending > 0)
        &&& r.has_unexplored_branches == (spec_unexplored_upto(self.entries@, sid,
            self.entries@.len() as int) > 0)
        &&& r.last_crawl_started == spec_min_discovered(self.entries@, sid)
        &&& r.oldest_pending_url == spec_oldest_pending(self.entries@, sid)
        &&& r.last_crawl_completed == (if r.urls_pending == 0 {
            spec_max_fetched(self.entries@, sid)
        } else {
            Option::<u64>::None
        })
    }

    /// Roll up the crawl state of one source: counts by status, timing
    /// bounds, and whether unexplored branches remain.
    pub fn crawl_state(&self, source_id: &str) -> (r: CrawlState)
        ensures
            self.spec_state_rollup(source_id@, r),
    {
        let ghost sid = source_id@;
        let ghost f_total = |e: CrawlUrlEntry| e.source_id@ == sid;
        let n = self.entries.len();
        let mut total: usize = 0;
        let mut disc: usize = 0;
        let mut fetching: usize = 0;
        let mut fetched: usize = 0;
        let mut failed: usize = 0;
        let mut exh: usize = 0;
        let mut min_disc: Option<u64> = Option::None;
        let mut max_fetch: Option<u64> = Option::None;
        let mut oldest_pending: Option<u64> = Option::None;
        let mut i: usize = 0;
        while i < n
            invariant
                0 <= i <= n,
                total <= i && disc <= i && fetching <= i && fetched <= i && failed <= i && exh <= i,
                disc + fetching <= i,
                failed + exh <= i,
                total == self.entries@.take(i as int).filter(f_total).len(),
                disc == spec_count_rows(self.entries@.take(i as int), sid, UrlStatus::Discovered),
                fetching == spec_count_rows(self.entries@.take(i as int), sid,
                    UrlStatus::Fetching),
                fetched == spec_count_rows(self.entries@.take(i as int), sid, UrlStatus::Fetched),
                failed == spec_count_rows(self.entries@.take(i as int), sid, UrlStatus::Failed),
                exh == spec_count_rows(self.entries@.take(i as int), sid, UrlStatus::Exhausted),
                min_disc == spec_min_discovered(self.entries@.take(i as int), sid),
                max_fetch == spec_max_fetched(self.entries@.take(i as int), sid),
                oldest_pending == spec_oldest_pending(self.entries@.take(i as int), sid),
            decreases n - i,
        {
            proof {
                assert(self.entries@.take(i + 1).drop_last() =~= self.entries@.take(i as int));
                reveal_with_fuel(Seq::filter, 2);
                assert(self.entries@.take(i + 1).last() == self.entries@[i as int]);
            }
            let e = &self.entries[i];
            if crate::text::str_eq(e.source_id.as_str(), source_id) {
                total = total + 1;
                match e.status {
                    UrlStatus::Discovered => {
                        disc = disc + 1;
                    },
                    UrlStatus::Fetching => {
                        fetching = fetching + 1;
                    },
                    UrlStatus::Fetched => {
                        fetched = fetched + 1;
                    },
                    UrlStatus::Failed => {
                        failed = failed + 1;
                    },
                    UrlStatus::Exhausted => {
                        exh = exh + 1;
                    },
                }
                min_disc = match min_disc {
                    Option::None => Option::Some(e.discovered_at),
                    Option::Some(m) => if e.discovered_at < m {
                        Option::Some(e.discovered_at)
                    } else {
                        Option::Some(m)
                    },
                };
                match e.fetched_at {
                    Option::Some(t) => {
                        max_fetch = match max_fetch {
                            Option::None => Option::Some(t),
                            Option::Some(m) => if t > m {
                                Option::Some(t)
                            } else {
                                Option::Some(m)
                            },
                        };
                    },
                    Option::None => {
                    },
                }
                let pending_row = match e.status {
                    UrlStatus::Discovered => true,
                    UrlStatus::Fetching => true,
                    _ => false,
                };
                if pending_row {
                    oldest_pending = match oldest_pending {
                        Option::None => Option::Some(e.discovered_at),
                        Option::Some(m) => if e.discovered_at < m {
                            Option::Some(e.discovered_at)
                        } else {
                            Option::Some(m)
                        },
                    };
                }
            }
            i = i + 1;
        }
        proof {
            assert(self.entries@.take(n as int) =~= self.entries@);
            assert(f_total =~= (|e: CrawlUrlEntry| e.source_id@ == source_id@));
        }
        let unexplored = self.count_unexplored(source_id);
        let pending = disc + fetching;
        CrawlState {
            source_id: source_id.to_owned(),
            last_crawl_started: min_disc,
            last_crawl_completed: if pending == 0 {
                max_fetch
            } else {
                Option::None
            },
            urls_discovered: total as u64,
            urls_fetched: fetched as u64,
            urls_failed: (failed + exh) as u64,
            urls_pending: pending as u64,
            has_pending_urls: pending > 0,
            has_unexplored_branches: unexplored > 0,
            oldest_pending_url: oldest_pending,
        }
    }

    /// Claim up to `limit` pending rows in one go, best rows first.
    /// Every returned row was Discovered and is now Fetching; no row is
    /// returned twice, and fewer than `limit` rows come back only when
    /// nothing else was claimable.
    pub fn claim_n(&mut self, source_id: Option<&str>, now_ms: u64, limit: usize) -> (r: Vec<
        CrawlUrlEntry,
    >)
        requires
            old(self).wf(),
        ensures
            final(self).wf(),
            final(self).entries@.len() == old(self).entries@.len(),
            r@.len() <= limit,
            forall|k: int|
                0 <= k < r@.len() ==> (#[trigger] r@[k]).status == UrlStatus::Fetching && r@[k].claimed_at
                    == Option::Some(now_ms),
            forall|k: int|
                0 <= k < r@.len() ==> final(self).entries@.contains(#[trigger] r@[k]),
            forall|k1: int, k2: int|
                0 <= k1 < k2 < r@.len() ==> !(#[trigger] r@[k1]).same_key(
                    (#[trigger] r@[k2]).source_id@, r@[k2].url@),
            r@.len() < limit ==> final(self).spec_claim_choice(spec_filter_of(source_id)) is None,
    {
        let ghost n = old(self).entries@.len() as int;
        let mut r: Vec<CrawlUrlEntry> = Vec::new();
        let ghost mut idxs: Seq<int> = Seq::empty();
        let mut done = false;
        while !done && r.len() < limit
            invariant
                self.wf(),
                self.entries@.len() == n,
                r@.len() <= limit,
                idxs.len() == r@.len(),
                done ==> self.spec_claim_choice(spec_filter_of(source_id)) is None,
                forall|k: int|
                    0 <= k < idxs.len() ==> 0 <= #[trigger] idxs[k] < n && self.entries@[idxs[k]]
                        == r@[k],
                forall|k: int|
                    0 <= k < r@.len() ==> (#[trigger] r@[k]).status == UrlStatus::Fetching
                        && r@[k].claimed_at == Option::Some(now_ms),
                forall|k1: int, k2: int| 0 <= k1 < k2 < idxs.len() ==> idxs[k1] != idxs[k2],
            decreases limit - r@.len() + if done {
                0int
            } else {
                1int
            },
        {
            let ghost pre = *self;
            let claimed = self.claim(source_id, now_ms);
            match claimed {
                Option::None => {
                    done = true;
                },
                Option::Some(e) => {
                    let ghost ci = pre.spec_claim_choice(spec_filter_of(source_id))->0;
                    proof {
                        assert(self.entries@[ci] == e);
                        assert(pre.entries@[ci].status == UrlStatus::Discovered);
                        assert forall|k: int| 0 <= k < idxs.len() implies idxs[k] != ci by {
                            assert(pre.entries@[idxs[k]] == r@[k]);
                            assert(r@[k].status == UrlStatus::Fetching);
                        }
                        assert(self.entries@ == pre.entries@.update(ci, self.entries@[ci]));
                        assert forall|k: int| 0 <= k < idxs.len() implies self.entries@[idxs[k]]
                            == r@[k] by {
                            assert(idxs[k] != ci);
                            assert(pre.entries@[idxs[k]] == r@[k]);
                            assert(self.entries@[idxs[k]] == pre.entries@.update(ci,
                                self.entries@[ci])[idxs[k]]);
                        }
                    }
                    r.push(e);
                    proof {
                        idxs = idxs.push(ci);
                    }
                },
            }
        }
        proof {
            assert forall|k: int| 0 <= k < r@.len() implies self.entries@.contains(
                #[trigger] r@[k]) by {
                assert(self.entries@[idxs[k]] == r@[k]);
            }
            assert forall|k1: int, k2: int| 0 <= k1 < k2 < r@.len() implies !(
            #[trigger] r@[k1]).same_key((#[trigger] r@[k2]).source_id@, r@[k2].url@) by {
                let i1 = idxs[k1];
                let i2 = idxs[k2];
                assert(self.entries@[i1] == r@[k1]);
                assert(self.entries@[i2] == r@[k2]);
                if i1 < i2 {
                    assert(!self.entries@[i1].same_key(self.entries@[i2].source_id@,
                        self.entries@[i2].url@));
                } else {
                    assert(!self.entries@[i2].same_key(self.entries@[i1].source_id@,
                        self.entries@[i1].url@));
                    assert(r@[k2].same_key(r@[k2].source_id@, r@[k2].url@));
                }
            }
        }
        r
    }

    /// A row that `retryable` returns: a Failed row whose retry time has
    /// come (or was never set), or an Exhausted row whose exhausting
    /// attempt lies beyond the cool-off.
    pub open spec fn spec_retryable_row(e: CrawlUrlEntry, sid: Seq<char>, now_ms: u64) -> bool {
        &&& e.source_id@ == sid
        &&& match e.status {
            UrlStatus::Failed => e.next_retry_at is None || e.next_retry_at->0 <= now_ms,
            UrlStatus::Exhausted => e.next_retry_at is None || e.next_retry_at->0
                + EXHAUSTED_COOLOFF_MS < now_ms,
            _ => false,
        }
    }

    /// Strictly earlier in the retry order: fewer attempts, or as many
    /// and discovered earlier.
    pub open spec fn spec_retry_before(a: CrawlUrlEntry, b: CrawlUrlEntry) -> bool {
        a.retry_count < b.retry_count || (a.retry_count == b.retry_count && a.discovered_at
            < b.discovered_at)
    }

    /// The Failed rows of a source that are ready for another attempt,
    /// and the Exhausted rows past the cool-off, ordered by
    /// `(retry_count, discovered_at)`, at most `limit` of them.  Fewer
    /// than `limit` rows come back only when every eligible row is in
    /// the result.
    pub fn retryable(&self, source_id: &str, now_ms: u64, limit: usize) -> (r: Vec<CrawlUrlEntry>)
        requires
            self.wf(),
        ensures
            r@.len() <= limit,
            forall|k: int|
                0 <= k < r@.len() ==> self.entries@.contains(#[trigger] r@[k])
                    && Self::spec_retryable_row(r@[k], source_id@, now_ms),
            forall|k1: int, k2: int|
                0 <= k1 < k2 < r@.len() ==> !Self::spec_retry_before(#[trigger] r@[k2],
                    #[trigger] r@[k1]),
            forall|k1: int, k2: int|
                0 <= k1 < k2 < r@.len() ==> !(#[trigger] r@[k1]).same_key(
                    (#[trigger] r@[k2]).source_id@, r@[k2].url@),
            r@.len() < limit ==> forall|i: int|
                0 <= i < self.entries@.len() && Self::spec_retryable_row(
                    #[trigger] self.entries@[i], source_id@, now_ms) ==> exists|k: int|
                    0 <= k < r@.len() && #[trigger] r@[k] == self.entries@[i],
    {
        let ghost sid = source_id@;
        let n = self.entries.len();
        let mut taken: Vec<bool> = Vec::new();
        while taken.len() < n
            invariant
                taken@.len() <= n,
                forall|q: int| 0 <= q < taken@.len() ==> !(#[trigger] taken@[q]),
            decreases n - taken@.len(),
        {
            taken.push(false);
        }
        let mut r: Vec<CrawlUrlEntry> = Vec::new();
        let ghost mut witness: Seq<int> = Seq::empty();
        let mut done = false;
        while !done && r.len() < limit
            invariant
                taken@.len() == n,
                witness.len() == r@.len(),
                r@.len() <= limit,
                forall|k: int|
                    0 <= k < witness.len() ==> 0 <= #[trigger] witness[k] < n
                        && self.entries@[witness[k]] == r@[k] && Self::spec_retryable_row(
                        self.entries@[witness[k]], sid, now_ms) && taken@[witness[k]],
                forall|k1: int, k2: int| 0 <= k1 < k2 < witness.len() ==> witness[k1] != witness[k2],
                forall|q: int|
                    0 <= q < n && #[trigger] taken@[q] ==> exists|k: int|
                        0 <= k < witness.len() && #[trigger] witness[k] == q,
                forall|k1: int, k2: int|
                    0 <= k1 < k2 < r@.len() ==> !Self::spec_retry_before(#[trigger] r@[k2],
                        #[trigger] r@[k1]),
                forall|q: int, k: int|
                    0 <= q < n && Self::spec_retryable_row(#[trigger] self.entries@[q], sid, now_ms)
                        && !taken@[q] && 0 <= k < r@.len() ==> !Self::spec_retry_before(
                        self.entries@[q], #[trigger] r@[k]),
                done ==> forall|q: int|
                    0 <= q < n && Self::spec_retryable_row(#[trigger] self.entries@[q], sid, now_ms)
                        ==> taken@[q],
            decreases limit - r@.len() + if done {
                0int
            } else {
                1int
            },
        {
            let mut best: Option<usize> = Option::None;
            let mut i: usize = 0;
            while i < n
                invariant
                    0 <= i <= n,
                    match best {
                        Option::Some(b) => 0 <= b < i && Self::spec_retryable_row(
                            self.entries@[b as int], sid, now_ms) && !taken@[b as int] && forall|
                            j: int,
                        |
                            0 <= j < i && Self::spec_retryable_row(#[trigger] self.entries@[j], sid,
                                now_ms) && !taken@[j] ==> !Self::spec_retry_before(
                                self.entries@[j], self.entries@[b as int]),
                        Option::None => forall|j: int|
                            0 <= j < i ==> !(Self::spec_retryable_row(#[trigger] self.entries@[j],
                                sid, now_ms) && !taken@[j]),
                    },
                decreases n - i,
            {
                let e = &self.entries[i];
                let eligible = crate::text::str_eq(e.source_id.as_str(), source_id) && (match e.status {
                    UrlStatus::Failed => match e.next_retry_at {
                        Option::None => true,
                        Option::Some(t) => t <= now_ms,
                    },
                    UrlStatus::Exhausted => match e.next_retry_at {
                        Option::None => true,
                        Option::Some(t) => t < now_ms && EXHAUSTED_COOLOFF_MS < now_ms - t,
                    },
                    _ => false,
                });
                proof {
                    assert(eligible == Self::spec_retryable_row(self.entries@[i as int], sid,
                        now_ms));
                }
                if eligible && !taken[i] {
                    match best {
                        Option::None => {
                            best = Option::Some(i);
                        },
                        Option::Some(b) => {
                            let cur = &self.entries[b];
                            if e.retry_count < cur.retry_count || (e.retry_count == cur.retry_count
                                && e.discovered_at < cur.discovered_at) {
                                best = Option::Some(i);
                            }
                        },
                    }
                }
                i = i + 1;
            }
            match best {
                Option::None => {
                    done = true;
                },
                Option::Some(b) => {
                    let ghost old_taken = taken@;
                    let ghost old_witness = witness;
                    let ghost old_r = r@;
                    proof {
                        assert forall|k: int| 0 <= k < r@.len() implies !Self::spec_retry_before(
                            self.entries@[b as int], #[trigger] r@[k]) by {
                            assert(Self::spec_retryable_row(self.entries@[b as int], sid, now_ms));
                        }
                    }
                    r.push(self.entries[b].clone());
                    taken[b] = true;
                    proof {
                        witness = witness.push(b as int);
                        assert forall|q: int| 0 <= q < n && #[trigger] taken@[q] implies exists|
                            k: int,
                        | 0 <= k < witness.len() && #[trigger] witness[k] == q by {
                            if q == b as int {
                                assert(witness[witness.len() - 1] == q);
                            } else {
                                assert(old_taken[q]);
                                let k = choose|k: int|
                                    0 <= k < old_witness.len() && #[trigger] old_witness[k] == q;
                                assert(witness[k] == q);
                            }
                        }
                        assert forall|q: int, k: int|
                            0 <= q < n && Self::spec_retryable_row(#[trigger] self.entries@[q],
                                sid, now_ms) && !taken@[q] && 0 <= k < r@.len() implies
                            !Self::spec_retry_before(self.entries@[q], #[trigger] r@[k]) by {
                            assert(!old_taken[q]);
                            if k < old_r.len() {
                                assert(!Self::spec_retry_before(self.entries@[q], old_r[k]));
                            } else {
                                assert(r@[k] == self.entries@[b as int]);
                            }
                        }
                    }
                },
            }
        }
        proof {
            assert forall|k: int| 0 <= k < r@.len() implies self.entries@.contains(
                #[trigger] r@[k]) && Self::spec_retryable_row(r@[k], source_id@, now_ms) by {
                assert(self.entries@[witness[k]] == r@[k]);
                assert(Self::spec_retryable_row(self.entries@[witness[k]], source_id@, now_ms));
            }
            assert forall|k1: int, k2: int| 0 <= k1 < k2 < r@.len() implies !(
            #[trigger] r@[k1]).same_key((#[trigger] r@[k2]).source_id@, r@[k2].url@) by {
                let i1 = witness[k1];
                let i2 = witness[k2];
                assert(self.entries@[i1] == r@[k1]);
                assert(self.entries@[i2] == r@[k2]);
                if i1 < i2 {
                    assert(!self.entries@[i1].same_key(self.entries@[i2].source_id@,
                        self.entries@[i2].url@));
                } else {
                    assert(!self.entries@[i2].same_key(self.entries@[i1].source_id@,
                        self.entries@[i1].url@));
                }
            }
            if r@.len() < limit {
                assert forall|i: int|
                    0 <= i < self.entries@.len() && Self::spec_retryable_row(
                        #[trigger] self.entries@[i], source_id@, now_ms) implies exists|k: int|
                    0 <= k < r@.len() && #[trigger] r@[k] == self.entries@[i] by {
                    assert(taken@[i]);
                    let k = choose|k: int| 0 <= k < witness.len() && #[trigger] witness[k] == i;
                    assert(r@[k] == self.entries@[i]);
                }
            }
        }
        r
    }

    /// A row due for a freshness re-check: fetched, and last fetched
    /// before the cutoff.
    pub open spec fn spec_needs_refresh(e: CrawlUrlEntry, sid: Seq<char>, older_than_ms: u64)
        -> bool {
        &&& e.source_id@ == sid
        &&& e.status == UrlStatus::Fetched
        &&& (e.fetched_at matches Some(t) && t < older_than_ms)
    }

    /// Strictly earlier in the refresh order: fetched longer ago.
    pub open spec fn spec_refresh_before(a: CrawlUrlEntry, b: CrawlUrlEntry) -> bool {
        a.fetched_at->0 < b.fetched_at->0
    }

    /// The rows of a source whose last fetch lies before the cutoff,
    /// ordered by fetch time ascending (stalest first), at most `limit`
    /// of them.  Fewer than `limit` rows come back only when every such
    /// row is in the result.
    pub fn needing_refresh(&self, source_id: &str, older_than_ms: u64, limit: usize) -> (r: Vec<
        CrawlUrlEntry,
    >)
        requires
            self.wf(),
        ensures
            r@.len() <= limit,
            forall|k: int|
                0 <= k < r@.len() ==> self.entries@.contains(#[trigger] r@[k])
                    && Self::spec_needs_refresh(r@[k], source_id@, older_than_ms),
            forall|k1: int, k2: int|
                0 <= k1 < k2 < r@.len() ==> !Self::spec_refresh_before(#[trigger] r@[k2],
                    #[trigger] r@[k1]),
            forall|k1: int, k2: int|
                0 <= k1 < k2 < r@.len() ==> !(#[trigger] r@[k1]).same_key(
                    (#[trigger] r@[k2]).source_id@, r@[k2].url@),
            r@.len() < limit ==> forall|i: int|
                0 <= i < self.entries@.len() && Self::spec_needs_refresh(
                    #[trigger] self.entries@[i], source_id@, older_than_ms) ==> exists|k: int|
                    0 <= k < r@.len() && #[trigger] r@[k] == self.entries@[i],
    {
        let ghost sid = source_id@;
        let n = self.entries.len();
        let mut taken: Vec<bool> = Vec::new();
        while taken.len() < n
            invariant
                taken@.len() <= n,
                forall|q: int| 0 <= q < taken@.len() ==> !(#[trigger] taken@[q]),
            decreases n - taken@.len(),
        {
            taken.push(false);
        }
        let mut r: Vec<CrawlUrlEntry> = Vec::new();
        let ghost mut witness: Seq<int> = Seq::empty();
        let mut done = false;
        while !done && r.len() < limit
            invariant
                taken@.len() == n,
                n == self.entries@.len(),
                witness.len() == r@.len(),
                r@.len() <= limit,
                forall|k: int|
                    0 <= k < witness.len() ==> 0 <= #[trigger] witness[k] < n
                        && self.entries@[witness[k]] == r@[k] && Self::spec_needs_refresh(
                        self.entries@[witness[k]], sid, older_than_ms) && taken@[witness[k]],
                forall|k1: int, k2: int| 0 <= k1 < k2 < witness.len() ==> witness[k1] != witness[k2],
                forall|q: int|
                    0 <= q < n && #[trigger] taken@[q] ==> exists|k: int|
                        0 <= k < witness.len() && #[trigger] witness[k] == q,
                forall|k1: int, k2: int|
                    0 <= k1 < k2 < r@.len() ==> !Self::spec_refresh_before(#[trigger] r@[k2],
                        #[trigger] r@[k1]),
                forall|q: int, k: int|
                    0 <= q < n && Self::spec_needs_refresh(#[trigger] self.entries@[q], sid,
                        older_than_ms) && !taken@[q] && 0 <= k < r@.len()
                        ==> !Self::spec_refresh_before(self.entries@[q], #[trigger] r@[k]),
                done ==> forall|q: int|
                    0 <= q < n && Self::spec_needs_refresh(#[trigger] self.entries@[q], sid,
                        older_than_ms) ==> taken@[q],
            decreases limit - r@.len() + if done {
                0int
            } else {
                1int
            },
        {
            let mut best: Option<usize> = Option::None;
            let mut i: usize = 0;
            while i < n
                invariant
                    0 <= i <= n,
                    match best {
                        Option::Some(b) => 0 <= b < i && Self::spec_needs_refresh(
                            self.entries@[b as int], sid, older_than_ms) && !taken@[b as int]
                            && forall|j: int|
                            0 <= j < i && Self::spec_needs_refresh(#[trigger] self.entries@[j],
                                sid, older_than_ms) && !taken@[j] ==> !Self::spec_refresh_before(
                                self.entries@[j], self.entries@[b as int]),
                        Option::None => forall|j: int|
                            0 <= j < i ==> !(Self::spec_needs_refresh(#[trigger] self.entries@[j],
                                sid, older_than_ms) && !taken@[j]),
                    },
                decreases n - i,
            {
                let e = &self.entries[i];
                let due = crate::text::str_eq(e.source_id.as_str(), source_id) && (match e.status {
                    UrlStatus::Fetched => true,
                    _ => false,
                }) && (match e.fetched_at {
                    Option::Some(t) => t < older_than_ms,
                    Option::None => false,
                });
                proof {
                    assert(due == Self::spec_needs_refresh(self.entries@[i as int], sid,
                        older_than_ms));
                }
                if due && !taken[i] {
                    match best {
                        Option::None => {
                            best = Option::Some(i);
                        },
                        Option::Some(b) => {
                            let cur_at = match self.entries[b].fetched_at {
                                Option::Some(t) => t,
                                Option::None => 0,
                            };
                            let e_at = match e.fetched_at {
                                Option::Some(t) => t,
                                Option::None => 0,
                            };
                            if e_at < cur_at {
                                best = Option::Some(i);
                            }
                        },
                    }
                }
                i = i + 1;
            }
            match best {
                Option::None => {
                    done = true;
                },
                Option::Some(b) => {
                    let ghost old_taken = taken@;
                    let ghost old_witness = witness;
                    let ghost old_r = r@;
                    proof {
                        assert forall|k: int| 0 <= k < r@.len() implies !Self::spec_refresh_before(
                            self.entries@[b as int], #[trigger] r@[k]) by {
                            assert(Self::spec_needs_refresh(self.entries@[b as int], sid,
                                older_than_ms));
                        }
                    }
                    r.push(self.entries[b].clone());
                    taken[b] = true;
                    proof {
                        witness = witness.push(b as int);
                        assert forall|q: int| 0 <= q < n && #[trigger] taken@[q] implies exists|
                            k: int,
                        | 0 <= k < witness.len() && #[trigger] witness[k] == q by {
                            if q == b as int {
                                assert(witness[witness.len() - 1] == q);
                            } else {
                                assert(old_taken[q]);
                                let k = choose|k: int|
                                    0 <= k < old_witness.len() && #[trigger] old_witness[k] == q;
                                assert(witness[k] == q);
                            }
                        }
                        assert forall|q: int, k: int|
                            0 <= q < n && Self::spec_needs_refresh(#[trigger] self.entries@[q],
                                sid, older_than_ms) && !taken@[q] && 0 <= k < r@.len() implies
                            !Self::spec_refresh_before(self.entries@[q], #[trigger] r@[k]) by {
                            assert(!old_taken[q]);
                            if k < old_r.len() {
                                assert(!Self::spec_refresh_before(self.entries@[q], old_r[k]));
                            } else {
                                assert(r@[k] == self.entries@[b as int]);
                            }
                        }
                    }
                },
            }
        }
        proof {
            assert forall|k: int| 0 <= k < r@.len() implies self.entries@.contains(
                #[trigger] r@[k]) && Self::spec_needs_refresh(r@[k], source_id@, older_than_ms) by {
                assert(self.entries@[witness[k]] == r@[k]);
                assert(Self::spec_needs_refresh(self.entries@[witness[k]], source_id@,
                    older_than_ms));
            }
            assert forall|k1: int, k2: int| 0 <= k1 < k2 < r@.len() implies !(
            #[trigger] r@[k1]).same_key((#[trigger] r@[k2]).source_id@, r@[k2].url@) by {
                let i1 = witness[k1];
                let i2 = witness[k2];
                assert(self.entries@[i1] == r@[k1]);
                assert(self.entries@[i2] == r@[k2]);
                if i1 < i2 {
                    assert(!self.entries@[i1].same_key(self.entries@[i2].source_id@,
                        self.entries@[i2].url@));
                } else {
                    assert(!self.entries@[i2].same_key(self.entries@[i1].source_id@,
                        self.entries@[i1].url@));
                }
            }
            if r@.len() < limit {
                assert forall|i: int|
                    0 <= i < self.entries@.len() && Self::spec_needs_refresh(
                        #[trigger] self.entries@[i], source_id@, older_than_ms) implies exists|
                    k: int,
                | 0 <= k < r@.len() && #[trigger] r@[k] == self.entries@[i] by {
                    assert(taken@[i]);
                    let k = choose|k: int| 0 <= k < witness.len() && #[trigger] witness[k] == i;
                    assert(r@[k] == self.entries@[i]);
                }
            }
        }
        r
    }

    /// The distinct sources with at least one row, in first-appearance
    /// order.
    pub fn source_ids(&self) -> (r: Vec<String>)
        ensures
            forall|k1: int, k2: int|
                0 <= k1 < k2 < r@.len() ==> (#[trigger] r@[k1])@ != (#[trigger] r@[k2])@,
            forall|k: int|
                0 <= k < r@.len() ==> spec_has_source(self.entries@, (#[trigger] r@[k])@),
            forall|i: int|
                0 <= i < self.entries@.len() ==> spec_lists_source(r@, (
                #[trigger] self.entries@[i]).source_id@),
    {
        let n = self.entries.len();
        let mut r: Vec<String> = Vec::new();
        let mut i: usize = 0;
        while i < n
            invariant
                0 <= i <= n,
                n == self.entries@.len(),
                forall|k1: int, k2: int|
                    0 <= k1 < k2 < r@.len() ==> (#[trigger] r@[k1])@ != (#[trigger] r@[k2])@,
                forall|k: int|
                    0 <= k < r@.len() ==> spec_has_source(self.entries@, (#[trigger] r@[k])@),
                forall|x: int|
                    0 <= x < i ==> spec_lists_source(r@, (#[trigger] self.entries@[x]).source_id@),
            decreases n - i,
        {
            let sid = &self.entries[i].source_id;
            let m = r.len();
            let mut seen = false;
            let mut k: usize = 0;
            while k < m
                invariant
                    0 <= k <= m,
                    m == r@.len(),
                    seen == exists|y: int| 0 <= y < k && (#[trigger] r@[y])@ == sid@,
                decreases m - k,
            {
                if !seen && crate::text::str_eq(r[k].as_str(), sid.as_str()) {
                    seen = true;
                }
                k = k + 1;
            }
            let ghost old_r = r@;
            if !seen {
                r.push(sid.clone());
            }
            proof {
                if !seen {
                    assert((r@[r@.len() - 1])@ == self.entries@[i as int].source_id@);
                    assert forall|k1: int, k2: int| 0 <= k1 < k2 < r@.len() implies (
                    #[trigger] r@[k1])@ != (#[trigger] r@[k2])@ by {
                        if k2 < old_r.len() {
                            assert(r@[k1] == old_r[k1] && r@[k2] == old_r[k2]);
                        } else {
                            assert(r@[k1] == old_r[k1]);
                            assert(!(old_r[k1]@ == sid@));
                        }
                    }
                    assert forall|k: int| 0 <= k < r@.len() implies spec_has_source(self.entries@, (
                    #[trigger] r@[k])@) by {
                        if k < old_r.len() {
                            assert(r@[k] == old_r[k]);
                            assert(spec_has_source(self.entries@, old_r[k]@));
                        } else {
                            assert(self.entries@[i as int].source_id@ == r@[k]@);
                        }
                    }
                }
                assert forall|x: int| 0 <= x < i + 1 implies spec_lists_source(r@, (
                #[trigger] self.entries@[x]).source_id@) by {
                    if x == i as int {
                        if seen {
                            let y = choose|y: int|
                                0 <= y < old_r.len() && (#[trigger] old_r[y])@ == sid@;
                            assert(r@[y] == old_r[y]);
                            assert((r@[y])@ == self.entries@[x].source_id@);
                        } else {
                            assert((r@[r@.len() - 1])@ == self.entries@[x].source_id@);
                        }
                    } else {
                        assert(spec_lists_source(old_r, self.entries@[x].source_id@));
                        let kk = choose|kk: int|
                            0 <= kk < old_r.len() && (#[trigger] old_r[kk])@ == self.entries@[
                            x].source_id@;
                        assert(r@[kk] == old_r[kk]);
                        assert((r@[kk])@ == self.entries@[x].source_id@);
                    }
                }
            }
            i = i + 1;
        }
        r
    }

    /// Roll up the crawl state of every source that has rows: one
    /// `(source_id, rollup)` pair per distinct source, in
    /// first-appearance order.
    pub fn all_crawl_states(&self) -> (r: Vec<(String, CrawlState)>)
        ensures
            forall|k1: int, k2: int|
                0 <= k1 < k2 < r@.len() ==> ((#[trigger] r@[k1]).0)@ != ((#[trigger] r@[k2]).0)@,
            forall|i: int|
                0 <= i < self.entries@.len() ==> spec_lists_state(r@, (
                #[trigger] self.entries@[i]).source_id@),
            forall|k: int|
                0 <= k < r@.len() ==> spec_has_source(self.entries@, ((#[trigger] r@[k]).0)@),
            forall|k: int|
                0 <= k < r@.len() ==> self.spec_state_rollup(((#[trigger] r@[k]).0)@, r@[k].1),
    {
        let ids = self.source_ids();
        let n = ids.len();
        let mut r: Vec<(String, CrawlState)> = Vec::new();
        let mut i: usize = 0;
        while i < n
            invariant
                0 <= i <= n,
                n == ids@.len(),
                r@.len() == i,
                forall|k: int| 0 <= k < i ==> ((#[trigger] r@[k]).0)@ == (ids@[k])@,
                forall|k: int| 0 <= k < n ==> spec_has_source(self.entries@, (#[trigger] ids@[k])@),
                forall|k: int|
                    0 <= k < i ==> self.spec_state_rollup(((#[trigger] r@[k]).0)@, r@[k].1),
            decreases n - i,
        {
            let state = self.crawl_state(ids[i].as_str());
            r.push((ids[i].clone(), state));
            i = i + 1;
        }
        proof {
            assert forall|x: int| 0 <= x < self.entries@.len() implies spec_lists_state(r@, (
            #[trigger] self.entries@[x]).source_id@) by {
                assert(spec_lists_source(ids@, self.entries@[x].source_id@));
                let k = choose|k: int|
                    0 <= k < ids@.len() && (#[trigger] ids@[k])@ == self.entries@[x].source_id@;
                assert(((r@[k]).0)@ == ids@[k]@);
            }
        }
        r
    }

    /// Count the unexplored branches of a source: fetched link-derived
    /// rows below the depth limit with no child row yet.
    pub fn count_unexplored(&self, source_id: &str) -> (r: usize)
        ensures
            r == spec_unexplored_upto(self.entries@, source_id@, self.entries@.len() as int),
    {
        let ghost sid = source_id@;
        let n = self.entries.len();
        let mut count: usize = 0;
        let mut i: usize = 0;
        while i < n
            invariant
                0 <= i <= n,
                count <= i,
                count == spec_unexplored_upto(self.entries@, sid, i as int),
            decreases n - i,
        {
            let e = &self.entries[i];
            let candidate = crate::text::str_eq(e.source_id.as_str(), source_id) && (match e.status {
                UrlStatus::Fetched => true,
                _ => false,
            }) && e.discovery_method.is_branching() && e.depth < UNEXPLORED_MAX_DEPTH;
            if candidate {
                let mut has_child = false;
                let mut j: usize = 0;
                while j < n
                    invariant
                        0 <= j <= n,
                        has_child == (exists|k: int|
                            0 <= k < j && (#[trigger] self.entries@[k]).source_id@ == sid && (
                            self.entries@[k].parent_url matches Some(p) && p@
                                == self.entries@[i as int].url@)),
                    decreases n - j,
                {
                    if !has_child {
                        let other = &self.entries[j];
                        if crate::text::str_eq(other.source_id.as_str(), source_id) {
                            match &other.parent_url {
                                Option::Some(p) => {
                                    if crate::text::str_eq(p.as_str(), e.url.as_str()) {
                                        has_child = true;
                                    }
                                },
                                Option::None => {
                                },
                            }
                        }
                    }
                    j = j + 1;
                }
                if !has_child {
                    count = count + 1;
                }
                proof {
                    assert(spec_unexplored_branch(self.entries@, sid, i as int) == !has_child);
                }
            } else {
                proof {
                    assert(!spec_unexplored_branch(self.entries@, sid, i as int));
                }
            }
            i = i + 1;
        }
        count
    }
}

/// Aggregate crawl state of one source.
#[derive(Debug)]
pub struct CrawlState {
    /// The source these numbers describe.
    pub source_id: String,
    /// When the earliest known URL of the source was discovered.
    pub last_crawl_started: Option<u64>,
    /// Latest successful fetch time, reported only once nothing is
    /// pending any more.
    pub last_crawl_completed: Option<u64>,
    /// All URLs ever discovered for the source.
    pub urls_discovered: u64,
    /// URLs fetched successfully.
    pub urls_fetched: u64,
    /// URLs that failed, Exhausted ones included.
    pub urls_failed: u64,
    /// URLs still awaiting a fetch (Discovered or Fetching).
    pub urls_pending: u64,
    /// Whether anything is still pending.
    pub has_pending_urls: bool,
    /// Whether a fetched branch row below the depth limit has no
    /// children yet.
    pub has_unexplored_branches: bool,
    /// Discovery time of the oldest pending URL.
    pub oldest_pending_url: Option<u64>,
}

/// Minimum `discovered_at` over the rows of a source.
pub open spec fn spec_min_discovered(s: Seq<CrawlUrlEntry>, sid: Seq<char>) -> Option<u64>
    decreases s.len(),
{
    if s.len() == 0 {
        Option::None
    } else {
        let rest = spec_min_discovered(s.drop_last(), sid);
        let e = s.last();
        if e.source_id@ == sid {
            match rest {
                Option::None => Option::Some(e.discovered_at),
                Option::Some(m) => if e.discovered_at < m {
                    Option::Some(e.discovered_at)
                } else {
                    Option::Some(m)
                },
            }
        } else {
            rest
        }
    }
}

/// Maximum `fetched_at` over the rows of a source.
pub open spec fn spec_max_fetched(s: Seq<CrawlUrlEntry>, sid: Seq<char>) -> Option<u64>
    decreases s.len(),
{
    if s.len() == 0 {
        Option::None
    } else {
        let rest = spec_max_fetched(s.drop_last(), sid);
        let e = s.last();
        match e.fetched_at {
            Option::Some(t) if e.source_id@ == sid => match rest {
                Option::None => Option::Some(t),
                Option::Some(m) => if t > m {
                    Option::Some(t)
                } else {
                    Option::Some(m)
                },
            },
            _ => rest,
        }
    }
}

/// Minimum `discovered_at` over the pending rows of a source.
pub open spec fn spec_oldest_pending(s: Seq<CrawlUrlEntry>, sid: Seq<char>) -> Option<u64>
    decreases s.len(),
{
    if s.len() == 0 {
        Option::None
    } else {
        let rest = spec_oldest_pending(s.drop_last(), sid);
        let e = s.last();
        if e.source_id@ == sid && e.status.is_pending() {
            match rest {
                Option::None => Option::Some(e.discovered_at),
                Option::Some(m) => if e.discovered_at < m {
                    Option::Some(e.discovered_at)
                } else {
                    Option::Some(m)
                },
            }
        } else {
            rest
        }
    }
}

/// An unexplored branch: a fetched row that was itself discovered by
/// following links, sits above the depth limit, and has no child row
/// naming it as parent within the same source.
pub open spec fn spec_unexplored_branch(s: Seq<CrawlUrlEntry>, sid: Seq<char>, i: int) -> bool {
    &&& 0 <= i < s.len()
    &&& s[i].source_id@ == sid
    &&& s[i].status == UrlStatus::Fetched
    &&& s[i].discovery_method.spec_is_branching()
    &&& s[i].depth < UNEXPLORED_MAX_DEPTH
    &&& !(exists|j: int|
        0 <= j < s.len() && (#[trigger] s[j]).source_id@ == sid && (s[j].parent_url matches Some(p)
            && p@ == s[i].url@))
}

/// How many unexplored branches the first `n` rows hold.
pub open spec fn spec_unexplored_upto(s: Seq<CrawlUrlEntry>, sid: Seq<char>, n: int) -> int
    decreases n,
{
    if n <= 0 {
        0
    } else {
        spec_unexplored_upto(s, sid, n - 1) + if spec_unexplored_branch(s, sid, n - 1) {
            1int
        } else {
            0int
        }
    }
}

/// After one row is replaced with a row of the same key that satisfies
/// the row invariant, the frontier is still well formed and every other
/// key looks up unchanged.
proof fn lemma_frontier_after_update(pre: Frontier, post: Frontier, i: int)
    requires
        pre.wf(),
        0 <= i < pre.entries@.len(),
        post.entries@.len() == pre.entries@.len(),
        forall|j: int| 0 <= j < pre.entries@.len() && j != i ==> post.entries@[j] == pre.entries@[j],
        post.entries@[i].url@ == pre.entries@[i].url@,
        post.entries@[i].source_id@ == pre.entries@[i].source_id@,
        post.entries@[i].row_wf(),
    ensures
        post.wf(),
        post.spec_find(pre.entries@[i].source_id@, pre.entries@[i].url@) == Option::Some(i),
        forall|sid: Seq<char>, u: Seq<char>|
            !(sid == pre.entries@[i].source_id@ && u == pre.entries@[i].url@) ==>
                #[trigger] post.spec_entry(sid, u) == pre.spec_entry(sid, u),
{
    let sid0 = pre.entries@[i].source_id@;
    let u0 = pre.entries@[i].url@;
    assert forall|x: int, y: int| 0 <= x < y < post.entries@.len() implies !(
    #[trigger] post.entries@[x]).same_key((#[trigger] post.entries@[y]).source_id@,
        post.entries@[y].url@) by {
        assert(!pre.entries@[x].same_key(pre.entries@[y].source_id@, pre.entries@[y].url@));
        assert(post.entries@[x].source_id@ == pre.entries@[x].source_id@);
        assert(post.entries@[x].url@ == pre.entries@[x].url@);
        assert(post.entries@[y].source_id@ == pre.entries@[y].source_id@);
        assert(post.entries@[y].url@ == pre.entries@[y].url@);
    }
    assert(post.spec_find(sid0, u0) == Option::Some(i)) by {
        assert(post.entries@[i].same_key(sid0, u0));
        let w = choose|k: int|
            0 <= k < post.entries@.len() && (#[trigger] post.entries@[k]).same_key(sid0, u0);
        if w != i {
            assert(!post.entries@[if w < i {
                w
            } else {
                i
            }].same_key(post.entries@[if w < i {
                i
            } else {
                w
            }].source_id@, post.entries@[if w < i {
                i
            } else {
                w
            }].url@));
        }
    }
    assert forall|sid: Seq<char>, u: Seq<char>| !(sid == sid0 && u == u0) implies
        #[trigger] post.spec_entry(sid, u) == pre.spec_entry(sid, u) by {
        if exists|k: int| 0 <= k < pre.entries@.len() && (#[trigger] pre.entries@[k]).same_key(sid,
            u) {
            let k = choose|k: int|
                0 <= k < pre.entries@.len() && (#[trigger] pre.entries@[k]).same_key(sid, u);
            assert(k != i);
            assert(post.entries@[k].same_key(sid, u));
            let k2 = post.spec_find(sid, u)->0;
            if k2 != k {
                assert(!post.entries@[if k2 < k {
                    k2
                } else {
                    k
                }].same_key(post.entries@[if k2 < k {
                    k
                } else {
                    k2
                }].source_id@, post.entries@[if k2 < k {
                    k
                } else {
                    k2
                }].url@));
            }
            let k3 = pre.spec_find(sid, u)->0;
            if k3 != k {
                assert(!pre.entries@[if k3 < k {
                    k3
                } else {
                    k
                }].same_key(pre.entries@[if k3 < k {
                    k
                } else {
                    k3
                }].source_id@, pre.entries@[if k3 < k {
                    k
                } else {
                    k3
                }].url@));
            }
        } else {
            assert(forall|k: int|
                0 <= k < post.entries@.len() ==> (#[trigger] post.entries@[k]).same_key(sid, u)
                    == (#[trigger] pre.entries@[k]).same_key(sid, u));
        }
    }
}

/// How many of these rows belong to the source and sit in the status.
pub open spec fn spec_count_rows(s: Seq<CrawlUrlEntry>, source_id: Seq<char>, status: UrlStatus)
    -> int
    decreases s.len(),
{
    if s.len() == 0 {
        0
    } else {
        spec_count_rows(s.drop_last(), source_id, status) + if s.last().source_id@ == source_id
            && s.last().status == status {
            1int
        } else {
            0int
        }
    }
}

/// No row matches, so the count is zero.
pub proof fn lemma_count_rows_zero(s: Seq<CrawlUrlEntry>, source_id: Seq<char>, status: UrlStatus)
    requires
        forall|i: int|
            0 <= i < s.len() ==> !((#[trigger] s[i]).source_id@ == source_id && s[i].status
                == status),
    ensures
        spec_count_rows(s, source_id, status) == 0,
    decreases s.len(),
{
    if s.len() > 0 {
        lemma_count_rows_zero(s.drop_last(), source_id, status);
    }
}

/// Retry policy: how many attempts a URL gets and the base backoff.
#[derive(Clone, Copy, Debug)]
pub struct RetryPolicy {
    /// Attempts after which a row becomes Exhausted.
    pub max_retries: u32,
    /// Base of the exponential retry backoff, in milliseconds.
    pub retry_base_ms: u64,
}

impl RetryPolicy {
    /// The stock policy: five attempts, one-second base backoff.
    pub fn new() -> (r: Self)
        ensures
            r.max_retries == 5,
            r.retry_base_ms == 1000,
    {
        RetryPolicy { max_retries: 5, retry_base_ms: 1000 }
    }
}

/// The retry count after one more failure, saturating.
pub open spec fn spec_next_retry_count(e: CrawlUrlEntry) -> u32 {
    if e.retry_count < u32::MAX {
        (e.retry_count + 1) as u32
    } else {
        e.retry_count
    }
}

/// Failed until the policy maximum, Exhausted from then on.
pub open spec fn spec_failed_status(rc: u32, policy: RetryPolicy) -> UrlStatus {
    if rc >= policy.max_retries {
        UrlStatus::Exhausted
    } else {
        UrlStatus::Failed
    }
}

/// The wait a rate-limited attempt schedules: the advised wait capped at
/// [`MAX_BACKOFF_MS`] when one was given, else the exponential backoff.
pub open spec fn spec_rate_limit_wait(retry_after_ms: Option<u64>, rc: u32, policy: RetryPolicy)
    -> int {
    match retry_after_ms {
        Option::Some(w) => if w >= MAX_BACKOFF_MS {
            MAX_BACKOFF_MS as int
        } else {
            w as int
        },
        Option::None => spec_backoff_delay(rc as nat, policy.retry_base_ms as nat) as int,
    }
}

/// Fields that never change when an outcome is recorded: identity,
/// lineage and discovery time.
pub open spec fn spec_same_identity(e: CrawlUrlEntry, n: CrawlUrlEntry) -> bool {
    &&& n.url == e.url
    &&& n.source_id == e.source_id
    &&& n.discovery_method == e.discovery_method
    &&& n.parent_url == e.parent_url
    &&& n.discovery_context == e.discovery_context
    &&& n.depth == e.depth
    &&& n.discovered_at == e.discovered_at
}

/// A failure keeps the caching and linkage fields of the row.
pub open spec fn spec_same_cache(e: CrawlUrlEntry, n: CrawlUrlEntry) -> bool {
    &&& n.etag == e.etag
    &&& n.last_modified == e.last_modified
    &&& n.content_hash == e.content_hash
    &&& n.document_id == e.document_id
}

/// What the frontier row looks like after an outcome is recorded on it.
///
/// A body (`Fetched`) settles the row with the new linkage; a 304
/// (`NotModified`) settles it while keeping the stored linkage, taking
/// refreshed validators only where the response carried them.  The three
/// failures advance the retry count; up to the policy maximum the row is
/// Failed with its retry time (rate limited and transient failures get a
/// backoff, client errors none), beyond it the row is Exhausted and
/// `next_retry_at` records the exhausting attempt.
pub open spec fn spec_result_row(
    e: CrawlUrlEntry,
    outcome: FetchOutcome,
    now_ms: u64,
    policy: RetryPolicy,
    n: CrawlUrlEntry,
) -> bool {
    match outcome {
        FetchOutcome::Fetched { content_hash, document_id, new_etag, new_last_modified } => n == (
        CrawlUrlEntry {
            status: UrlStatus::Fetched,
            fetched_at: Option::Some(now_ms),
            claimed_at: Option::None,
            retry_count: 0,
            last_error: Option::None,
            next_retry_at: Option::None,
            etag: new_etag,
            last_modified: new_last_modified,
            content_hash: Option::Some(content_hash),
            document_id: Option::Some(document_id),
            ..e
        }),
        FetchOutcome::NotModified { new_etag, new_last_modified } => n == (CrawlUrlEntry {
            status: UrlStatus::Fetched,
            fetched_at: Option::Some(now_ms),
            claimed_at: Option::None,
            retry_count: 0,
            last_error: Option::None,
            next_retry_at: Option::None,
            etag: if new_etag is Some {
                new_etag
            } else {
                e.etag
            },
            last_modified: if new_last_modified is Some {
                new_last_modified
            } else {
                e.last_modified
            },
            ..e
        }),
        FetchOutcome::RateLimited { retry_after_ms } => {
            let rc = spec_next_retry_count(e);
            &&& spec_same_identity(e, n)
            &&& spec_same_cache(e, n)
            &&& n.status == spec_failed_status(rc, policy)
            &&& n.retry_count == rc
            &&& n.fetched_at == e.fetched_at
            &&& n.claimed_at is None
            &&& (n.status == UrlStatus::Failed ==> n.next_retry_at == Option::Some(
                (now_ms + spec_rate_limit_wait(retry_after_ms, rc, policy)) as u64))
            &&& (n.status == UrlStatus::Exhausted ==> n.next_retry_at == Option::Some(now_ms))
            &&& (n.last_error matches Some(m) && m@ == "rate limited"@)
        },
        FetchOutcome::ClientError { status } => {
            let rc = spec_next_retry_count(e);
            &&& spec_same_identity(e, n)
            &&& spec_same_cache(e, n)
            &&& n.status == spec_failed_status(rc, policy)
            &&& n.retry_count == rc
            &&& n.fetched_at == e.fetched_at
            &&& n.claimed_at is None
            &&& (n.status == UrlStatus::Failed ==> n.next_retry_at is None)
            &&& (n.status == UrlStatus::Exhausted ==> n.next_retry_at == Option::Some(now_ms))
            &&& (n.last_error matches Some(m) && m@ == "HTTP "@ + spec_dec_str(status as int))
        },
        FetchOutcome::TransientError { reason } => {
            let rc = spec_next_retry_count(e);
            &&& spec_same_identity(e, n)
            &&& spec_same_cache(e, n)
            &&& n.status == spec_failed_status(rc, policy)
            &&& n.retry_count == rc
            &&& n.fetched_at == e.fetched_at
            &&& n.claimed_at is None
            &&& (n.status == UrlStatus::Failed ==> n.next_retry_at == Option::Some(
                (now_ms + spec_backoff_delay(rc as nat, policy.retry_base_ms as nat)) as u64))
            &&& (n.status == UrlStatus::Exhausted ==> n.next_retry_at == Option::Some(now_ms))
            &&& (n.last_error matches Some(m) && m@ == reason@)
        },
    }
}

/// A row after its source was renamed: only the source changed.
pub open spec fn spec_renamed_row(pre: CrawlUrlEntry, post: CrawlUrlEntry, new_id: Seq<char>)
    -> bool {
    &&& post.source_id@ == new_id
    &&& post.url == pre.url
    &&& post.status == pre.status
    &&& post.discovery_method == pre.discovery_method
    &&& post.parent_url == pre.parent_url
    &&& post.discovery_context == pre.discovery_context
    &&& post.depth == pre.depth
    &&& post.discovered_at == pre.discovered_at
    &&& post.fetched_at == pre.fetched_at
    &&& post.claimed_at == pre.claimed_at
    &&& post.retry_count == pre.retry_count
    &&& post.last_error == pre.last_error
    &&& post.next_retry_at == pre.next_retry_at
    &&& post.etag == pre.etag
    &&& post.last_modified == pre.last_modified
    &&& post.content_hash == pre.content_hash
    &&& post.document_id == pre.document_id
}

/// What a freshly added row looks like.
pub open spec fn spec_fresh_row(
    e: CrawlUrlEntry,
    source_id: Seq<char>,
    url: Seq<char>,
    discovery_method: DiscoveryMethod,
    parent_url: Option<String>,
    discovery_context: String,
    depth: u32,
    now_ms: u64,
) -> bool {
    &&& e.same_key(source_id, url)
    &&& e.status == UrlStatus::Discovered
    &&& e.discovery_method == discovery_method
    &&& e.parent_url == parent_url
    &&& e.discovery_context == discovery_context
    &&& e.depth == depth
    &&& e.discovered_at == now_ms
    &&& e.retry_count == 0
    &&& e.fetched_at is None
    &&& e.claimed_at is None
    &&& e.next_retry_at is None
    &&& e.content_hash is None
    &&& e.document_id is None
    &&& e.etag is None
    &&& e.last_modified is None
    &&& e.last_error is None
}

/// Some row carries this source.
pub open spec fn spec_has_source(s: Seq<CrawlUrlEntry>, sid: Seq<char>) -> bool {
    exists|i: int| 0 <= i < s.len() && (#[trigger] s[i]).source_id@ == sid
}

/// Some listed name reads as this source.
pub open spec fn spec_lists_source(ids: Seq<String>, sid: Seq<char>) -> bool {
    exists|k: int| 0 <= k < ids.len() && (#[trigger] ids[k])@ == sid
}

/// Some rollup row names this source.
pub open spec fn spec_lists_state(rows: Seq<(String, CrawlState)>, sid: Seq<char>) -> bool {
    exists|k: int| 0 <= k < rows.len() && ((#[trigger] rows[k]).0)@ == sid
}

/// The source filter a claim call uses.
pub open spec fn spec_filter_of(source_id: Option<&str>) -> Option<Seq<char>> {
    match source_id {
        Option::Some(s) => Option::Some(s@),
        Option::None => Option::None,
    }
}

/// After a push of a fresh key, old keys look up unchanged and the new
/// key finds the pushed row.
proof fn lemma_frontier_after_push(pre: Frontier, post: Frontier, source_id: Seq<char>, url: Seq<char>)
    requires
        pre.wf(),
        pre.spec_find(source_id, url) is None,
        post.entries@.len() == pre.entries@.len() + 1,
        forall|j: int| 0 <= j < pre.entries@.len() ==> post.entries@[j] == pre.entries@[j],
        post.entries@.last().same_key(source_id, url),
        post.entries@.last().row_wf(),
    ensures
        post.wf(),
        post.spec_entry(source_id, url) == Option::Some(post.entries@.last()),
        forall|sid: Seq<char>, u: Seq<char>|
            !(sid == source_id && u == url) ==> #[trigger] post.spec_entry(sid, u)
                == pre.spec_entry(sid, u),
{
    let n = pre.entries@.len() as int;
    assert forall|i: int, j: int| 0 <= i < j < post.entries@.len() implies !(
    #[trigger] post.entries@[i]).same_key((#[trigger] post.entries@[j]).source_id@,
        post.entries@[j].url@) by {
        if j < n {
            assert(!pre.entries@[i].same_key(pre.entries@[j].source_id@, pre.entries@[j].url@));
        } else {
            assert(post.entries@[j].same_key(source_id, url));
            assert(!pre.entries@[i].same_key(source_id, url));
        }
    }
    assert forall|sid: Seq<char>, u: Seq<char>| !(sid == source_id && u == url) implies
        #[trigger] post.spec_entry(sid, u) == pre.spec_entry(sid, u) by {
        if exists|k: int| 0 <= k < pre.entries@.len() && (#[trigger] pre.entries@[k]).same_key(sid,
            u) {
            let k = choose|k: int|
                0 <= k < pre.entries@.len() && (#[trigger] pre.entries@[k]).same_key(sid, u);
            assert(post.entries@[k].same_key(sid, u));
            let k2 = post.spec_find(sid, u)->0;
            if k2 != k {
                assert(post.entries@[if k2 < k {
                    k2
                } else {
                    k
                }].same_key(post.entries@[if k2 < k {
                    k
                } else {
                    k2
                }].source_id@, post.entries@[if k2 < k {
                    k
                } else {
                    k2
                }].url@));
            }
            let k3 = pre.spec_find(sid, u)->0;
            if k3 != k {
                assert(pre.entries@[if k3 < k {
                    k3
                } else {
                    k
                }].same_key(pre.entries@[if k3 < k {
                    k
                } else {
                    k3
                }].source_id@, pre.entries@[if k3 < k {
                    k
                } else {
                    k3
                }].url@));
            }
        } else {
            assert(forall|k: int| 0 <= k < n ==> !(#[trigger] post.entries@[k]).same_key(sid, u));
            assert(!post.entries@[n].same_key(sid, u));
            assert(forall|k: int|
                0 <= k < post.entries@.len() ==> !(#[trigger] post.entries@[k]).same_key(sid, u));
        }
    }
}

/// The claim choice over a prefix is a claimable index inside it.
pub proof fn lemma_best_upto_claimable(f: Frontier, filter: Option<Seq<char>>, n: int)
    requires
        n <= f.entries@.len(),
    ensures
        f.spec_best_upto(filter, n) matches Some(i) ==> 0 <= i < n && f.spec_claimable(filter, i),
    decreases n,
{
    if n > 0 {
        lemma_best_upto_claimable(f, filter, n - 1);
    }
}

/// Claim exclusivity, first half: a claim only ever hands out a row
/// that is Discovered at the moment of the claim.
pub proof fn lemma_claim_yields_discovered(f: Frontier, filter: Option<Seq<char>>)
    ensures
        f.spec_claim_choice(filter) matches Some(i) ==> 0 <= i < f.entries@.len()
            && f.entries@[i].status == UrlStatus::Discovered,
{
    lemma_best_upto_claimable(f, filter, f.entries@.len() as int);
}

/// Claim exclusivity, second half: once a claim has flipped its row to
/// Fetching, no later claim — under any source filter — can choose that
/// row again, in any interleaving of claims on the shared frontier.
/// Together with the first half, at most one claim ever returns a given
/// row between two visits of the state machine to Discovered.
pub proof fn lemma_claimed_row_not_reclaimable(post: Frontier, i: int, filter: Option<Seq<char>>)
    requires
        0 <= i < post.entries@.len(),
        post.entries@[i].status == UrlStatus::Fetching,
    ensures
        post.spec_claim_choice(filter) != Option::Some(i),
{
    lemma_best_upto_claimable(post, filter, post.entries@.len() as int);
    if post.spec_claim_choice(filter) == Option::Some(i) {
        assert(post.spec_claimable(filter, i));
    }
}

/// Conditional correctness on the row: recording a 304 keeps the
/// stored linkage — the content hash and the document link of the row
/// do not change, and the row settles as Fetched.
pub proof fn lemma_not_modified_keeps_linkage(
    e: CrawlUrlEntry,
    outcome: FetchOutcome,
    now_ms: u64,
    policy: RetryPolicy,
    n: CrawlUrlEntry,
)
    requires
        spec_result_row(e, outcome, now_ms, policy, n),
        outcome matches FetchOutcome::NotModified { .. },
    ensures
        n.content_hash == e.content_hash,
        n.document_id == e.document_id,
        n.status == UrlStatus::Fetched,
{
}

/// Lookups agree on two equal frontiers (a helper for no-op paths).
proof fn lemma_entry_unchanged_all(pre: Frontier, post: Frontier)
    requires
        pre == post,
    ensures
        forall|sid: Seq<char>, u: Seq<char>|
            #[trigger] post.spec_entry(sid, u) == pre.spec_entry(sid, u),
{
}

} // verus!
