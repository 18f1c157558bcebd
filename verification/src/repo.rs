//! The crawl repository: the frontier, the request audit log and the
//! per-source config hashes, as one unit of crawl state.
//!
//! A scraper config is hashed (SHA-256, hex) and compared with the
//! stored hash to detect changes that invalidate the frontier; clearing
//! pending state removes every Discovered, Fetching and Failed row of
//! the source together with its request log.

use vstd::prelude::*;

use crate::audit::AuditLog;
use crate::frontier::{CrawlUrlEntry, Frontier};
use crate::hashing::{content_hash, hex_of};
use crate::status::{DiscoveryMethod, UrlStatus};
use crate::status::{spec_parse_method, spec_parse_status};
use crate::text::str_eq;

verus! {

/// Crawl state of all sources: URLs, request log, config hashes.
pub struct CrawlRepository {
    /// The crawl frontier.
    pub frontier: Frontier,
    /// The request audit log.
    pub log: AuditLog,
    /// One `(source_id, config_hash)` row per source.
    pub config_hashes: Vec<(String, String)>,
}

impl CrawlRepository {
    /// The parts are well formed and config hash rows are unique per
    /// source.
    pub open spec fn wf(self) -> bool {
        &&& self.frontier.wf()
        &&& self.log.wf()
        &&& forall|i: int, j: int|
            0 <= i < j < self.config_hashes@.len() ==> (#[trigger] self.config_hashes@[i]).0@ != (
            #[trigger] self.config_hashes@[j]).0@
    }

    /// The stored config hash of a source, if any.
    pub open spec fn spec_stored_hash(self, sid: Seq<char>) -> Option<Seq<char>> {
        if exists|i: int|
            0 <= i < self.config_hashes@.len() && (#[trigger] self.config_hashes@[i]).0@ == sid {
            Option::Some((self.config_hashes@[choose|i: int|
                0 <= i < self.config_hashes@.len() && (#[trigger] self.config_hashes@[i]).0@
                    == sid]).1@)
        } else {
            Option::None
        }
    }

    /// An empty repository.
    pub fn new() -> (r: Self)
        ensures
            r.wf(),
            r.frontier.entries@.len() == 0,
            r.log.rows@.len() == 0,
            r.config_hashes@.len() == 0,
    {
        CrawlRepository { frontier: Frontier::new(), log: AuditLog::new(), config_hashes: Vec::new() }
    }

    /// Index of the config hash row of a source.
    fn find_hash_row(&self, source_id: &str) -> (r: Option<usize>)
        requires
            self.wf(),
        ensures
            r matches Some(i) ==> 0 <= i < self.config_hashes@.len() && self.config_hashes@[
                i as int].0@ == source_id@ && self.spec_stored_hash(source_id@) == Option::Some(
                self.config_hashes@[i as int].1@),
            r is None ==> self.spec_stored_hash(source_id@) is None,
    {
        let n = self.config_hashes.len();
        let mut i: usize = 0;
        while i < n
            invariant
                0 <= i <= n,
                forall|j: int| 0 <= j < i ==> (#[trigger] self.config_hashes@[j]).0@ != source_id@,
            decreases n - i,
        {
            if str_eq(self.config_hashes[i].0.as_str(), source_id) {
                proof {
                    let w = choose|k: int|
                        0 <= k < self.config_hashes@.len() && (#[trigger] self.config_hashes@[k]).0@
                            == source_id@;
                    if w != i {
                        assert(self.config_hashes@[if w < i {
                            w
                        } else {
                            i as int
                        }].0@ != self.config_hashes@[if w < i {
                            i as int
                        } else {
                            w
                        }].0@);
                    }
                }
                return Option::Some(i);
            }
            i = i + 1;
        }
        Option::None
    }

    /// Whether the serialized scraper config differs from the one the
    /// source was last crawled with.  Returns `(changed, should_clear)`:
    /// the config changed iff its hash differs from the stored hash (a
    /// source with no stored hash counts as changed), and the frontier
    /// should be cleared iff it changed while Discovered or Fetching
    /// rows of the source exist.
    pub fn check_config_changed(&self, source_id: &str, config_bytes: &[u8]) -> (r: (bool, bool))
        requires
            self.wf(),
        ensures
            r.0 == (self.spec_stored_hash(source_id@) != Option::Some(spec_config_hash(
                config_bytes@))),
            r.1 == (r.0 && (self.frontier.spec_count_status(source_id@, UrlStatus::Discovered)
                + self.frontier.spec_count_status(source_id@, UrlStatus::Fetching) > 0)),
    {
        let current = content_hash(config_bytes);
        let changed = match self.find_hash_row(source_id) {
            Option::Some(i) => !str_eq(self.config_hashes[i].1.as_str(), current.as_str()),
            Option::None => true,
        };
        let discovered = self.frontier.count_status(source_id, UrlStatus::Discovered);
        let fetching = self.frontier.count_status(source_id, UrlStatus::Fetching);
        (changed, changed && (discovered > 0 || fetching > 0))
    }

    /// Store the hash of the serialized scraper config for a source,
    /// replacing any earlier hash.
    pub fn store_config_hash(&mut self, source_id: &str, config_bytes: &[u8])
        requires
            old(self).wf(),
        ensures
            final(self).wf(),
            final(self).frontier == old(self).frontier,
            final(self).log == old(self).log,
            final(self).spec_stored_hash(source_id@) == Option::Some(spec_config_hash(
                config_bytes@)),
            forall|sid: Seq<char>|
                sid != source_id@ ==> #[trigger] final(self).spec_stored_hash(sid) == old(
                    self).spec_stored_hash(sid),
    {
        let current = content_hash(config_bytes);
        let found = self.find_hash_row(source_id);
        match found {
            Option::Some(i) => {
                let slot = &mut self.config_hashes[i];
                slot.1 = current;
                proof {
                    lemma_hash_rows_after_update(*old(self), *self, i as int, source_id@);
                }
            },
            Option::None => {
                self.config_hashes.push((source_id.to_owned(), current));
                proof {
                    lemma_hash_rows_after_push(*old(self), *self, source_id@);
                }
            },
        }
    }

    /// Clear pending crawl state for a source: its Discovered, Fetching
    /// and Failed rows and its whole request log go; Fetched and
    /// Exhausted rows and the config hash stay.
    pub fn clear_source(&mut self, source_id: &str)
        requires
            old(self).wf(),
        ensures
            final(self).wf(),
            final(self).frontier.entries@ == old(self).frontier.entries@.filter(
                |e: CrawlUrlEntry| !Frontier::spec_pending_clearable(e, source_id@)),
            final(self).log.rows@ == old(self).log.rows@.filter(
                |e: crate::audit::CrawlRequestEntry| e.source_id@ != source_id@),
            final(self).config_hashes == old(self).config_hashes,
            forall|i: int|
                0 <= i < final(self).frontier.entries@.len() ==> !Frontier::spec_pending_clearable(
                    #[trigger] final(self).frontier.entries@[i], source_id@),
    {
        self.frontier.clear_pending(source_id);
        self.log.clear_source(source_id);
    }

    /// Clear all crawl state for a source: every row, the request log,
    /// and the config hash.
    pub fn clear_source_all(&mut self, source_id: &str)
        requires
            old(self).wf(),
        ensures
            final(self).wf(),
            final(self).frontier.entries@ == old(self).frontier.entries@.filter(
                |e: CrawlUrlEntry| e.source_id@ != source_id@),
            final(self).log.rows@ == old(self).log.rows@.filter(
                |e: crate::audit::CrawlRequestEntry| e.source_id@ != source_id@),
            final(self).spec_stored_hash(source_id@) is None,
            forall|sid: Seq<char>|
                sid != source_id@ ==> #[trigger] final(self).spec_stored_hash(sid) == old(
                    self).spec_stored_hash(sid),
    {
        self.frontier.clear_all(source_id);
        self.log.clear_source(source_id);
        let n = self.config_hashes.len();
        let mut kept: Vec<(String, String)> = Vec::new();
        let ghost mut witness: Seq<int> = Seq::empty();
        let mut i: usize = 0;
        while i < n
            invariant
                0 <= i <= n,
                n == self.config_hashes@.len(),
                witness.len() == kept@.len(),
                forall|k: int|
                    0 <= k < kept@.len() ==> 0 <= #[trigger] witness[k] < i && kept@[k]
                        == self.config_hashes@[witness[k]],
                forall|k1: int, k2: int| 0 <= k1 < k2 < witness.len() ==> witness[k1] < witness[k2],
                forall|k: int| 0 <= k < kept@.len() ==> (#[trigger] kept@[k]).0@ != source_id@,
                forall|q: int|
                    0 <= q < i && (#[trigger] self.config_hashes@[q]).0@ != source_id@ ==> exists|
                        k: int,
                    | 0 <= k < kept@.len() && #[trigger] witness[k] == q,
            decreases n - i,
        {
            let row = &self.config_hashes[i];
            if !str_eq(row.0.as_str(), source_id) {
                let ghost old_witness = witness;
                kept.push((row.0.clone(), row.1.clone()));
                proof {
                    witness = witness.push(i as int);
                    assert(kept@.last() == self.config_hashes@[i as int]);
                    assert forall|q: int|
                        0 <= q < i + 1 && (#[trigger] self.config_hashes@[q]).0@ != source_id@
                            implies exists|k: int|
                        0 <= k < kept@.len() && #[trigger] witness[k] == q by {
                        if q < i {
                            let k = choose|k: int|
                                0 <= k < old_witness.len() && #[trigger] old_witness[k] == q;
                            assert(witness[k] == q);
                        } else {
                            assert(witness[witness.len() - 1] == q);
                        }
                    }
                }
            }
            i = i + 1;
        }
        let ghost mid = *self;
        self.config_hashes = kept;
        proof {
            assert forall|x: int, y: int| 0 <= x < y < self.config_hashes@.len() implies (
            #[trigger] self.config_hashes@[x]).0@ != (#[trigger] self.config_hashes@[y]).0@ by {
                assert(self.config_hashes@[x] == mid.config_hashes@[witness[x]]);
                assert(self.config_hashes@[y] == mid.config_hashes@[witness[y]]);
                assert(mid.config_hashes@[witness[x]].0@ != mid.config_hashes@[witness[y]].0@);
            }
            assert forall|sid: Seq<char>| sid != source_id@ implies #[trigger] self.spec_stored_hash(
                sid) == old(self).spec_stored_hash(sid) by {
                if exists|k: int|
                    0 <= k < mid.config_hashes@.len() && (#[trigger] mid.config_hashes@[k]).0@
                        == sid {
                    let k = choose|k: int|
                        0 <= k < mid.config_hashes@.len() && (#[trigger] mid.config_hashes@[k]).0@
                            == sid;
                    assert(mid.config_hashes@[k].0@ != source_id@);
                    let w = choose|w: int|
                        0 <= w < kept@.len() && #[trigger] witness[w] == k;
                    assert(self.config_hashes@[w] == mid.config_hashes@[k]);
                    let a = self.spec_find_hash_index(sid)->0;
                    let b = mid.spec_find_hash_index(sid)->0;
                    assert(self.config_hashes@[w].0@ == sid);
                    assert(mid.config_hashes@[k].0@ == sid);
                    if a != w {
                        assert(self.config_hashes@[if a < w {
                            a
                        } else {
                            w
                        }].0@ != self.config_hashes@[if a < w {
                            w
                        } else {
                            a
                        }].0@);
                    }
                    if b != k {
                        assert(mid.config_hashes@[if b < k {
                            b
                        } else {
                            k
                        }].0@ != mid.config_hashes@[if b < k {
                            k
                        } else {
                            b
                        }].0@);
                    }
                } else {
                    assert forall|k: int| 0 <= k < self.config_hashes@.len() implies (
                    #[trigger] self.config_hashes@[k]).0@ != sid by {
                        assert(self.config_hashes@[k] == mid.config_hashes@[witness[k]]);
                    }
                }
            }
            if exists|k: int|
                0 <= k < self.config_hashes@.len() && (#[trigger] self.config_hashes@[k]).0@
                    == source_id@ {
                let k = choose|k: int|
                    0 <= k < self.config_hashes@.len() && (#[trigger] self.config_hashes@[k]).0@
                        == source_id@;
                assert(self.config_hashes@[k] == mid.config_hashes@[witness[k]]);
                assert(false);
            }
        }
    }

    /// Rename a source across the crawl state: every frontier row and
    /// the config hash row of `old_id` move to `new_id`.  The target
    /// name must be unused.  The audit log keeps its historical rows as
    /// they were written.
    pub fn rename_source(&mut self, old_id: &str, new_id: &str)
        requires
            old(self).wf(),
            forall|i: int|
                0 <= i < old(self).frontier.entries@.len() ==> (#[trigger] old(
                    self).frontier.entries@[i]).source_id@ != new_id@,
            old(self).spec_stored_hash(new_id@) is None,
        ensures
            final(self).wf(),
            final(self).log == old(self).log,
            final(self).frontier.entries@.len() == old(self).frontier.entries@.len(),
            forall|i: int|
                0 <= i < old(self).frontier.entries@.len() && (#[trigger] old(
                    self).frontier.entries@[i]).source_id@ == old_id@
                    ==> crate::frontier::spec_renamed_row(old(self).frontier.entries@[i], final(
                    self).frontier.entries@[i], new_id@),
            forall|i: int|
                0 <= i < old(self).frontier.entries@.len() && (#[trigger] old(
                    self).frontier.entries@[i]).source_id@ != old_id@ ==> final(
                    self).frontier.entries@[i] == old(self).frontier.entries@[i],
            old(self).spec_stored_hash(old_id@) matches Some(h) ==> final(self).spec_stored_hash(
                new_id@) == Option::Some(h),
            old_id@ != new_id@ ==> final(self).spec_stored_hash(old_id@) is None,
    {
        self.frontier.rename_source(old_id, new_id);
        let found = self.find_hash_row(old_id);
        match found {
            Option::Some(i) => {
                let ghost mid = *self;
                let slot = &mut self.config_hashes[i];
                slot.0 = new_id.to_owned();
                proof {
                    assert forall|a: int, b: int|
                        0 <= a < b < self.config_hashes@.len() implies (
                    #[trigger] self.config_hashes@[a]).0@ != (
                    #[trigger] self.config_hashes@[b]).0@ by {
                        assert(mid.config_hashes@[a].0@ != mid.config_hashes@[b].0@);
                        if a != i as int && b != i as int {
                        } else if a == i as int {
                            assert(self.config_hashes@[b].0@ != new_id@) by {
                                if exists|k: int|
                                    0 <= k < mid.config_hashes@.len() && (
                                    #[trigger] mid.config_hashes@[k]).0@ == new_id@ {
                                    assert(mid.spec_stored_hash(new_id@) is Some);
                                }
                            }
                        } else {
                            assert(self.config_hashes@[a].0@ != new_id@) by {
                                if exists|k: int|
                                    0 <= k < mid.config_hashes@.len() && (
                                    #[trigger] mid.config_hashes@[k]).0@ == new_id@ {
                                    assert(mid.spec_stored_hash(new_id@) is Some);
                                }
                            }
                        }
                    }
                    assert(self.spec_find_hash_index(new_id@) == Option::Some(i as int)) by {
                        assert(self.config_hashes@[i as int].0@ == new_id@);
                        let w = choose|k: int|
                            0 <= k < self.config_hashes@.len() && (
                            #[trigger] self.config_hashes@[k]).0@ == new_id@;
                        if w != i {
                            assert(self.config_hashes@[if w < i {
                                w
                            } else {
                                i as int
                            }].0@ != self.config_hashes@[if w < i {
                                i as int
                            } else {
                                w
                            }].0@);
                        }
                    }
                    if old_id@ != new_id@ {
                        if exists|k: int|
                            0 <= k < self.config_hashes@.len() && (
                            #[trigger] self.config_hashes@[k]).0@ == old_id@ {
                            let k = choose|k: int|
                                0 <= k < self.config_hashes@.len() && (
                                #[trigger] self.config_hashes@[k]).0@ == old_id@;
                            assert(k != i);
                            assert(mid.config_hashes@[k].0@ == old_id@);
                            assert(mid.config_hashes@[i as int].0@ == old_id@);
                            assert(mid.config_hashes@[if k < i {
                                k
                            } else {
                                i as int
                            }].0@ != mid.config_hashes@[if k < i {
                                i as int
                            } else {
                                k
                            }].0@);
                            assert(false);
                        }
                    }
                }
            },
            Option::None => {
            },
        }
    }

    /// Index of the stored hash row for a source (spec view).
    pub open spec fn spec_find_hash_index(self, sid: Seq<char>) -> Option<int> {
        if exists|i: int|
            0 <= i < self.config_hashes@.len() && (#[trigger] self.config_hashes@[i]).0@ == sid {
            Option::Some(choose|i: int|
                0 <= i < self.config_hashes@.len() && (#[trigger] self.config_hashes@[i]).0@ == sid)
        } else {
            Option::None
        }
    }
}

/// Config invalidation: once pending state is cleared, zero rows of the
/// source remain Discovered, Fetching or Failed — a changed config
/// never leaves stale pending work behind.
pub proof fn lemma_config_invalidation(post: CrawlRepository, sid: Seq<char>)
    requires
        forall|i: int|
            0 <= i < post.frontier.entries@.len() ==> !Frontier::spec_pending_clearable(
                #[trigger] post.frontier.entries@[i], sid),
    ensures
        post.frontier.spec_count_status(sid, UrlStatus::Discovered) == 0,
        post.frontier.spec_count_status(sid, UrlStatus::Fetching) == 0,
        post.frontier.spec_count_status(sid, UrlStatus::Failed) == 0,
{
    let s = post.frontier.entries@;
    crate::frontier::lemma_count_rows_zero(s, sid, UrlStatus::Discovered);
    crate::frontier::lemma_count_rows_zero(s, sid, UrlStatus::Fetching);
    crate::frontier::lemma_count_rows_zero(s, sid, UrlStatus::Failed);
}

/// The hash stored for a serialized config: hex SHA-256 of its bytes.
pub open spec fn spec_config_hash(bytes: Seq<u8>) -> Seq<char> {
    hex_of(crate::hashing::sha256_of(bytes))
}

/// After one hash row's value is replaced, the touched source maps to
/// the new value and every other source is unchanged.
proof fn lemma_hash_rows_after_update(
    pre: CrawlRepository,
    post: CrawlRepository,
    i: int,
    sid: Seq<char>,
)
    requires
        pre.wf(),
        0 <= i < pre.config_hashes@.len(),
        post.frontier == pre.frontier,
        post.log == pre.log,
        post.config_hashes@.len() == pre.config_hashes@.len(),
        pre.config_hashes@[i].0@ == sid,
        post.config_hashes@[i].0@ == sid,
        forall|j: int|
            0 <= j < pre.config_hashes@.len() && j != i ==> post.config_hashes@[j]
                == pre.config_hashes@[j],
    ensures
        post.wf(),
        post.spec_stored_hash(sid) == Option::Some(post.config_hashes@[i].1@),
        forall|d: Seq<char>|
            d != sid ==> #[trigger] post.spec_stored_hash(d) == pre.spec_stored_hash(d),
{
    assert forall|a: int, b: int| 0 <= a < b < post.config_hashes@.len() implies (
    #[trigger] post.config_hashes@[a]).0@ != (#[trigger] post.config_hashes@[b]).0@ by {
        assert(pre.config_hashes@[a].0@ != pre.config_hashes@[b].0@);
        assert(post.config_hashes@[a].0@ == pre.config_hashes@[a].0@);
        assert(post.config_hashes@[b].0@ == pre.config_hashes@[b].0@);
    }
    assert(post.spec_find_hash_index(sid) == Option::Some(i)) by {
        assert(post.config_hashes@[i].0@ == sid);
        let w = choose|k: int|
            0 <= k < post.config_hashes@.len() && (#[trigger] post.config_hashes@[k]).0@ == sid;
        if w != i {
            assert(post.config_hashes@[if w < i {
                w
            } else {
                i
            }].0@ != post.config_hashes@[if w < i {
                i
            } else {
                w
            }].0@);
        }
    }
    assert forall|d: Seq<char>| d != sid implies #[trigger] post.spec_stored_hash(d)
        == pre.spec_stored_hash(d) by {
        if exists|k: int|
            0 <= k < pre.config_hashes@.len() && (#[trigger] pre.config_hashes@[k]).0@ == d {
            let k = choose|k: int|
                0 <= k < pre.config_hashes@.len() && (#[trigger] pre.config_hashes@[k]).0@ == d;
            assert(k != i);
            assert(post.config_hashes@[k].0@ == d);
            let a = post.spec_find_hash_index(d)->0;
            if a != k {
                assert(post.config_hashes@[if a < k {
                    a
                } else {
                    k
                }].0@ != post.config_hashes@[if a < k {
                    k
                } else {
                    a
                }].0@);
            }
            let b = pre.spec_find_hash_index(d)->0;
            if b != k {
                assert(pre.config_hashes@[if b < k {
                    b
                } else {
                    k
                }].0@ != pre.config_hashes@[if b < k {
                    k
                } else {
                    b
                }].0@);
            }
        } else {
            assert(forall|k: int|
                0 <= k < post.config_hashes@.len() ==> (#[trigger] post.config_hashes@[k]).0@ != d);
        }
    }
}

/// After a row for a fresh source is appended, it is found and every
/// other source is unchanged.
proof fn lemma_hash_rows_after_push(pre: CrawlRepository, post: CrawlRepository, sid: Seq<char>)
    requires
        pre.wf(),
        pre.spec_find_hash_index(sid) is None,
        post.frontier == pre.frontier,
        post.log == pre.log,
        post.config_hashes@.len() == pre.config_hashes@.len() + 1,
        forall|j: int|
            0 <= j < pre.config_hashes@.len() ==> post.config_hashes@[j] == pre.config_hashes@[j],
        post.config_hashes@.last().0@ == sid,
    ensures
        post.wf(),
        post.spec_stored_hash(sid) == Option::Some(post.config_hashes@.last().1@),
        forall|d: Seq<char>|
            d != sid ==> #[trigger] post.spec_stored_hash(d) == pre.spec_stored_hash(d),
{
    let n = pre.config_hashes@.len() as int;
    assert forall|a: int, b: int| 0 <= a < b < post.config_hashes@.len() implies (
    #[trigger] post.config_hashes@[a]).0@ != (#[trigger] post.config_hashes@[b]).0@ by {
        if b < n {
            assert(pre.config_hashes@[a].0@ != pre.config_hashes@[b].0@);
        } else {
            assert(post.config_hashes@[b].0@ == sid);
            assert(pre.config_hashes@[a].0@ != sid);
        }
    }
    assert(post.spec_find_hash_index(sid) == Option::Some(n)) by {
        assert(post.config_hashes@[n].0@ == sid);
        let w = choose|k: int|
            0 <= k < post.config_hashes@.len() && (#[trigger] post.config_hashes@[k]).0@ == sid;
        if w != n {
            assert(post.config_hashes@[w].0@ != post.config_hashes@[n].0@);
        }
    }
    assert forall|d: Seq<char>| d != sid implies #[trigger] post.spec_stored_hash(d)
        == pre.spec_stored_hash(d) by {
        if exists|k: int|
            0 <= k < pre.config_hashes@.len() && (#[trigger] pre.config_hashes@[k]).0@ == d {
            let k = choose|k: int|
                0 <= k < pre.config_hashes@.len() && (#[trigger] pre.config_hashes@[k]).0@ == d;
            assert(post.config_hashes@[k].0@ == d);
            let a = post.spec_find_hash_index(d)->0;
            if a != k {
                assert(post.config_hashes@[if a < k {
                    a
                } else {
                    k
                }].0@ != post.config_hashes@[if a < k {
                    k
                } else {
                    a
                }].0@);
            }
            let b = pre.spec_find_hash_index(d)->0;
            if b != k {
                assert(pre.config_hashes@[if b < k {
                    b
                } else {
                    k
                }].0@ != pre.config_hashes@[if b < k {
                    k
                } else {
                    b
                }].0@);
            }
        } else {
            assert(forall|k: int| 0 <= k < n ==> (#[trigger] post.config_hashes@[k]).0@ != d);
            assert(post.config_hashes@[n].0@ == sid);
            assert(forall|k: int|
                0 <= k < post.config_hashes@.len() ==> (#[trigger] post.config_hashes@[k]).0@ != d);
        }
    }
}

/// A durable frontier row as it comes back from storage.
#[derive(Debug)]
pub struct CrawlUrlRow {
    /// Row identity in storage.
    pub id: i64,
    /// The URL.
    pub url: String,
    /// Source the row belongs to.
    pub source_id: String,
    /// Stored status tag.
    pub status: String,
    /// Stored discovery method tag.
    pub discovery_method: String,
    /// Parent URL, if any.
    pub parent_url: Option<String>,
    /// Opaque discovery context, in its encoded form.
    pub discovery_context: String,
    /// Link depth.
    pub depth: i64,
    /// Discovery time (epoch milliseconds).
    pub discovered_at: i64,
    /// Fetch time, if fetched.
    pub fetched_at: Option<i64>,
    /// Claim time, if claimed.
    pub claimed_at: Option<i64>,
    /// Failed attempts.
    pub retry_count: i64,
    /// Last failure message.
    pub last_error: Option<String>,
    /// Next retry time.
    pub next_retry_at: Option<i64>,
    /// Cached entity tag.
    pub etag: Option<String>,
    /// Cached `Last-Modified`.
    pub last_modified: Option<String>,
    /// Stored content hash.
    pub content_hash: Option<String>,
    /// Linked document.
    pub document_id: Option<String>,
}

/// A non-negative stored number, clamped into `u64`.
pub open spec fn spec_clamp_time(t: int) -> u64 {
    if t < 0 {
        0u64
    } else {
        t as u64
    }
}

/// Clamp a stored timestamp to the epoch.
fn clamp_time(t: i64) -> (r: u64)
    ensures
        r == spec_clamp_time(t as int),
{
    if t < 0 {
        0
    } else {
        t as u64
    }
}

/// Clamp an optional stored timestamp.
fn clamp_time_opt(t: Option<i64>) -> (r: Option<u64>)
    ensures
        r is Some <==> t is Some,
        t matches Some(v) ==> r == Option::Some(spec_clamp_time(v as int)),
{
    match t {
        Option::Some(v) => Option::Some(clamp_time(v)),
        Option::None => Option::None,
    }
}

impl CrawlUrlRow {
    /// Decode a stored row into a frontier entry.  Unknown status or
    /// discovery tags fall back to Discovered and Seed; negative
    /// numbers are clamped; a depth or retry count out of range
    /// becomes zero.
    pub fn into_entry(self) -> (r: CrawlUrlEntry)
        ensures
            r.url == self.url,
            r.source_id == self.source_id,
            r.status == crate::status::spec_parse_status(self.status@),
            r.discovery_method == crate::status::spec_parse_method(self.discovery_method@),
            r.parent_url == self.parent_url,
            r.discovery_context == self.discovery_context,
            r.depth == (if 0 <= self.depth <= u32::MAX {
                self.depth as int
            } else {
                0int
            }),
            r.discovered_at == spec_clamp_time(self.discovered_at as int),
            (r.fetched_at is Some <==> self.fetched_at is Some),
            (r.claimed_at is Some <==> self.claimed_at is Some),
            r.retry_count == (if 0 <= self.retry_count <= u32::MAX {
                self.retry_count as int
            } else {
                0int
            }),
            r.last_error == self.last_error,
            (r.next_retry_at is Some <==> self.next_retry_at is Some),
            r.etag == self.etag,
            r.last_modified == self.last_modified,
            r.content_hash == self.content_hash,
            r.document_id == self.document_id,
    {
        let status = match UrlStatus::from_str(self.status.as_str()) {
            Option::Some(st) => st,
            Option::None => UrlStatus::Discovered,
        };
        let discovery_method = match DiscoveryMethod::from_str(self.discovery_method.as_str()) {
            Option::Some(m) => m,
            Option::None => DiscoveryMethod::Seed,
        };
        let depth: u32 = if 0 <= self.depth && self.depth <= u32::MAX as i64 {
            self.depth as u32
        } else {
            0
        };
        let retry_count: u32 = if 0 <= self.retry_count && self.retry_count <= u32::MAX as i64 {
            self.retry_count as u32
        } else {
            0
        };
        CrawlUrlEntry {
            url: self.url,
            source_id: self.source_id,
            status,
            discovery_method,
            parent_url: self.parent_url,
            discovery_context: self.discovery_context,
            depth,
            discovered_at: clamp_time(self.discovered_at),
            fetched_at: clamp_time_opt(self.fetched_at),
            claimed_at: clamp_time_opt(self.claimed_at),
            retry_count,
            last_error: self.last_error,
            next_retry_at: clamp_time_opt(self.next_retry_at),
            etag: self.etag,
            last_modified: self.last_modified,
            content_hash: self.content_hash,
            document_id: self.document_id,
        }
    }
}

/// A durable audit row as it comes back from storage.
#[derive(Debug)]
pub struct CrawlRequestRow {
    /// Row identity in storage.
    pub id: i64,
    /// Source the attempt was made for.
    pub source_id: String,
    /// URL requested.
    pub url: String,
    /// HTTP method.
    pub method: String,
    /// Request headers, in their encoded form.
    pub request_headers: String,
    /// When the request started (epoch milliseconds).
    pub request_at: i64,
    /// Response status, absent on a transport failure.
    pub response_status: Option<i64>,
    /// Response headers, in their encoded form.
    pub response_headers: String,
    /// When the response arrived.
    pub response_at: Option<i64>,
    /// Response body size.
    pub response_size: Option<i64>,
    /// Measured duration.
    pub duration_ms: Option<i64>,
    /// Transport error message.
    pub error: Option<String>,
    /// Stored conditional flag.
    pub was_conditional: i64,
    /// Stored not-modified flag.
    pub was_not_modified: i64,
}

/// A non-negative stored count, clamped into `u64`.
fn clamp_count_opt(t: Option<i64>) -> (r: Option<u64>)
    ensures
        r is Some <==> t is Some,
        t matches Some(v) ==> r == Option::Some(spec_clamp_time(v as int)),
{
    clamp_time_opt(t)
}

impl CrawlRequestRow {
    /// Decode a stored audit row into a log entry.  A status out of the
    /// `u16` range reads as a transport failure; the stored flags read
    /// as booleans the way the storage wrote them (nonzero is true).
    pub fn into_entry(self) -> (r: crate::audit::CrawlRequestEntry)
        ensures
            r.source_id == self.source_id,
            r.url == self.url,
            r.method == self.method,
            r.request_headers == self.request_headers,
            r.request_at == spec_clamp_time(self.request_at as int),
            r.response_status == (match self.response_status {
                Option::Some(v) => if 0 <= v <= u16::MAX {
                    Option::Some(v as u16)
                } else {
                    Option::<u16>::None
                },
                Option::None => Option::<u16>::None,
            }),
            r.response_headers == self.response_headers,
            (r.response_at is Some <==> self.response_at is Some),
            (r.response_size is Some <==> self.response_size is Some),
            (r.duration_ms is Some <==> self.duration_ms is Some),
            r.error == self.error,
            r.was_conditional == (self.was_conditional != 0),
            r.was_not_modified == (self.was_not_modified != 0),
    {
        let response_status: Option<u16> = match self.response_status {
            Option::Some(v) => if 0 <= v && v <= u16::MAX as i64 {
                Option::Some(v as u16)
            } else {
                Option::None
            },
            Option::None => Option::None,
        };
        crate::audit::CrawlRequestEntry {
            source_id: self.source_id,
            url: self.url,
            method: self.method,
            request_headers: self.request_headers,
            request_at: clamp_time(self.request_at),
            response_status,
            response_headers: self.response_headers,
            response_at: clamp_time_opt(self.response_at),
            response_size: clamp_count_opt(self.response_size),
            duration_ms: clamp_count_opt(self.duration_ms),
            error: self.error,
            was_conditional: self.was_conditional != 0,
            was_not_modified: self.was_not_modified != 0,
        }
    }
}

} // verus!
