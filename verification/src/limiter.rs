//! Adaptive per-domain rate limiter.
//!
//! One [`DomainRateState`] per domain governs when the next request to
//! that domain may begin.  [`RateLimiter`] holds the states together with
//! a rolling log of 403/429 events, and performs the read-modify-write
//! that the durable backend serialises: `acquire` reserves the next legal
//! start time, `on_success` recovers gradually, `on_rate_limited` backs
//! off exponentially (or by a parsed `Retry-After`), capped at 60 s.

use vstd::prelude::*;

use crate::backoff::MAX_BACKOFF_MS;

verus! {

/// Consecutive successes needed before the delay is lowered a step.
pub const SUCCESS_THRESHOLD: u32 = 3;

/// Rate limiting state for one domain.
#[derive(Debug)]
pub struct DomainRateState {
    /// Domain this state belongs to.
    pub domain: String,
    /// Current delay between requests, in milliseconds.
    pub current_delay_ms: u64,
    /// Reserved start time of the latest request (epoch milliseconds);
    /// intentionally absent after a restart.
    pub last_request_at: Option<u64>,
    /// Successes since the last rate limit signal.
    pub consecutive_successes: u32,
    /// Whether the domain is currently backing off.
    pub in_backoff: bool,
    /// Requests reserved through this state.
    pub total_requests: u64,
    /// 403/429 responses seen.
    pub rate_limit_hits: u64,
}

impl Clone for DomainRateState {
    fn clone(&self) -> (r: Self)
        ensures
            r == *self,
    {
        DomainRateState {
            domain: self.domain.clone(),
            current_delay_ms: self.current_delay_ms,
            last_request_at: self.last_request_at,
            consecutive_successes: self.consecutive_successes,
            in_backoff: self.in_backoff,
            total_requests: self.total_requests,
            rate_limit_hits: self.rate_limit_hits,
        }
    }
}

impl DomainRateState {
    /// Fresh state for a domain at the base delay.
    pub fn new(domain: String, base_delay_ms: u64) -> (r: Self)
        ensures
            r.domain == domain,
            r.current_delay_ms == base_delay_ms,
            r.last_request_at is None,
            r.consecutive_successes == 0,
            !r.in_backoff,
            r.total_requests == 0,
            r.rate_limit_hits == 0,
    {
        DomainRateState {
            domain,
            current_delay_ms: base_delay_ms,
            last_request_at: Option::None,
            consecutive_successes: 0,
            in_backoff: false,
            total_requests: 0,
            rate_limit_hits: 0,
        }
    }

    /// Earliest epoch millisecond at which the next request may start.
    pub open spec fn spec_ready_at(self) -> int {
        match self.last_request_at {
            Option::None => 0,
            Option::Some(t) => t + self.current_delay_ms,
        }
    }

    /// Milliseconds to wait before the next request may start.
    pub fn time_until_ready(&self, now_ms: u64) -> (r: u64)
        requires
            self.last_request_at matches Some(t) ==> t + self.current_delay_ms <= u64::MAX,
        ensures
            r == if self.spec_ready_at() > now_ms {
                self.spec_ready_at() - now_ms
            } else {
                0
            },
    {
        match self.last_request_at {
            Option::None => 0,
            Option::Some(t) => {
                let due: u64 = t + self.current_delay_ms;
                if due > now_ms {
                    due - now_ms
                } else {
                    0
                }
            },
        }
    }
}

/// One observed 403/429 response.
#[derive(Debug)]
pub struct RateLimitEvent {
    /// Domain the response came from.
    pub domain: String,
    /// URL that was denied.
    pub url: String,
    /// When it was observed (epoch milliseconds).
    pub timestamp_ms: u64,
}

impl Clone for RateLimitEvent {
    fn clone(&self) -> (r: Self)
        ensures
            r == *self,
    {
        RateLimitEvent {
            domain: self.domain.clone(),
            url: self.url.clone(),
            timestamp_ms: self.timestamp_ms,
        }
    }
}

/// Number of distinct URLs among the events of `domain` newer than
/// `cutoff`: an event counts when no earlier event already named its URL
/// within the window.
pub open spec fn spec_distinct_403s(events: Seq<RateLimitEvent>, domain: Seq<char>, cutoff: int) -> int
    decreases events.len(),
{
    if events.len() == 0 {
        0
    } else {
        let head = events[0];
        let rest = events.drop_first();
        if head.domain@ == domain && head.timestamp_ms > cutoff && !(exists|j: int|
            0 <= j < rest.len() && (#[trigger] rest[j]).domain@ == domain && rest[j].url@ == head.url@
                && rest[j].timestamp_ms > cutoff) {
            1 + spec_distinct_403s(rest, domain, cutoff)
        } else {
            spec_distinct_403s(rest, domain, cutoff)
        }
    }
}


/// Strictly newer than the cutoff `now_ms - window_ms` (which may be
/// negative when the window reaches past the epoch).
pub fn after_cutoff(ts: u64, now_ms: u64, window_ms: u64) -> (r: bool)
    ensures
        r == (ts > now_ms - window_ms),
{
    window_ms > now_ms || ts > now_ms - window_ms
}

/// At least as new as the cutoff `now_ms - window_ms`.
pub fn at_or_after_cutoff(ts: u64, now_ms: u64, window_ms: u64) -> (r: bool)
    ensures
        r == (ts >= now_ms - window_ms),
{
    window_ms >= now_ms || ts >= now_ms - window_ms
}

/// Per-domain rate limiter state, shared by every fetch worker.
pub struct RateLimiter {
    /// Delay used for a domain that has no recorded pressure.
    pub base_delay_ms: u64,
    /// One state per domain.
    pub domains: Vec<DomainRateState>,
    /// Rolling log of 403/429 events, oldest first.
    pub events_403: Vec<RateLimitEvent>,
}

impl RateLimiter {
    /// Domains are unique, so a domain denotes at most one state.
    pub open spec fn wf(self) -> bool {
        forall|i: int, j: int|
            0 <= i < j < self.domains@.len() ==> (#[trigger] self.domains@[i]).domain@ != (
            #[trigger] self.domains@[j]).domain@
    }

    /// Index of the state for a domain, if any.
    pub open spec fn spec_find(self, domain: Seq<char>) -> Option<int> {
        if exists|i: int| 0 <= i < self.domains@.len() && (#[trigger] self.domains@[i]).domain@
            == domain {
            Option::Some(choose|i: int|
                0 <= i < self.domains@.len() && (#[trigger] self.domains@[i]).domain@ == domain)
        } else {
            Option::None
        }
    }

    /// The state recorded for a domain, if any.
    pub open spec fn spec_state_of(self, domain: Seq<char>) -> Option<DomainRateState> {
        match self.spec_find(domain) {
            Option::Some(i) => Option::Some(self.domains@[i]),
            Option::None => Option::None,
        }
    }

    /// An empty limiter at the given base delay.
    pub fn new(base_delay_ms: u64) -> (r: Self)
        ensures
            r.wf(),
            r.base_delay_ms == base_delay_ms,
            r.domains@.len() == 0,
            r.events_403@.len() == 0,
    {
        RateLimiter { base_delay_ms, domains: Vec::new(), events_403: Vec::new() }
    }

    /// Index of the state for `domain`, scanning left to right.
    fn find_domain(&self, domain: &str) -> (r: Option<usize>)
        requires
            self.wf(),
        ensures
            r is Some ==> 0 <= r->0 < self.domains@.len() && self.domains@[r->0 as int].domain@
                == domain@,
            r is None ==> forall|i: int|
                0 <= i < self.domains@.len() ==> (#[trigger] self.domains@[i]).domain@ != domain@,
            r is Some ==> self.spec_find(domain@) == Option::Some(r->0 as int),
            r is None ==> self.spec_find(domain@) is None,
    {
        let n = self.domains.len();
        let mut i: usize = 0;
        while i < n
            invariant
                0 <= i <= n,
                n == self.domains@.len(),
                forall|j: int| 0 <= j < i ==> (#[trigger] self.domains@[j]).domain@ != domain@,
            decreases n - i,
        {
            if crate::text::str_eq(self.domains[i].domain.as_str(), domain) {
                proof {
                    let w = choose|k: int|
                        0 <= k < self.domains@.len() && (#[trigger] self.domains@[k]).domain@
                            == domain@;
                    if w != i {
                        assert(self.domains@[w].domain@ != self.domains@[i as int].domain@);
                    }
                }
                return Option::Some(i);
            }
            i = i + 1;
        }
        Option::None
    }

    /// Reserve the next legal start time for `domain` and return how long
    /// the caller must wait before starting, in milliseconds.
    ///
    /// The reservation honours the current delay: when the domain already
    /// holds a reservation at `t` with delay `d`, the new reservation
    /// `now_ms + wait` is at least `t + d`.
    pub fn acquire(&mut self, domain: &str, now_ms: u64) -> (wait: u64)
        requires
            old(self).wf(),
            old(self).spec_state_of(domain@) matches Some(st) ==> (st.last_request_at matches Some(t)
                ==> t + st.current_delay_ms <= u64::MAX),
            old(self).spec_state_of(domain@) matches Some(st) ==> st.total_requests < u64::MAX,
        ensures
            final(self).wf(),
            final(self).base_delay_ms == old(self).base_delay_ms,
            final(self).events_403 == old(self).events_403,
            // the reservation exists and equals now + wait
            final(self).spec_state_of(domain@) matches Some(st) && st.last_request_at == Option::Some(
                (now_ms + wait) as u64),
            // spacing: at least the prior delay after the prior reservation
            old(self).spec_state_of(domain@) matches Some(st) ==> (st.last_request_at matches Some(t)
                ==> now_ms + wait >= t + st.current_delay_ms),
            // reservations never move backwards
            old(self).spec_state_of(domain@) matches Some(st) ==> (st.last_request_at matches Some(t)
                ==> now_ms + wait >= t),
            // a quiet domain waits nothing
            old(self).spec_state_of(domain@) is None ==> wait == 0,
            // the delay itself is unchanged by a reservation
            old(self).spec_state_of(domain@) matches Some(st) ==> final(self).spec_state_of(
                domain@)->0.current_delay_ms == st.current_delay_ms,
            old(self).spec_state_of(domain@) is None ==> final(self).spec_state_of(
                domain@)->0.current_delay_ms == old(self).base_delay_ms,
            // one more request is accounted for
            final(self).spec_state_of(domain@)->0.total_requests == match old(self).spec_state_of(domain@) {
                Option::Some(st) => st.total_requests + 1,
                Option::None => 1int,
            },
            // every other domain's state is untouched
            forall|d: Seq<char>|
                d != domain@ ==> #[trigger] final(self).spec_state_of(d) == old(self).spec_state_of(d),
    {
        let found = self.find_domain(domain);
        match found {
            Option::Some(i) => {
                proof {
                    let ghost fi = self.spec_find(domain@)->0;
                    assert(self.domains@[fi].domain@ == domain@);
                    assert(fi == i as int);
                }
                let wait = self.domains[i].time_until_ready(now_ms);
                let reserved: u64 = now_ms + wait;
                let st = &mut self.domains[i];
                st.last_request_at = Option::Some(reserved);
                st.total_requests = st.total_requests + 1;
                proof {
                    lemma_state_of_after_update(*old(self), *self, i as int, domain@);
                }
                wait
            },
            Option::None => {
                let mut st = DomainRateState::new(domain.to_owned(), self.base_delay_ms);
                st.last_request_at = Option::Some(now_ms);
                st.total_requests = 1;
                self.domains.push(st);
                proof {
                    lemma_state_of_after_push(*old(self), *self, domain@);
                }
                0
            },
        }
    }

    /// How one success transforms a domain's state: the success counter
    /// advances, and at [`SUCCESS_THRESHOLD`] the delay is halved (never
    /// below the base delay), resetting the counter; once the delay is
    /// back at the base the backoff flag clears.
    pub open spec fn success_step(st: DomainRateState, base: u64) -> DomainRateState {
        if st.consecutive_successes == u32::MAX {
            st
        } else if st.consecutive_successes + 1 < SUCCESS_THRESHOLD {
            DomainRateState { consecutive_successes: (st.consecutive_successes + 1) as u32, ..st }
        } else {
            let lowered: u64 = if st.current_delay_ms / 2 > base {
                st.current_delay_ms / 2
            } else {
                base
            };
            DomainRateState {
                consecutive_successes: 0,
                current_delay_ms: lowered,
                in_backoff: if lowered == base {
                    false
                } else {
                    st.in_backoff
                },
                ..st
            }
        }
    }

    /// Record a successful response from a domain; see
    /// [`RateLimiter::success_step`] for the recovery rule.
    pub fn on_success(&mut self, domain: &str)
        requires
            old(self).wf(),
        ensures
            final(self).wf(),
            final(self).base_delay_ms == old(self).base_delay_ms,
            final(self).events_403 == old(self).events_403,
            old(self).spec_state_of(domain@) is None ==> *final(self) == *old(self),
            old(self).spec_state_of(domain@) matches Some(st) ==> final(self).spec_state_of(domain@)
                == Option::Some(Self::success_step(st, old(self).base_delay_ms)),
            forall|d: Seq<char>|
                d != domain@ ==> #[trigger] final(self).spec_state_of(d) == old(self).spec_state_of(d),
    {
        let found = self.find_domain(domain);
        match found {
            Option::Some(i) => {
                proof {
                    assert(self.spec_find(domain@)->0 == i as int);
                }
                let base = self.base_delay_ms;
                let st = &mut self.domains[i];
                if st.consecutive_successes < u32::MAX {
                    st.consecutive_successes = st.consecutive_successes + 1;
                    if st.consecutive_successes >= SUCCESS_THRESHOLD {
                        st.consecutive_successes = 0;
                        let halved = st.current_delay_ms / 2;
                        st.current_delay_ms = if halved > base {
                            halved
                        } else {
                            base
                        };
                        if st.current_delay_ms == base {
                            st.in_backoff = false;
                        }
                    }
                }
                proof {
                    lemma_state_of_after_update(*old(self), *self, i as int, domain@);
                }
            },
            Option::None => {
            },
        }
    }

    /// The delay that a rate limit signal moves a domain to: the parsed
    /// `Retry-After` wait when one was given, else twice the current
    /// delay; in both cases capped at [`MAX_BACKOFF_MS`].
    pub open spec fn spec_backed_off_delay(current: u64, retry_after_ms: Option<u64>) -> u64 {
        match retry_after_ms {
            Option::Some(ms) => if ms >= MAX_BACKOFF_MS {
                MAX_BACKOFF_MS
            } else {
                ms
            },
            Option::None => if 2 * current >= MAX_BACKOFF_MS {
                MAX_BACKOFF_MS
            } else {
                (2 * current) as u64
            },
        }
    }

    /// How a 403/429 transforms a domain's state (a domain not yet
    /// tracked starts from [`DomainRateState::new`] at the base delay):
    /// backoff is entered, the success streak resets, the hit is counted
    /// and the delay is raised per [`RateLimiter::spec_backed_off_delay`].
    pub open spec fn rate_limited_step(st: DomainRateState, retry_after_ms: Option<u64>)
        -> DomainRateState {
        DomainRateState {
            in_backoff: true,
            consecutive_successes: 0,
            rate_limit_hits: if st.rate_limit_hits < u64::MAX {
                (st.rate_limit_hits + 1) as u64
            } else {
                st.rate_limit_hits
            },
            current_delay_ms: Self::spec_backed_off_delay(st.current_delay_ms, retry_after_ms),
            ..st
        }
    }

    /// Record a 403/429 from a domain: enter backoff and raise the delay.
    pub fn on_rate_limited(&mut self, domain: &str, retry_after_ms: Option<u64>)
        requires
            old(self).wf(),
        ensures
            final(self).wf(),
            final(self).base_delay_ms == old(self).base_delay_ms,
            final(self).events_403 == old(self).events_403,
            final(self).spec_state_of(domain@) is Some,
            final(self).spec_state_of(domain@)->0.in_backoff,
            final(self).spec_state_of(domain@)->0.consecutive_successes == 0,
            final(self).spec_state_of(domain@)->0.current_delay_ms == Self::spec_backed_off_delay(
                match old(self).spec_state_of(domain@) {
                    Option::Some(st) => st.current_delay_ms,
                    Option::None => old(self).base_delay_ms,
                },
                retry_after_ms,
            ),
            final(self).spec_state_of(domain@)->0.rate_limit_hits == (match old(self).spec_state_of(
                domain@,
            ) {
                Option::Some(st) => if st.rate_limit_hits < u64::MAX {
                    st.rate_limit_hits + 1
                } else {
                    st.rate_limit_hits as int
                },
                Option::None => 1int,
            }),
            old(self).spec_state_of(domain@) matches Some(st) ==> final(self).spec_state_of(
                domain@)->0.last_request_at == st.last_request_at,
            old(self).spec_state_of(domain@) is None ==> final(self).spec_state_of(
                domain@)->0.last_request_at is None,
            forall|d: Seq<char>|
                d != domain@ ==> #[trigger] final(self).spec_state_of(d) == old(self).spec_state_of(d),
    {
        let found = self.find_domain(domain);
        let i: usize = match found {
            Option::Some(i) => {
                proof {
                    assert(self.spec_find(domain@)->0 == i as int);
                }
                i
            },
            Option::None => {
                let st = DomainRateState::new(domain.to_owned(), self.base_delay_ms);
                self.domains.push(st);
                proof {
                    lemma_state_of_after_push(*old(self), *self, domain@);
                    assert(self.spec_find(domain@)->0 == self.domains@.len() - 1);
                }
                self.domains.len() - 1
            },
        };
        let ghost mid = *self;
        let st = &mut self.domains[i];
        st.in_backoff = true;
        st.consecutive_successes = 0;
        if st.rate_limit_hits < u64::MAX {
            st.rate_limit_hits = st.rate_limit_hits + 1;
        }
        match retry_after_ms {
            Option::Some(ms) => {
                st.current_delay_ms = if ms >= MAX_BACKOFF_MS {
                    MAX_BACKOFF_MS
                } else {
                    ms
                };
            },
            Option::None => {
                st.current_delay_ms = if st.current_delay_ms >= MAX_BACKOFF_MS / 2 {
                    MAX_BACKOFF_MS
                } else {
                    2 * st.current_delay_ms
                };
            },
        }
        proof {
            lemma_state_of_after_update(mid, *self, i as int, domain@);
        }
    }

    /// Append one 403/429 event to the rolling log.
    pub fn record_403(&mut self, domain: &str, url: &str, now_ms: u64)
        requires
            old(self).wf(),
        ensures
            final(self).wf(),
            final(self).base_delay_ms == old(self).base_delay_ms,
            final(self).domains == old(self).domains,
            final(self).events_403@.len() == old(self).events_403@.len() + 1,
            final(self).events_403@.subrange(0, old(self).events_403@.len() as int) == old(
                self).events_403@,
            final(self).events_403@.last().domain@ == domain@,
            final(self).events_403@.last().url@ == url@,
            final(self).events_403@.last().timestamp_ms == now_ms,
    {
        self.events_403.push(
            RateLimitEvent { domain: domain.to_owned(), url: url.to_owned(), timestamp_ms: now_ms },
        );
        proof {
            assert(self.events_403@.subrange(0, old(self).events_403@.len() as int) =~= old(
                self).events_403@);
        }
    }

    /// Count distinct URLs with a 403/429 from `domain` within the last
    /// `window_ms` milliseconds.
    pub fn get_403_count(&self, domain: &str, now_ms: u64, window_ms: u64) -> (r: usize)
        ensures
            r == spec_distinct_403s(self.events_403@, domain@, now_ms - window_ms),
    {
        let ghost cutoff = now_ms - window_ms;
        let n = self.events_403.len();
        let mut count: usize = 0;
        let mut i: usize = 0;
        proof {
            assert(self.events_403@.skip(0) =~= self.events_403@);
        }
        while i < n
            invariant
                0 <= i <= n,
                n == self.events_403@.len(),
                count <= i,
                spec_distinct_403s(self.events_403@, domain@, cutoff) == count
                    + spec_distinct_403s(self.events_403@.skip(i as int), domain@, cutoff),
            decreases n - i,
        {
            let ev = &self.events_403[i];
            let ghost rest = self.events_403@.skip(i as int).drop_first();
            proof {
                assert(self.events_403@.skip(i as int)[0] == self.events_403@[i as int]);
                assert(rest =~= self.events_403@.skip(i + 1));
            }
            let in_window = after_cutoff(ev.timestamp_ms, now_ms, window_ms)
                && crate::text::str_eq(ev.domain.as_str(), domain);
            let mut seen_later = false;
            if in_window {
                let mut j: usize = i + 1;
                while j < n
                    invariant
                        i + 1 <= j <= n,
                        n == self.events_403@.len(),
                        rest =~= self.events_403@.skip(i + 1),
                        seen_later == (exists|k: int|
                            i + 1 <= k < j && (#[trigger] self.events_403@[k]).domain@ == domain@
                                && self.events_403@[k].url@ == ev.url@
                                && self.events_403@[k].timestamp_ms > cutoff),
                        ev == self.events_403@[i as int],
                    decreases n - j,
                {
                    let other = &self.events_403[j];
                    if !seen_later && after_cutoff(other.timestamp_ms, now_ms, window_ms)
                        && crate::text::str_eq(other.domain.as_str(), domain)
                        && crate::text::str_eq(other.url.as_str(), ev.url.as_str()) {
                        seen_later = true;
                    }
                    j = j + 1;
                }
            }
            proof {
                let tail = self.events_403@.skip(i as int);
                assert(tail[0] == self.events_403@[i as int]);
                assert(tail.drop_first() =~= self.events_403@.skip(i + 1));
                assert(forall|k: int|
                    0 <= k < rest.len() ==> #[trigger] rest[k] == self.events_403@[i + 1 + k]);
                if in_window && !seen_later {
                    assert(!(exists|jj: int|
                        0 <= jj < rest.len() && (#[trigger] rest[jj]).domain@ == domain@
                            && rest[jj].url@ == tail[0].url@ && rest[jj].timestamp_ms > cutoff)) by {
                        if exists|jj: int|
                            0 <= jj < rest.len() && (#[trigger] rest[jj]).domain@ == domain@
                                && rest[jj].url@ == tail[0].url@ && rest[jj].timestamp_ms > cutoff {
                            let jj = choose|jj: int|
                                0 <= jj < rest.len() && (#[trigger] rest[jj]).domain@ == domain@
                                    && rest[jj].url@ == tail[0].url@ && rest[jj].timestamp_ms
                                    > cutoff;
                            assert(self.events_403@[i + 1 + jj].domain@ == domain@);
                        }
                    }
                    assert(spec_distinct_403s(tail, domain@, cutoff) == 1 + spec_distinct_403s(
                        rest, domain@, cutoff));
                } else if in_window && seen_later {
                    let k = choose|k: int|
                        i + 1 <= k < n && (#[trigger] self.events_403@[k]).domain@ == domain@
                            && self.events_403@[k].url@ == ev.url@
                            && self.events_403@[k].timestamp_ms > cutoff;
                    assert(rest[k - i - 1] == self.events_403@[k]);
                    assert(spec_distinct_403s(tail, domain@, cutoff) == spec_distinct_403s(rest,
                        domain@, cutoff));
                } else {
                    assert(spec_distinct_403s(tail, domain@, cutoff) == spec_distinct_403s(rest,
                        domain@, cutoff));
                }
            }
            if in_window && !seen_later {
                count = count + 1;
            }
            i = i + 1;
        }
        proof {
            assert(self.events_403@.skip(n as int) =~= Seq::<RateLimitEvent>::empty());
        }
        count
    }

    /// Drop every 403/429 event older than the window.  Returns how many
    /// were dropped.
    pub fn cleanup_expired(&mut self, now_ms: u64, window_ms: u64) -> (dropped: u64)
        requires
            old(self).wf(),
        ensures
            final(self).wf(),
            final(self).base_delay_ms == old(self).base_delay_ms,
            final(self).domains == old(self).domains,
            final(self).events_403@ == old(self).events_403@.filter(|ev: RateLimitEvent|
                ev.timestamp_ms >= now_ms - window_ms),
            dropped == old(self).events_403@.len() - final(self).events_403@.len(),
    {
        let ghost cutoff = now_ms - window_ms;
        let n = self.events_403.len();
        let mut kept: Vec<RateLimitEvent> = Vec::new();
        let mut i: usize = 0;
        while i < n
            invariant
                0 <= i <= n,
                n == self.events_403@.len(),
                kept@ == self.events_403@.take(i as int).filter(|ev: RateLimitEvent|
                    ev.timestamp_ms >= cutoff),
            decreases n - i,
        {
            let ev = self.events_403[i].clone();
            let ghost pre = kept@;
            proof {
                assert(self.events_403@.take(i + 1).drop_last() =~= self.events_403@.take(i as int));
                reveal_with_fuel(Seq::filter, 2);
                assert(self.events_403@.take(i + 1).last() == self.events_403@[i as int]);
            }
            if at_or_after_cutoff(ev.timestamp_ms, now_ms, window_ms) {
                kept.push(ev);
            } else {
                proof {
                    assert(!(self.events_403@[i as int].timestamp_ms >= cutoff));
                }
            }
            proof {
                let f = |e: RateLimitEvent| e.timestamp_ms >= cutoff;
                assert(self.events_403@.take(i + 1).filter(f) == if f(self.events_403@[i as int]) {
                    self.events_403@.take(i as int).filter(f).push(self.events_403@[i as int])
                } else {
                    self.events_403@.take(i as int).filter(f)
                });
            }
            i = i + 1;
        }
        proof {
            assert(self.events_403@.take(n as int) =~= self.events_403@);
        }
        let before = self.events_403.len();
        let after = kept.len();
        proof {
            self.events_403@.lemma_filter_len(|ev: RateLimitEvent| ev.timestamp_ms >= cutoff);
        }
        self.events_403 = kept;
        (before - after) as u64
    }

    /// Drop every 403/429 event recorded for a domain.
    pub fn clear_403s(&mut self, domain: &str)
        requires
            old(self).wf(),
        ensures
            final(self).wf(),
            final(self).base_delay_ms == old(self).base_delay_ms,
            final(self).domains == old(self).domains,
            final(self).events_403@ == old(self).events_403@.filter(|ev: RateLimitEvent|
                ev.domain@ != domain@),
    {
        let n = self.events_403.len();
        let mut kept: Vec<RateLimitEvent> = Vec::new();
        let mut i: usize = 0;
        while i < n
            invariant
                0 <= i <= n,
                kept@ == self.events_403@.take(i as int).filter(|ev: RateLimitEvent|
                    ev.domain@ != domain@),
            decreases n - i,
        {
            let ev = self.events_403[i].clone();
            proof {
                assert(self.events_403@.take(i + 1).drop_last() =~= self.events_403@.take(i as int));
                reveal_with_fuel(Seq::filter, 2);
                assert(self.events_403@.take(i + 1).last() == self.events_403@[i as int]);
            }
            if !crate::text::str_eq(ev.domain.as_str(), domain) {
                kept.push(ev);
            }
            proof {
                let f = |e: RateLimitEvent| e.domain@ != domain@;
                assert(self.events_403@.take(i + 1).filter(f) == if f(self.events_403@[i as int]) {
                    self.events_403@.take(i as int).filter(f).push(self.events_403@[i as int])
                } else {
                    self.events_403@.take(i as int).filter(f)
                });
            }
            i = i + 1;
        }
        proof {
            assert(self.events_403@.take(n as int) =~= self.events_403@);
        }
        self.events_403 = kept;
    }

    /// Return the tracked state for a domain, creating a fresh one at
    /// `base_delay_ms` when none is tracked yet.
    pub fn get_or_create_domain(&mut self, domain: &str, base_delay_ms: u64) -> (r: DomainRateState)
        requires
            old(self).wf(),
        ensures
            final(self).wf(),
            final(self).base_delay_ms == old(self).base_delay_ms,
            final(self).events_403 == old(self).events_403,
            old(self).spec_state_of(domain@) matches Some(st) ==> r == st && *final(self) == *old(
                self),
            old(self).spec_state_of(domain@) is None ==> r.domain@ == domain@
                && r.current_delay_ms == base_delay_ms && r.last_request_at is None
                && r.consecutive_successes == 0 && !r.in_backoff && r.total_requests == 0
                && r.rate_limit_hits == 0,
            final(self).spec_state_of(domain@) == Option::Some(r),
            forall|d: Seq<char>|
                d != domain@ ==> #[trigger] final(self).spec_state_of(d) == old(self).spec_state_of(
                    d),
    {
        let found = self.find_domain(domain);
        match found {
            Option::Some(i) => {
                proof {
                    assert(self.spec_find(domain@)->0 == i as int);
                }
                self.domains[i].clone()
            },
            Option::None => {
                let st = DomainRateState::new(domain.to_owned(), base_delay_ms);
                let r = st.clone();
                self.domains.push(st);
                proof {
                    lemma_state_of_after_push(*old(self), *self, domain@);
                }
                r
            },
        }
    }

    /// Overwrite the tracked state for `state.domain`; a domain that is
    /// not tracked is left untouched, as a row update matching nothing.
    pub fn update_domain(&mut self, state: &DomainRateState)
        requires
            old(self).wf(),
        ensures
            final(self).wf(),
            final(self).base_delay_ms == old(self).base_delay_ms,
            final(self).events_403 == old(self).events_403,
            old(self).spec_state_of(state.domain@) is Some ==> final(self).spec_state_of(
                state.domain@) == Option::Some(*state),
            old(self).spec_state_of(state.domain@) is None ==> *final(self) == *old(self),
            forall|d: Seq<char>|
                d != state.domain@ ==> #[trigger] final(self).spec_state_of(d) == old(
                    self).spec_state_of(d),
    {
        let found = self.find_domain(state.domain.as_str());
        match found {
            Option::Some(i) => {
                proof {
                    assert(self.spec_find(state.domain@)->0 == i as int);
                }
                let slot = &mut self.domains[i];
                *slot = state.clone();
                proof {
                    lemma_state_of_after_update(*old(self), *self, i as int, state.domain@);
                }
            },
            Option::None => {
            },
        }
    }

    /// A domain is worth persisting only while it carries pressure:
    /// it is in backoff or its delay sits above the base delay.
    pub open spec fn spec_should_persist(st: DomainRateState, base_delay_ms: u64) -> bool {
        st.in_backoff || st.current_delay_ms > base_delay_ms
    }

    /// The rows worth writing to durable storage: one
    /// `(domain, delay, in_backoff, total_requests, rate_limit_hits)`
    /// tuple per domain with non-default state.
    pub fn rows_to_save(&self) -> (r: Vec<(String, u64, bool, u64, u64)>)
        ensures
            r@ == self.domains@.filter(|st: DomainRateState|
                Self::spec_should_persist(st, self.base_delay_ms)).map_values(
                |st: DomainRateState|
                    (st.domain, st.current_delay_ms, st.in_backoff, st.total_requests,
                    st.rate_limit_hits),
            ),
    {
        let ghost f = |st: DomainRateState| Self::spec_should_persist(st, self.base_delay_ms);
        let ghost g = |st: DomainRateState|
            (st.domain, st.current_delay_ms, st.in_backoff, st.total_requests, st.rate_limit_hits);
        let n = self.domains.len();
        let mut r: Vec<(String, u64, bool, u64, u64)> = Vec::new();
        let mut i: usize = 0;
        while i < n
            invariant
                0 <= i <= n,
                r@ == self.domains@.take(i as int).filter(f).map_values(g),
            decreases n - i,
        {
            let st = &self.domains[i];
            proof {
                assert(self.domains@.take(i + 1).drop_last() =~= self.domains@.take(i as int));
                reveal_with_fuel(Seq::filter, 2);
                assert(self.domains@.take(i + 1).last() == self.domains@[i as int]);
                assert(self.domains@.take(i + 1).filter(f) == if f(self.domains@[i as int]) {
                    self.domains@.take(i as int).filter(f).push(self.domains@[i as int])
                } else {
                    self.domains@.take(i as int).filter(f)
                });
            }
            if st.in_backoff || st.current_delay_ms > self.base_delay_ms {
                r.push(
                    (st.domain.clone(), st.current_delay_ms, st.in_backoff, st.total_requests,
                    st.rate_limit_hits),
                );
                proof {
                    assert(r@ =~= self.domains@.take(i + 1).filter(f).map_values(g));
                }
            } else {
                proof {
                    assert(r@ =~= self.domains@.take(i + 1).filter(f).map_values(g));
                }
            }
            i = i + 1;
        }
        proof {
            assert(self.domains@.take(n as int) =~= self.domains@);
        }
        r
    }

    /// The state a persisted row is restored to: the stored delay and
    /// backoff flag and counters, no last-request reservation (a fresh
    /// epoch after restart) and a reset success streak.
    pub open spec fn spec_restored(row: (String, u64, bool, u64, u64)) -> DomainRateState {
        DomainRateState {
            domain: row.0,
            current_delay_ms: row.1,
            last_request_at: Option::None,
            consecutive_successes: 0,
            in_backoff: row.2,
            total_requests: row.3,
            rate_limit_hits: row.4,
        }
    }

    /// Restore persisted rows into a fresh limiter.  Only rows that still
    /// carry pressure (in backoff, or delay above base) are restored;
    /// rows whose domain was already restored are dropped, keeping
    /// domains unique.  Returns the limiter and how many rows it took.
    pub fn restore_from_rows(base_delay_ms: u64, rows: Vec<(String, u64, bool, u64, u64)>) -> (r: (
        RateLimiter,
        usize,
    ))
        ensures
            r.0.wf(),
            r.0.base_delay_ms == base_delay_ms,
            r.0.events_403@.len() == 0,
            r.1 == r.0.domains@.len(),
            forall|i: int|
                0 <= i < r.0.domains@.len() ==> Self::spec_should_persist(
                    #[trigger] r.0.domains@[i], base_delay_ms),
            forall|i: int|
                0 <= i < r.0.domains@.len() ==> exists|j: int|
                    0 <= j < rows@.len() && #[trigger] r.0.domains@[i] == Self::spec_restored(
                        rows@[j]),
            forall|j: int|
                0 <= j < rows@.len() && Self::spec_should_persist(
                    Self::spec_restored(#[trigger] rows@[j]), base_delay_ms) ==> r.0.spec_state_of(
                    rows@[j].0@) is Some,
    {
        let mut limiter = RateLimiter::new(base_delay_ms);
        let n = rows.len();
        let mut i: usize = 0;
        let mut count: usize = 0;
        while i < n
            invariant
                0 <= i <= n,
                limiter.wf(),
                limiter.base_delay_ms == base_delay_ms,
                limiter.events_403@.len() == 0,
                count <= i,
                count == limiter.domains@.len(),
                forall|k: int|
                    0 <= k < limiter.domains@.len() ==> Self::spec_should_persist(
                        #[trigger] limiter.domains@[k], base_delay_ms),
                forall|k: int|
                    0 <= k < limiter.domains@.len() ==> exists|j: int|
                        0 <= j < i && #[trigger] limiter.domains@[k] == Self::spec_restored(
                            rows@[j]),
                forall|j: int|
                    0 <= j < i && Self::spec_should_persist(Self::spec_restored(#[trigger] rows@[j]),
                        base_delay_ms) ==> limiter.spec_state_of(rows@[j].0@) is Some,
            decreases n - i,
        {
            let row = &rows[i];
            if row.2 || row.1 > base_delay_ms {
                let already = limiter.find_domain(row.0.as_str());
                match already {
                    Option::Some(_) => {
                    },
                    Option::None => {
                        let ghost pre = limiter;
                        limiter.domains.push(
                            DomainRateState {
                                domain: row.0.clone(),
                                current_delay_ms: row.1,
                                last_request_at: Option::None,
                                consecutive_successes: 0,
                                in_backoff: row.2,
                                total_requests: row.3,
                                rate_limit_hits: row.4,
                            },
                        );
                        count = count + 1;
                        proof {
                            lemma_state_of_after_push(pre, limiter, rows@[i as int].0@);
                            assert(limiter.domains@.last() == Self::spec_restored(rows@[i as int]));
                        }
                    },
                }
            } else {
                proof {
                    assert(!Self::spec_should_persist(Self::spec_restored(rows@[i as int]),
                        base_delay_ms));
                }
            }
            proof {
                assert forall|j: int|
                    0 <= j < i + 1 && Self::spec_should_persist(Self::spec_restored(
                        #[trigger] rows@[j]), base_delay_ms) implies limiter.spec_state_of(
                    rows@[j].0@) is Some by {
                    if j < i {
                        assert(limiter.spec_state_of(rows@[j].0@) is Some);
                    }
                }
            }
            i = i + 1;
        }
        (limiter, count)
    }
}

/// After one element of `domains` is replaced, every other domain still
/// denotes its old state, and the touched domain denotes the new element.
proof fn lemma_state_of_after_update(
    pre: RateLimiter,
    post: RateLimiter,
    i: int,
    domain: Seq<char>,
)
    requires
        pre.wf(),
        0 <= i < pre.domains@.len(),
        post.domains@.len() == pre.domains@.len(),
        pre.domains@[i].domain@ == domain,
        post.domains@[i].domain@ == domain,
        forall|j: int| 0 <= j < pre.domains@.len() && j != i ==> post.domains@[j] == pre.domains@[j],
    ensures
        post.wf(),
        post.spec_state_of(domain) == Option::Some(post.domains@[i]),
        forall|d: Seq<char>| d != domain ==> #[trigger] post.spec_state_of(d) == pre.spec_state_of(d),
{
    assert forall|a: int, b: int| 0 <= a < b < post.domains@.len() implies (
    #[trigger] post.domains@[a]).domain@ != (#[trigger] post.domains@[b]).domain@ by {
        assert(pre.domains@[a].domain@ != pre.domains@[b].domain@);
        assert(post.domains@[a].domain@ == pre.domains@[a].domain@);
        assert(post.domains@[b].domain@ == pre.domains@[b].domain@);
    }
    assert(post.spec_find(domain) == Option::Some(i)) by {
        assert(post.domains@[i].domain@ == domain);
        let w = choose|k: int|
            0 <= k < post.domains@.len() && (#[trigger] post.domains@[k]).domain@ == domain;
        if w != i {
            assert(post.domains@[w].domain@ != post.domains@[i].domain@);
        }
    }
    assert forall|d: Seq<char>| d != domain implies #[trigger] post.spec_state_of(d)
        == pre.spec_state_of(d) by {
        assert(forall|k: int|
            0 <= k < post.domains@.len() ==> (#[trigger] post.domains@[k]).domain@ == (
            #[trigger] pre.domains@[k]).domain@ || k == i);
        if exists|k: int| 0 <= k < pre.domains@.len() && (#[trigger] pre.domains@[k]).domain@ == d {
            let k = choose|k: int|
                0 <= k < pre.domains@.len() && (#[trigger] pre.domains@[k]).domain@ == d;
            assert(k != i);
            assert(post.domains@[k].domain@ == d);
            let k2 = post.spec_find(d)->0;
            if k2 != k {
                assert(post.domains@[k2].domain@ == post.domains@[k].domain@);
            }
            let k3 = pre.spec_find(d)->0;
            if k3 != k {
                assert(pre.domains@[k3].domain@ == pre.domains@[k].domain@);
            }
        } else {
            assert(forall|k: int|
                0 <= k < post.domains@.len() ==> (#[trigger] post.domains@[k]).domain@ != d);
        }
    }
}

/// After a state for a fresh domain is appended, lookups of the fresh
/// domain find it and every other domain is unaffected.
proof fn lemma_state_of_after_push(pre: RateLimiter, post: RateLimiter, domain: Seq<char>)
    requires
        pre.wf(),
        pre.spec_find(domain) is None,
        post.domains@.len() == pre.domains@.len() + 1,
        forall|j: int| 0 <= j < pre.domains@.len() ==> post.domains@[j] == pre.domains@[j],
        post.domains@.last().domain@ == domain,
    ensures
        post.wf(),
        post.spec_state_of(domain) == Option::Some(post.domains@.last()),
        forall|d: Seq<char>| d != domain ==> #[trigger] post.spec_state_of(d) == pre.spec_state_of(d),
{
    let n = pre.domains@.len() as int;
    assert forall|a: int, b: int| 0 <= a < b < post.domains@.len() implies (
    #[trigger] post.domains@[a]).domain@ != (#[trigger] post.domains@[b]).domain@ by {
        if b < n {
            assert(pre.domains@[a].domain@ != pre.domains@[b].domain@);
        } else {
            assert(post.domains@[b].domain@ == domain);
            assert(pre.domains@[a].domain@ != domain);
        }
    }
    assert(post.spec_find(domain) == Option::Some(n)) by {
        assert(post.domains@[n].domain@ == domain);
        let w = choose|k: int|
            0 <= k < post.domains@.len() && (#[trigger] post.domains@[k]).domain@ == domain;
        if w != n {
            assert(post.domains@[w].domain@ != post.domains@[n].domain@);
        }
    }
    assert forall|d: Seq<char>| d != domain implies #[trigger] post.spec_state_of(d)
        == pre.spec_state_of(d) by {
        if exists|k: int| 0 <= k < pre.domains@.len() && (#[trigger] pre.domains@[k]).domain@ == d {
            let k = choose|k: int|
                0 <= k < pre.domains@.len() && (#[trigger] pre.domains@[k]).domain@ == d;
            assert(post.domains@[k].domain@ == d);
            let k2 = post.spec_find(d)->0;
            if k2 != k {
                assert(post.domains@[k2].domain@ == post.domains@[k].domain@);
            }
            let k3 = pre.spec_find(d)->0;
            if k3 != k {
                assert(pre.domains@[k3].domain@ == pre.domains@[k].domain@);
            }
        } else {
            assert(forall|k: int| 0 <= k < n ==> (#[trigger] post.domains@[k]).domain@ != d);
            assert(post.domains@[n].domain@ == domain);
            assert(forall|k: int|
                0 <= k < post.domains@.len() ==> (#[trigger] post.domains@[k]).domain@ != d);
        }
    }
}

/// Two reservations on one domain are spaced by at least the delay that
/// was current when the first was made: for consecutive `acquire` calls
/// the reserved start times satisfy
/// `reserved2 - reserved1 >= delay at the first reservation`.
pub proof fn lemma_acquire_spacing(
    s0: RateLimiter,
    s1: RateLimiter,
    s2: RateLimiter,
    domain: Seq<char>,
    now1: int,
    wait1: int,
    now2: int,
    wait2: int,
)
    requires
        // what acquire ensures for the first call...
        s1.spec_state_of(domain) matches Some(st1) && st1.last_request_at == Option::Some(
            (now1 + wait1) as u64),
        now1 + wait1 <= u64::MAX,
        // ...and for the second
        s2.spec_state_of(domain) matches Some(st2) && st2.last_request_at == Option::Some(
            (now2 + wait2) as u64),
        now2 + wait2 <= u64::MAX,
        s1.spec_state_of(domain) matches Some(st1) && (st1.last_request_at matches Some(t) ==> now2
            + wait2 >= t + st1.current_delay_ms),
    ensures
        (now2 + wait2) - (now1 + wait1) >= s1.spec_state_of(domain)->0.current_delay_ms,
{
}

} // verus!
