//! Retry backoff math and `Retry-After` handling for rate-limited APIs.

use vstd::prelude::*;

use crate::text::{after_plus, decimal_value, parse_u64, parses_as_u64};

verus! {

/// Default delay between API requests (milliseconds).
pub const DEFAULT_DELAY_MS: u64 = 200;

/// Maximum retry attempts on rate limit errors.
pub const MAX_RETRIES: u32 = 5;

/// Maximum backoff delay (milliseconds).
pub const MAX_BACKOFF_MS: u64 = 60000;

/// Two to the given power.
pub open spec fn pow2(n: nat) -> nat
    decreases n,
{
    if n == 0 {
        1
    } else {
        2 * pow2((n - 1) as nat)
    }
}

/// Exponential backoff, capped: `min(base * 2^attempt, MAX_BACKOFF_MS)`.
pub open spec fn spec_backoff_delay(attempt: nat, base_ms: nat) -> nat {
    if base_ms * pow2(attempt) >= MAX_BACKOFF_MS {
        MAX_BACKOFF_MS as nat
    } else {
        base_ms * pow2(attempt)
    }
}

proof fn lemma_pow2_monotonic(m: nat, n: nat)
    requires
        m <= n,
    ensures
        pow2(m) <= pow2(n),
    decreases n - m,
{
    if m < n {
        lemma_pow2_monotonic(m, (n - 1) as nat);
        assert(pow2(n) == 2 * pow2((n - 1) as nat));
    }
}

proof fn lemma_mul_pow2_monotonic(base: nat, m: nat, n: nat)
    requires
        m <= n,
    ensures
        base * pow2(m) <= base * pow2(n),
{
    lemma_pow2_monotonic(m, n);
    assert(base * pow2(m) <= base * pow2(n)) by (nonlinear_arith)
        requires
            pow2(m) <= pow2(n),
            base >= 0,
    ;
}

/// Calculate the exponential backoff delay in milliseconds for a given
/// attempt, capped at [`MAX_BACKOFF_MS`].
pub fn backoff_delay(attempt: u32, base_ms: u64) -> (r: u64)
    ensures
        r == spec_backoff_delay(attempt as nat, base_ms as nat),
{
    if base_ms == 0 {
        assert(0 * pow2(attempt as nat) == 0) by (nonlinear_arith);
        return 0;
    }
    if base_ms >= MAX_BACKOFF_MS {
        proof {
            lemma_mul_pow2_monotonic(base_ms as nat, 0, attempt as nat);
            assert(base_ms * pow2(0) == base_ms) by (nonlinear_arith);
        }
        return MAX_BACKOFF_MS;
    }
    let mut cur: u64 = base_ms;
    let mut k: u32 = 0;
    proof {
        assert(pow2(0) == 1);
        assert(base_ms as nat * 1 == base_ms) by (nonlinear_arith);
    }
    while k < attempt
        invariant
            k <= attempt,
            cur == base_ms as nat * pow2(k as nat),
            cur < MAX_BACKOFF_MS,
        decreases attempt - k,
    {
        let next: u64 = cur * 2;
        proof {
            assert(next == base_ms as nat * pow2((k + 1) as nat)) by (nonlinear_arith)
                requires
                    next == 2 * cur,
                    cur == base_ms as nat * pow2(k as nat),
                    pow2((k + 1) as nat) == 2 * pow2(k as nat),
            ;
        }
        if next >= MAX_BACKOFF_MS {
            proof {
                lemma_mul_pow2_monotonic(base_ms as nat, (k + 1) as nat, attempt as nat);
            }
            return MAX_BACKOFF_MS;
        }
        cur = next;
        k = k + 1;
    }
    cur
}

/// What `parse_retry_after` yields: the advised wait in milliseconds,
/// capped at [`MAX_BACKOFF_MS`], for a header that parses as integer
/// seconds; `None` for a missing or non-numeric header (the HTTP-date
/// form is not handled in this revision).
pub open spec fn spec_retry_after_ms(header: Option<Seq<char>>) -> Option<u64> {
    match header {
        Option::None => Option::None,
        Option::Some(s) => if parses_as_u64(s) {
            if decimal_value(after_plus(s)) >= 60 {
                Option::Some(MAX_BACKOFF_MS)
            } else {
                Option::Some((decimal_value(after_plus(s)) * 1000) as u64)
            }
        } else {
            Option::None
        },
    }
}

/// Parse a `Retry-After` header value given as integer seconds.
/// Returns the wait in milliseconds, capped at 60 seconds, or `None` if
/// the header is missing or not a plain number.
pub fn parse_retry_after(header_value: Option<&str>) -> (r: Option<u64>)
    ensures
        r == spec_retry_after_ms(match header_value {
            Option::None => Option::None,
            Option::Some(s) => Option::Some(s@),
        }),
{
    match header_value {
        Option::None => Option::None,
        Option::Some(value) => match parse_u64(value) {
            Option::None => Option::None,
            Option::Some(secs) => if secs >= 60 {
                Option::Some(MAX_BACKOFF_MS)
            } else {
                Option::Some(secs * 1000)
            },
        },
    }
}

/// Rate limit bookkeeping for one named remote API.
#[derive(Debug, Clone)]
pub struct ApiRateLimiter {
    /// Name of the API (for reporting).
    pub name: String,
    /// Environment variable that configures the inter-request delay;
    /// reading it is left to the unverified edge.
    pub delay_env_var: String,
}

impl ApiRateLimiter {
    /// Create a new rate limiter for an API.
    pub fn new(name: &str, delay_env_var: &str) -> (r: Self)
        ensures
            r.name@ == name@,
            r.delay_env_var@ == delay_env_var@,
    {
        ApiRateLimiter { name: name.to_owned(), delay_env_var: delay_env_var.to_owned() }
    }

    /// Handle a rate limit response: how long to wait in milliseconds, or
    /// `None` once [`MAX_RETRIES`] attempts are used up.  A parseable
    /// `Retry-After` header wins over the exponential backoff.
    pub fn handle_rate_limit(&self, attempt: u32, retry_after: Option<&str>) -> (r: Option<u64>)
        ensures
            r is None <==> attempt >= MAX_RETRIES,
            attempt < MAX_RETRIES ==> r is Some && r->0 as nat == (
            match spec_retry_after_ms(match retry_after {
                Option::None => Option::None,
                Option::Some(s) => Option::Some(s@),
            }) {
                Option::Some(ms) => ms as nat,
                Option::None => spec_backoff_delay(attempt as nat, 1000),
            }),
    {
        if attempt >= MAX_RETRIES {
            return Option::None;
        }
        match parse_retry_after(retry_after) {
            Option::Some(ms) => Option::Some(ms),
            Option::None => Option::Some(backoff_delay(attempt, 1000)),
        }
    }
}

} // verus!
