//! Typed fetch outcomes and HTTP response classification.
//!
//! The fetcher's edge (sockets, timers) lives outside; what is verified
//! here is the classification of a response into the outcome the
//! orchestrator acts on, and the construction of conditional request
//! headers from a row's cached validators.

use vstd::prelude::*;

verus! {

/// The outcome of one fetch attempt, as the orchestrator acts on it.
#[derive(Debug)]
pub enum FetchOutcome {
    /// 200 with a body: the body was stored under `content_hash`.
    Fetched {
        /// Hex SHA-256 of the stored body.
        content_hash: String,
        /// Document the body was stored into.
        document_id: String,
        /// `ETag` of the response, if any.
        new_etag: Option<String>,
        /// `Last-Modified` of the response, if any.
        new_last_modified: Option<String>,
    },
    /// 304: the cached body still stands.
    NotModified {
        /// Refreshed `ETag`, if the response carried one.
        new_etag: Option<String>,
        /// Refreshed `Last-Modified`, if the response carried one.
        new_last_modified: Option<String>,
    },
    /// 403 or 429: backed off and retried later.
    RateLimited {
        /// Parsed `Retry-After` wait in milliseconds, if any.
        retry_after_ms: Option<u64>,
    },
    /// Another 4xx: terminal unless an operator intervenes.
    ClientError {
        /// The status code.
        status: u16,
    },
    /// 5xx or a transport failure: retried with backoff.
    TransientError {
        /// What went wrong.
        reason: String,
    },
}

/// The classes a response status falls into.
#[derive(Clone, Copy, Debug, PartialEq, Eq, Structural)]
pub enum ResponseClass {
    /// 2xx with a body.
    Success,
    /// 304.
    NotModified,
    /// 403 or 429.
    RateLimited,
    /// Another 4xx.
    ClientError,
    /// 5xx.
    ServerError,
    /// No status at all: the transport failed.
    Transport,
}

/// How a response status is classified; `None` is a transport error.
pub open spec fn spec_classify(status: Option<u16>) -> ResponseClass {
    match status {
        Option::None => ResponseClass::Transport,
        Option::Some(s) => if 200 <= s < 300 {
            ResponseClass::Success
        } else if s == 304 {
            ResponseClass::NotModified
        } else if s == 403 || s == 429 {
            ResponseClass::RateLimited
        } else if 400 <= s < 500 {
            ResponseClass::ClientError
        } else if 500 <= s < 600 {
            ResponseClass::ServerError
        } else {
            ResponseClass::Transport
        },
    }
}

/// Classify a response status.  A status outside any known class (1xx,
/// 3xx other than 304, or out of range) is treated like a transport
/// failure: retried with backoff.
pub fn classify_response(status: Option<u16>) -> (r: ResponseClass)
    ensures
        r == spec_classify(status),
{
    match status {
        Option::None => ResponseClass::Transport,
        Option::Some(s) => {
            if 200 <= s && s < 300 {
                ResponseClass::Success
            } else if s == 304 {
                ResponseClass::NotModified
            } else if s == 403 || s == 429 {
                ResponseClass::RateLimited
            } else if 400 <= s && s < 500 {
                ResponseClass::ClientError
            } else if 500 <= s && s < 600 {
                ResponseClass::ServerError
            } else {
                ResponseClass::Transport
            }
        },
    }
}

/// Conditional request headers built from a row's cached validators:
/// `If-None-Match` iff an entity tag is stored, `If-Modified-Since` iff
/// a `Last-Modified` is stored.  The boolean says whether the request is
/// conditional at all.
pub fn build_conditional_headers(etag: Option<&String>, last_modified: Option<&String>) -> (r: (
    Vec<(String, String)>,
    bool,
))
    ensures
        r.1 == (etag is Some || last_modified is Some),
        r.0@.len() == (if etag is Some {
            1int
        } else {
            0int
        }) + (if last_modified is Some {
            1int
        } else {
            0int
        }),
        etag matches Some(t) ==> r.0@[0].0@ == "If-None-Match"@ && r.0@[0].1@ == t@,
        last_modified matches Some(m) ==> r.0@.last().0@ == "If-Modified-Since"@ && r.0@.last().1@
            == m@,
    {
    let mut headers: Vec<(String, String)> = Vec::new();
    let mut conditional = false;
    match etag {
        Option::Some(t) => {
            headers.push(("If-None-Match".to_owned(), t.clone()));
            conditional = true;
        },
        Option::None => {
        },
    }
    match last_modified {
        Option::Some(m) => {
            headers.push(("If-Modified-Since".to_owned(), m.clone()));
            conditional = true;
        },
        Option::None => {
        },
    }
    (headers, conditional)
}

/// A 304 never carries a stored body, so an outcome built from one is
/// never `Fetched`: turn a classified response into the outcome the
/// orchestrator records.  `body_stored` carries the content hash and
/// document id that the store returned for a 2xx body.
pub fn outcome_for(
    class: ResponseClass,
    status: Option<u16>,
    body_stored: Option<(String, String)>,
    new_etag: Option<String>,
    new_last_modified: Option<String>,
    retry_after_ms: Option<u64>,
    reason: &str,
) -> (r: FetchOutcome)
    requires
        class == ResponseClass::Success ==> body_stored is Some,
        class == ResponseClass::ClientError ==> status is Some,
    ensures
        class == ResponseClass::Success ==> (r matches FetchOutcome::Fetched {
            content_hash,
            document_id,
            new_etag: e,
            new_last_modified: m,
        } && content_hash == (body_stored->0).0 && document_id == (body_stored->0).1 && e == new_etag
            && m == new_last_modified),
        class == ResponseClass::NotModified ==> (r matches FetchOutcome::NotModified {
            new_etag: e,
            new_last_modified: m,
        } && e == new_etag && m == new_last_modified),
        class == ResponseClass::RateLimited ==> (r matches FetchOutcome::RateLimited {
            retry_after_ms: w,
        } && w == retry_after_ms),
        class == ResponseClass::ClientError ==> (r matches FetchOutcome::ClientError { status: s }
            && Option::Some(s) == status),
        (class == ResponseClass::ServerError || class == ResponseClass::Transport) ==> (r matches
            FetchOutcome::TransientError { reason: why } && why@ == reason@),
{
    match class {
        ResponseClass::Success => {
            let stored = body_stored.unwrap();
            FetchOutcome::Fetched {
                content_hash: stored.0,
                document_id: stored.1,
                new_etag,
                new_last_modified,
            }
        },
        ResponseClass::NotModified => FetchOutcome::NotModified { new_etag, new_last_modified },
        ResponseClass::RateLimited => FetchOutcome::RateLimited { retry_after_ms },
        ResponseClass::ClientError => FetchOutcome::ClientError { status: status.unwrap() },
        ResponseClass::ServerError => FetchOutcome::TransientError { reason: reason.to_owned() },
        ResponseClass::Transport => FetchOutcome::TransientError { reason: reason.to_owned() },
    }
}

} // verus!
