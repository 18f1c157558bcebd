//! The orchestrator's decision step: how one classified HTTP response
//! moves the crawl state forward.  The network call, the sleep and the
//! disk write around it are the caller's; what is decided here is what
//! gets stored, what gets recorded, and what the frontier row becomes.

use vstd::prelude::*;

use crate::docstore::{spec_put_outcome, DocStore, PutOutcome};
use crate::fetcher::{classify_response, outcome_for, FetchOutcome, ResponseClass, spec_classify};
use crate::frontier::{RetryPolicy, spec_result_row};
use crate::repo::CrawlRepository;
use crate::status::{allowed_transition, UrlStatus};

verus! {

/// Apply one fetch attempt's response to the crawl state.
///
/// A 2xx body is stored into the document store (deduplicated by
/// content hash) and the row settles as Fetched with the new linkage; a
/// 304 stores nothing — the store is untouched and the row keeps its
/// linkage — and every error schedules the row per the retry policy.
/// The typed outcome that was recorded is returned, together with the
/// record of what the store did when a body was stored.
pub fn handle_response(
    repo: &mut CrawlRepository,
    store: &mut DocStore,
    source_id: &str,
    url: &str,
    title: &str,
    status: Option<u16>,
    body: &[u8],
    new_etag: Option<String>,
    new_last_modified: Option<String>,
    retry_after_ms: Option<u64>,
    reason: &str,
    mime_type: &str,
    now_ms: u64,
    policy: RetryPolicy,
) -> (r: (FetchOutcome, Option<PutOutcome>))
    requires
        old(repo).wf(),
        old(store).wf(),
        old(repo).frontier.spec_entry(source_id@, url@) matches Some(e) ==> e.status
            == UrlStatus::Fetching,
        now_ms <= u64::MAX - crate::backoff::MAX_BACKOFF_MS,
        policy.max_retries >= 1,
    ensures
        final(repo).wf(),
        final(store).wf(),
        // what the store saw: a body stores exactly once, nothing else touches it
        spec_classify(status) == ResponseClass::Success ==> (r.1 matches Some(put)
            && spec_put_outcome(*old(store), *final(store), put, body@, url@, title@, mime_type@,
            source_id@, now_ms)),
        spec_classify(status) != ResponseClass::Success ==> r.1 is None && *final(store) == *old(
            store),
        // conditional correctness: a 304 mutates no document state
        spec_classify(status) == ResponseClass::NotModified ==> *final(store) == *old(store),
        // the frontier row settles per the recorded outcome
        old(repo).frontier.spec_entry(source_id@, url@) is Some ==> ({
            let i = old(repo).frontier.spec_find(source_id@, url@)->0;
            &&& final(repo).frontier.entries@ == old(repo).frontier.entries@.update(i, final(
                repo).frontier.entries@[i])
            &&& spec_result_row(old(repo).frontier.entries@[i], r.0, now_ms, policy, final(
                repo).frontier.entries@[i])
            &&& allowed_transition(old(repo).frontier.entries@[i].status, final(
                repo).frontier.entries@[i].status)
        }),
        old(repo).frontier.spec_entry(source_id@, url@) is None ==> final(repo).frontier == old(
            repo).frontier,
        final(repo).log == old(repo).log,
        final(repo).config_hashes == old(repo).config_hashes,
        // the outcome mirrors the classification, and a body outcome
        // carries exactly what the store recorded
        (r.0 matches FetchOutcome::Fetched { .. }) <==> spec_classify(status)
            == ResponseClass::Success,
        (r.0 matches FetchOutcome::NotModified { .. }) <==> spec_classify(status)
            == ResponseClass::NotModified,
        r.0 matches FetchOutcome::Fetched { content_hash, document_id, .. } ==> (r.1 matches Some(
            put) && content_hash == put.content_hash && document_id == put.document_id),
{
    let class = classify_response(status);
    let (body_stored, put_record): (Option<(String, String)>, Option<PutOutcome>) = match class {
        ResponseClass::Success => {
            let put = store.put(body, url, title, mime_type, source_id, now_ms);
            (Option::Some((put.content_hash.clone(), put.document_id.clone())), Option::Some(put))
        },
        _ => (Option::None, Option::None),
    };
    let outcome = outcome_for(
        class,
        status,
        body_stored,
        new_etag,
        new_last_modified,
        retry_after_ms,
        reason,
    );
    repo.frontier.record_result(source_id, url, &outcome, now_ms, policy);
    (outcome, put_record)
}

} // verus!
