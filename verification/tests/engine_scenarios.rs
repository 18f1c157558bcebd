//! End-to-end scenarios over the crawl engine: fresh fetch, conditional
//! re-check, content change, rate limiting, config invalidation and
//! retry exhaustion.

use foiacquire::audit::make_request_record;
use foiacquire::docstore::{DocStore, DocumentVersion};
use foiacquire::fetcher::{build_conditional_headers, FetchOutcome};
use foiacquire::frontier::RetryPolicy;
use foiacquire::limiter::RateLimiter;
use foiacquire::orchestrator::handle_response;
use foiacquire::repo::CrawlRepository;
use foiacquire::status::{DiscoveryMethod, UrlStatus};

const SID: &str = "example";
const URL: &str = "https://example.org/a";

fn policy() -> RetryPolicy {
    RetryPolicy::new()
}

fn run_fetch(
    repo: &mut CrawlRepository,
    store: &mut DocStore,
    status: Option<u16>,
    body: &[u8],
    etag: Option<&str>,
    now_ms: u64,
) -> FetchOutcome {
    let claim = repo
        .frontier
        .claim(Some(SID), now_ms)
        .expect("a pending row should be claimable");
    assert_eq!(claim.status, UrlStatus::Fetching);

    // the audit log gets one row per attempt, whatever the outcome
    let stored_etag = claim.etag.clone();
    let (headers, conditional) =
        build_conditional_headers(stored_etag.as_ref(), claim.last_modified.as_ref());
    let record = make_request_record(
        SID,
        URL,
        "GET",
        &headers,
        "{}".to_string(),
        now_ms,
        status,
        "{}".to_string(),
        status.map(|_| now_ms + 5),
        status.and(Some(body.len() as u64)),
        Some(5),
        if status.is_none() { Some("connect failed".to_string()) } else { None },
    );
    assert_eq!(record.was_conditional, conditional);
    repo.log.log_request(record);

    let (outcome, _put) = handle_response(
        repo,
        store,
        SID,
        URL,
        "A page",
        status,
        body,
        etag.map(|t| t.to_string()),
        None,
        None,
        "server error",
        "text/html",
        now_ms,
        policy(),
    );
    outcome
}

#[test]
fn scenario_fresh_fetch() {
    let mut repo = CrawlRepository::new();
    let mut store = DocStore::new();
    assert!(repo.frontier.add(SID, URL, DiscoveryMethod::Seed, None, "{}".to_string(), 0, 1000));

    let outcome = run_fetch(&mut repo, &mut store, Some(200), b"hello", Some("v1"), 2000);
    let hash = DocumentVersion::compute_hash(b"hello");
    match outcome {
        FetchOutcome::Fetched { content_hash, .. } => assert_eq!(content_hash, hash),
        _ => panic!("a 200 must store and settle as Fetched"),
    }

    // one audit row with the right status
    assert_eq!(repo.log.rows.len(), 1);
    assert_eq!(repo.log.rows[0].response_status, Some(200));

    // the row is Fetched with the body's hash and the new validator
    let entry = repo.frontier.retryable(SID, u64::MAX - 100_000, 10);
    assert!(entry.is_empty());
    let row = repo.log.get_last_request(SID, URL).unwrap();
    assert_eq!(row.url, URL);
    let state = repo.frontier.crawl_state(SID);
    assert_eq!(state.urls_fetched, 1);
    assert_eq!(state.urls_pending, 0);

    // one document, one version, at the content-addressed path
    assert_eq!(store.documents.len(), 1);
    let doc = &store.documents[0];
    assert_eq!(doc.source_url, URL);
    assert_eq!(doc.versions.len(), 1);
    assert_eq!(doc.versions[0].content_hash, hash);
    let expected_path = format!("{}/a-{}.html", &hash[..2], &hash[..8]);
    assert_eq!(doc.versions[0].file_path, expected_path);
}

#[test]
fn scenario_conditional_not_modified() {
    let mut repo = CrawlRepository::new();
    let mut store = DocStore::new();
    assert!(repo.frontier.add(SID, URL, DiscoveryMethod::Seed, None, "{}".to_string(), 0, 1000));
    run_fetch(&mut repo, &mut store, Some(200), b"hello", Some("v1"), 2000);

    // the stored validator makes the re-check conditional
    assert!(repo.frontier.mark_for_refresh(SID, URL));
    let outcome = run_fetch(&mut repo, &mut store, Some(304), b"", None, 3000);
    assert!(matches!(outcome, FetchOutcome::NotModified { .. }));

    let last = repo.log.get_last_request(SID, URL).unwrap();
    assert!(last.was_conditional);
    assert!(last.was_not_modified);

    // no new version, linkage kept, row still Fetched
    assert_eq!(store.documents.len(), 1);
    assert_eq!(store.documents[0].versions.len(), 1);
    let state = repo.frontier.crawl_state(SID);
    assert_eq!(state.urls_fetched, 1);
}

#[test]
fn scenario_content_change_appends_version() {
    let mut repo = CrawlRepository::new();
    let mut store = DocStore::new();
    assert!(repo.frontier.add(SID, URL, DiscoveryMethod::Seed, None, "{}".to_string(), 0, 1000));
    run_fetch(&mut repo, &mut store, Some(200), b"hello", Some("v1"), 2000);

    assert!(repo.frontier.mark_for_refresh(SID, URL));
    run_fetch(&mut repo, &mut store, Some(200), b"changed", Some("v2"), 3000);

    assert_eq!(store.documents.len(), 1);
    let doc = &store.documents[0];
    assert_eq!(doc.versions.len(), 2);
    // appending a version leaves the document record itself alone
    assert_eq!(doc.source_url, URL);
    assert_eq!(doc.title, "A page");
    assert_eq!(doc.source_id, SID);
    assert_eq!(doc.created_at, 2000);
    let current = doc.current_version().unwrap();
    assert_eq!(current.content_hash, DocumentVersion::compute_hash(b"changed"));
    assert_eq!(current.acquired_at, 3000);

    // storing the same bytes again adds nothing (dedup by hash)
    assert!(repo.frontier.mark_for_refresh(SID, URL));
    run_fetch(&mut repo, &mut store, Some(200), b"changed", Some("v2"), 4000);
    assert_eq!(store.documents[0].versions.len(), 2);
}

#[test]
fn scenario_rate_limit_spacing_and_backoff() {
    let mut limiter = RateLimiter::new(500);

    // two reservations on one domain are at least base_delay_ms apart
    let w1 = limiter.acquire("example.org", 10_000);
    let w2 = limiter.acquire("example.org", 10_000);
    let reserved1 = 10_000 + w1;
    let reserved2 = 10_000 + w2;
    assert!(reserved2 - reserved1 >= 500);

    // two 429s with Retry-After: 5 put the domain in backoff at >= 5 s
    limiter.on_rate_limited("example.org", Some(5000));
    limiter.on_rate_limited("example.org", Some(5000));
    let state = limiter.get_or_create_domain("example.org", 500);
    assert!(state.current_delay_ms >= 5000);
    assert!(state.in_backoff);
    assert_eq!(state.rate_limit_hits, 2);

    // the 403 log counts distinct URLs in the window
    limiter.record_403("example.org", "https://example.org/a", 20_000);
    limiter.record_403("example.org", "https://example.org/a", 20_500);
    limiter.record_403("example.org", "https://example.org/b", 21_000);
    assert_eq!(limiter.get_403_count("example.org", 21_500, 10_000), 2);
    let dropped = limiter.cleanup_expired(21_500, 700);
    assert_eq!(dropped, 2);
    assert_eq!(limiter.get_403_count("example.org", 21_500, 10_000), 1);
}

#[test]
fn scenario_config_change_clears_pending() {
    let mut repo = CrawlRepository::new();
    repo.store_config_hash(SID, b"{\"depth\":1}");
    assert!(repo.frontier.add(SID, URL, DiscoveryMethod::Seed, None, "{}".to_string(), 0, 1000));

    // unchanged config: nothing to do
    let (changed, should_clear) = repo.check_config_changed(SID, b"{\"depth\":1}");
    assert!(!changed);
    assert!(!should_clear);

    // a changed config with pending rows asks for a clear
    let (changed, should_clear) = repo.check_config_changed(SID, b"{\"depth\":2}");
    assert!(changed);
    assert!(should_clear);

    repo.clear_source(SID);
    let state = repo.frontier.crawl_state(SID);
    assert_eq!(state.urls_pending, 0);
    assert_eq!(state.urls_discovered, 0);
    assert_eq!(repo.log.rows.len(), 0);

    // re-seeding restores the seed URL
    assert!(repo.frontier.add(SID, URL, DiscoveryMethod::Seed, None, "{}".to_string(), 0, 2000));
    assert!(repo.frontier.url_exists(SID, URL));
    repo.store_config_hash(SID, b"{\"depth\":2}");
    let (changed, _) = repo.check_config_changed(SID, b"{\"depth\":2}");
    assert!(!changed);
}

#[test]
fn scenario_exhaustion_and_cool_off() {
    let mut repo = CrawlRepository::new();
    let mut store = DocStore::new();
    assert!(repo.frontier.add(SID, URL, DiscoveryMethod::Seed, None, "{}".to_string(), 0, 1000));

    // five straight 500s exhaust the row
    let mut now = 2000u64;
    for attempt in 0..5 {
        let outcome = run_fetch(&mut repo, &mut store, Some(500), b"", None, now);
        assert!(matches!(outcome, FetchOutcome::TransientError { .. }));
        let state = repo.frontier.crawl_state(SID);
        if attempt < 4 {
            assert_eq!(state.urls_failed, 1);
            // a failed row is eligible again once its retry time passed
            let eligible = repo.frontier.retryable(SID, now + 70_000, 10);
            assert_eq!(eligible.len(), 1);
            assert!(repo.frontier.mark_for_refresh(SID, URL));
        }
        now += 100_000;
    }
    let exhausted = repo.frontier.retryable(SID, now, 10);
    assert!(exhausted.is_empty(), "exhausted rows wait out the cool-off");

    // 70 days later the row is eligible again
    let seventy_days_ms = 70 * 24 * 60 * 60 * 1000u64;
    let eligible = repo.frontier.retryable(SID, now + seventy_days_ms + 1_000_000, 10);
    assert_eq!(eligible.len(), 1);
    assert_eq!(eligible[0].status, UrlStatus::Exhausted);
    assert_eq!(eligible[0].retry_count, 5);
}

#[test]
fn scenario_reaper_resets_stale_claims() {
    let mut repo = CrawlRepository::new();
    assert!(repo.frontier.add(SID, URL, DiscoveryMethod::Seed, None, "{}".to_string(), 0, 1000));
    let claim = repo.frontier.claim(Some(SID), 2000).unwrap();
    assert_eq!(claim.claimed_at, Some(2000));

    // before the TTL the claim stands
    repo.frontier.reap(2500, 1000);
    let state = repo.frontier.crawl_state(SID);
    assert_eq!(state.urls_pending, 1);
    assert!(repo.frontier.claim(Some(SID), 2500).is_none());

    // past the TTL the row is claimable again
    repo.frontier.reap(3000, 1000);
    let reclaimed = repo.frontier.claim(Some(SID), 3100).unwrap();
    assert_eq!(reclaimed.status, UrlStatus::Fetching);
}

#[test]
fn claim_prefers_shallow_then_oldest() {
    let mut repo = CrawlRepository::new();
    assert!(repo.frontier.add(SID, "https://example.org/deep", DiscoveryMethod::HtmlLink, Some(URL.to_string()), "{}".to_string(), 2, 1000));
    assert!(repo.frontier.add(SID, "https://example.org/late", DiscoveryMethod::Seed, None, "{}".to_string(), 0, 3000));
    assert!(repo.frontier.add(SID, "https://example.org/early", DiscoveryMethod::Seed, None, "{}".to_string(), 0, 2000));

    let first = repo.frontier.claim(None, 5000).unwrap();
    assert_eq!(first.url, "https://example.org/early");
    let second = repo.frontier.claim(None, 5000).unwrap();
    assert_eq!(second.url, "https://example.org/late");
    let third = repo.frontier.claim(None, 5000).unwrap();
    assert_eq!(third.url, "https://example.org/deep");
    assert!(repo.frontier.claim(None, 5000).is_none());
}

#[test]
fn claim_n_takes_distinct_rows() {
    let mut repo = CrawlRepository::new();
    for i in 0..4 {
        let url = format!("https://example.org/p{}", i);
        assert!(repo.frontier.add(SID, &url, DiscoveryMethod::Pagination, None, "{}".to_string(), 1, 1000 + i));
    }
    let claims = repo.frontier.claim_n(Some(SID), 5000, 3);
    assert_eq!(claims.len(), 3);
    for c in &claims {
        assert_eq!(c.status, UrlStatus::Fetching);
    }
    assert!(claims[0].url != claims[1].url);
    assert!(claims[1].url != claims[2].url);
    let rest = repo.frontier.claim_n(Some(SID), 5000, 3);
    assert_eq!(rest.len(), 1);
}

#[test]
fn client_error_is_recorded_with_status() {
    let mut repo = CrawlRepository::new();
    let mut store = DocStore::new();
    assert!(repo.frontier.add(SID, URL, DiscoveryMethod::Seed, None, "{}".to_string(), 0, 1000));
    let outcome = run_fetch(&mut repo, &mut store, Some(404), b"", None, 2000);
    match outcome {
        FetchOutcome::ClientError { status } => assert_eq!(status, 404),
        _ => panic!("a 404 is a client error"),
    }
    let state = repo.frontier.crawl_state(SID);
    assert_eq!(state.urls_failed, 1);
    // the failure message names the status
    let eligible = repo.frontier.retryable(SID, 3000, 10);
    assert_eq!(eligible[0].last_error.as_deref(), Some("HTTP 404"));
    assert_eq!(eligible[0].next_retry_at, None);
}

#[test]
fn rate_limited_outcome_schedules_retry() {
    let mut repo = CrawlRepository::new();
    let mut store = DocStore::new();
    assert!(repo.frontier.add(SID, URL, DiscoveryMethod::Seed, None, "{}".to_string(), 0, 1000));
    let claim = repo.frontier.claim(Some(SID), 2000).unwrap();
    assert_eq!(claim.url, URL);
    let (outcome, put) = handle_response(
        &mut repo,
        &mut store,
        SID,
        URL,
        "A page",
        Some(429),
        b"",
        None,
        None,
        Some(5000),
        "",
        "text/html",
        2000,
        policy(),
    );
    assert!(matches!(outcome, FetchOutcome::RateLimited { .. }));
    assert!(put.is_none());
    let eligible = repo.frontier.retryable(SID, 7001, 10);
    assert_eq!(eligible.len(), 1);
    assert_eq!(eligible[0].next_retry_at, Some(7000));
    assert_eq!(eligible[0].last_error.as_deref(), Some("rate limited"));
    // before the scheduled time the row is not eligible
    assert!(repo.frontier.retryable(SID, 6999, 10).is_empty());
}

#[test]
fn transport_error_keeps_audit_consistent() {
    let mut repo = CrawlRepository::new();
    let mut store = DocStore::new();
    assert!(repo.frontier.add(SID, URL, DiscoveryMethod::Seed, None, "{}".to_string(), 0, 1000));
    let outcome = run_fetch(&mut repo, &mut store, None, b"", None, 2000);
    assert!(matches!(outcome, FetchOutcome::TransientError { .. }));
    let row = repo.log.get_last_request(SID, URL).unwrap();
    assert_eq!(row.response_status, None);
    assert!(row.error.is_some());
    assert!(!row.was_not_modified);
}

#[test]
fn bulk_rollup_covers_every_source() {
    let mut repo = CrawlRepository::new();
    assert!(repo.frontier.add("alpha", "https://a.example/x", DiscoveryMethod::Seed, None, "{}".to_string(), 0, 1000));
    assert!(repo.frontier.add("alpha", "https://a.example/y", DiscoveryMethod::Seed, None, "{}".to_string(), 0, 1100));
    assert!(repo.frontier.add("beta", "https://b.example/z", DiscoveryMethod::Seed, None, "{}".to_string(), 0, 1200));

    let ids = repo.frontier.source_ids();
    assert_eq!(ids, vec!["alpha".to_string(), "beta".to_string()]);

    let states = repo.frontier.all_crawl_states();
    assert_eq!(states.len(), 2);
    assert_eq!(states[0].0, "alpha");
    assert_eq!(states[0].1.urls_discovered, 2);
    assert_eq!(states[1].0, "beta");
    assert_eq!(states[1].1.urls_pending, 1);
}

#[test]
fn refresh_picks_stale_fetched_rows() {
    let mut repo = CrawlRepository::new();
    let mut store = DocStore::new();
    assert!(repo.frontier.add(SID, URL, DiscoveryMethod::Seed, None, "{}".to_string(), 0, 1000));
    run_fetch(&mut repo, &mut store, Some(200), b"hello", None, 2000);

    // fetched at 2000: stale against a later cutoff, fresh against an earlier one
    assert_eq!(repo.frontier.needing_refresh(SID, 5000, 10).len(), 1);
    assert!(repo.frontier.needing_refresh(SID, 2000, 10).is_empty());
    assert!(repo.frontier.needing_refresh("other", 5000, 10).is_empty());
}

#[test]
fn refresh_returns_stalest_first() {
    let mut repo = CrawlRepository::new();
    let mut store = DocStore::new();
    let newer = "https://example.org/newer";
    let older = "https://example.org/older";
    assert!(repo.frontier.add(SID, newer, DiscoveryMethod::Seed, None, "{}".to_string(), 0, 1000));
    assert!(repo.frontier.add(SID, older, DiscoveryMethod::Seed, None, "{}".to_string(), 0, 1100));
    // claim order makes `newer` fetched later
    let first = repo.frontier.claim(Some(SID), 1500).unwrap();
    assert_eq!(first.url, newer);
    repo.frontier.record_result(
        SID,
        newer,
        &foiacquire::fetcher::FetchOutcome::NotModified { new_etag: None, new_last_modified: None },
        9000,
        policy(),
    );
    let second = repo.frontier.claim(Some(SID), 1600).unwrap();
    assert_eq!(second.url, older);
    repo.frontier.record_result(
        SID,
        older,
        &foiacquire::fetcher::FetchOutcome::NotModified { new_etag: None, new_last_modified: None },
        3000,
        policy(),
    );
    let _ = &mut store;

    let due = repo.frontier.needing_refresh(SID, 10_000, 10);
    assert_eq!(due.len(), 2);
    assert_eq!(due[0].url, older, "stalest fetch comes first");
    assert_eq!(due[1].url, newer);
    // a limit of one keeps only the stalest
    let one = repo.frontier.needing_refresh(SID, 10_000, 1);
    assert_eq!(one.len(), 1);
    assert_eq!(one[0].url, older);
}

#[test]
fn add_pins_lineage_and_context() {
    let mut repo = CrawlRepository::new();
    let child = "https://example.org/child";
    assert!(repo.frontier.add(
        SID,
        child,
        DiscoveryMethod::HtmlLink,
        Some(URL.to_string()),
        "{\"page\":2}".to_string(),
        1,
        1000
    ));
    let row = &repo.frontier.entries[0];
    assert_eq!(row.parent_url.as_deref(), Some(URL));
    assert_eq!(row.discovery_context, "{\"page\":2}");
    assert_eq!(row.depth, 1);

    // the context survives a rename and a claim/record round trip
    repo.rename_source(SID, "renamed");
    let claim = repo.frontier.claim(Some("renamed"), 2000).unwrap();
    assert_eq!(claim.discovery_context, "{\"page\":2}");
    repo.frontier.record_result(
        "renamed",
        child,
        &foiacquire::fetcher::FetchOutcome::TransientError { reason: "flaky".to_string() },
        3000,
        policy(),
    );
    assert_eq!(repo.frontier.entries[0].discovery_context, "{\"page\":2}");
    assert_eq!(repo.frontier.entries[0].parent_url.as_deref(), Some(URL));
}

#[test]
fn rename_cascades_to_every_record() {
    let mut repo = CrawlRepository::new();
    let mut store = DocStore::new();
    repo.store_config_hash(SID, b"{}");
    assert!(repo.frontier.add(SID, URL, DiscoveryMethod::Seed, None, "{}".to_string(), 0, 1000));
    run_fetch(&mut repo, &mut store, Some(200), b"hello", None, 2000);

    repo.rename_source(SID, "renamed");
    store.rename_source(SID, "renamed");

    assert_eq!(repo.frontier.entries[0].source_id, "renamed");
    assert_eq!(store.documents[0].source_id, "renamed");
    let (changed, _) = repo.check_config_changed("renamed", b"{}");
    assert!(!changed, "the config hash follows the rename");
    let state = repo.frontier.crawl_state("renamed");
    assert_eq!(state.urls_fetched, 1);
    // the audit log keeps its historical rows under the old name
    assert_eq!(repo.log.rows[0].source_id, SID);
}

#[test]
fn request_stats_roll_up() {
    let mut repo = CrawlRepository::new();
    let mut store = DocStore::new();
    assert!(repo.frontier.add(SID, URL, DiscoveryMethod::Seed, None, "{}".to_string(), 0, 1000));
    run_fetch(&mut repo, &mut store, Some(200), b"hello", Some("v1"), 2000);
    assert!(repo.frontier.mark_for_refresh(SID, URL));
    run_fetch(&mut repo, &mut store, Some(304), b"", None, 3000);
    assert!(repo.frontier.mark_for_refresh(SID, URL));
    run_fetch(&mut repo, &mut store, Some(500), b"", None, 4000);

    let stats = repo.log.request_stats(SID);
    assert_eq!(stats.total_requests, 3);
    assert_eq!(stats.success_200, 1);
    assert_eq!(stats.not_modified_304, 1);
    assert_eq!(stats.errors, 1);
    assert_eq!(stats.conditional_requests, 2);
    assert_eq!(stats.avg_duration_ms, 5);
    assert_eq!(stats.total_bytes, 5);
    // an unrelated source has empty statistics
    let empty = repo.log.request_stats("other");
    assert_eq!(empty.total_requests, 0);
    assert_eq!(empty.avg_duration_ms, 0);
}

#[test]
fn crawl_state_counts_unexplored_branches() {
    let mut repo = CrawlRepository::new();
    let mut store = DocStore::new();
    let parent = "https://example.org/list";
    assert!(repo.frontier.add(SID, parent, DiscoveryMethod::HtmlLink, None, "{}".to_string(), 1, 1000));
    let claim = repo.frontier.claim(Some(SID), 2000).unwrap();
    assert_eq!(claim.url, parent);
    handle_response(
        &mut repo,
        &mut store,
        SID,
        parent,
        "List",
        Some(200),
        b"list",
        None,
        None,
        None,
        "",
        "text/html",
        2000,
        policy(),
    );
    // a fetched link-derived row with no children is an unexplored branch
    let state = repo.frontier.crawl_state(SID);
    assert!(state.has_unexplored_branches);

    // a child naming it as parent settles the branch
    assert!(repo.frontier.add(
        SID,
        "https://example.org/item",
        DiscoveryMethod::HtmlLink,
        Some(parent.to_string()),
        "{}".to_string(),
        2,
        3000
    ));
    let state = repo.frontier.crawl_state(SID);
    assert!(!state.has_unexplored_branches);
    assert!(state.has_pending_urls);
    assert_eq!(state.last_crawl_started, Some(1000));
    assert_eq!(state.oldest_pending_url, Some(3000));
}
