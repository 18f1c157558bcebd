//! Settings resolution, limiter persistence and configuration history.

use foiacquire::confighist::ConfigHistoryRepository;
use foiacquire::jsonval::DbConfigLoader;
use foiacquire::limiter::RateLimiter;
use foiacquire::scraper::ScraperConfig;
use foiacquire::settings::{Config, LoadOptions, Settings};
use foiacquire::repo::CrawlUrlRow;
use foiacquire::status::{DiscoveryMethod, DocumentStatus, UrlStatus};

#[test]
fn settings_paths_derive_from_data_dir() {
    let settings = Settings::with_data_dir("/data/foia".to_string());
    assert_eq!(settings.documents_dir, "/data/foia/documents");
    assert_eq!(settings.database_filename, "foiacquire.db");
    assert_eq!(settings.database_path(), "/data/foia/foiacquire.db");
    assert_eq!(settings.request_timeout, 30);
    assert_eq!(settings.request_delay_ms, 500);
}

#[test]
fn config_overrides_apply() {
    let mut settings = Settings::with_data_dir("/default".to_string());
    let config = Config {
        target: Some("store".to_string()),
        database: Some("crawl.db".to_string()),
        user_agent: Some("TestAgent/1.0".to_string()),
        request_timeout: Some(10),
        request_delay_ms: Some(250),
        ..Default::default()
    };
    config.apply_to_settings(&mut settings, "/etc/crawler");
    assert_eq!(settings.data_dir, "/etc/crawler/store");
    assert_eq!(settings.documents_dir, "/etc/crawler/store/documents");
    assert_eq!(settings.database_filename, "crawl.db");
    assert_eq!(settings.user_agent, "TestAgent/1.0");
    assert_eq!(settings.request_timeout, 10);
    assert_eq!(settings.request_delay_ms, 250);

    // an absolute target stands as it is
    let absolute = Config { target: Some("/abs/path".to_string()), ..Default::default() };
    absolute.apply_to_settings(&mut settings, "/etc/crawler");
    assert_eq!(settings.data_dir, "/abs/path");
}

#[test]
fn refresh_ttl_prefers_scraper_then_global() {
    let mut config = Config::default();
    assert_eq!(config.get_refresh_ttl_days("any"), 14);
    config.default_refresh_ttl_days = Some(30);
    assert_eq!(config.get_refresh_ttl_days("any"), 30);
    config.scrapers.push((
        "special".to_string(),
        ScraperConfig { refresh_ttl_days: Some(7), ..Default::default() },
    ));
    assert_eq!(config.get_refresh_ttl_days("special"), 7);
    assert_eq!(config.get_refresh_ttl_days("other"), 30);
}

#[test]
fn base_dir_is_the_config_files_directory() {
    let with_dir = Config {
        source_path: Some("/etc/crawler/config.json".to_string()),
        ..Default::default()
    };
    assert_eq!(with_dir.base_dir(), Some("/etc/crawler".to_string()));
    let bare = Config { source_path: Some("config.json".to_string()), ..Default::default() };
    assert_eq!(bare.base_dir(), None);
    assert_eq!(Config::default().base_dir(), None);
    let options = LoadOptions::default();
    assert!(!options.use_cwd);
}

#[test]
fn limiter_persistence_keeps_pressured_domains() {
    let mut limiter = RateLimiter::new(500);
    limiter.acquire("calm.org", 1000);
    limiter.on_rate_limited("pressured.org", None);
    let rows = limiter.rows_to_save();
    assert_eq!(rows.len(), 1);
    assert_eq!(rows[0].0, "pressured.org");
    assert_eq!(rows[0].1, 1000); // 500 doubled
    assert!(rows[0].2);

    let (mut restored, count) = RateLimiter::restore_from_rows(500, rows);
    assert_eq!(count, 1);
    let state = restored.get_or_create_domain("pressured.org", 500);
    assert_eq!(state.current_delay_ms, 1000);
    assert!(state.in_backoff);
    assert_eq!(state.last_request_at, None); // a fresh epoch after restart
    assert_eq!(state.consecutive_successes, 0);
}

#[test]
fn limiter_recovers_after_successes() {
    let mut limiter = RateLimiter::new(500);
    limiter.on_rate_limited("example.org", None); // delay 1000, backoff
    for _ in 0..3 {
        limiter.on_success("example.org");
    }
    let state = limiter.get_or_create_domain("example.org", 500);
    assert_eq!(state.current_delay_ms, 500); // halved back to base
    assert!(!state.in_backoff);
}

#[test]
fn config_history_dedups_and_prunes() {
    let mut history = ConfigHistoryRepository::new();
    assert!(history.insert_if_new("{\"a\":1}", "json", "hash-a", 1000));
    assert!(!history.insert_if_new("{\"a\":1}", "json", "hash-a", 2000));
    assert!(history.insert_if_new("{\"a\":2}", "json", "hash-b", 3000));
    assert!(history.hash_exists("hash-a"));
    assert!(!history.hash_exists("hash-c"));
    let latest = history.get_latest().unwrap();
    assert_eq!(latest.hash, "hash-b");
    assert_eq!(latest.data, "{\"a\":2}");
    assert_eq!(history.get_latest_hash(), Some("hash-b".to_string()));
    assert_eq!(history.get_all().len(), 2);

    // the history never holds more than its cap; the oldest entry goes
    for i in 0..20u64 {
        history.insert_if_new(&format!("{{\"n\":{}}}", i), "json", &format!("hash-{}", i), 4000 + i);
    }
    assert!(history.entries.len() <= 16);
    assert!(!history.hash_exists("hash-a"));
    assert_eq!(history.get_latest().unwrap().hash, "hash-19");

    let loader = DbConfigLoader::new("/data/foia/foiacquire.db");
    assert_eq!(loader.db_path, "/data/foia/foiacquire.db");
}

#[test]
fn status_tags_round_trip() {
    for status in [
        UrlStatus::Discovered,
        UrlStatus::Fetching,
        UrlStatus::Fetched,
        UrlStatus::Failed,
        UrlStatus::Exhausted,
    ] {
        assert_eq!(UrlStatus::from_str(status.as_str()), Some(status));
    }
    assert_eq!(UrlStatus::from_str("nonsense"), None);
    for method in [
        DiscoveryMethod::Seed,
        DiscoveryMethod::HtmlLink,
        DiscoveryMethod::Pagination,
        DiscoveryMethod::ApiResult,
    ] {
        assert_eq!(DiscoveryMethod::from_str(method.as_str()), Some(method));
    }
    for status in [
        DocumentStatus::Pending,
        DocumentStatus::Downloaded,
        DocumentStatus::OcrComplete,
        DocumentStatus::Indexed,
        DocumentStatus::Failed,
    ] {
        assert_eq!(DocumentStatus::from_str(status.as_str()), Some(status));
    }
}

#[test]
fn stored_rows_decode_with_fallbacks() {
    let row = CrawlUrlRow {
        id: 1,
        url: "https://example.org/a".to_string(),
        source_id: "example".to_string(),
        status: "fetched".to_string(),
        discovery_method: "mystery".to_string(),
        parent_url: None,
        discovery_context: "{}".to_string(),
        depth: -3,
        discovered_at: 1000,
        fetched_at: Some(2000),
        claimed_at: None,
        retry_count: 2,
        last_error: None,
        next_retry_at: Some(-5),
        etag: Some("v1".to_string()),
        last_modified: None,
        content_hash: None,
        document_id: None,
    };
    let entry = row.into_entry();
    assert_eq!(entry.status, UrlStatus::Fetched);
    assert_eq!(entry.discovery_method, DiscoveryMethod::Seed); // unknown tag
    assert_eq!(entry.depth, 0); // negative clamps
    assert_eq!(entry.retry_count, 2);
    assert_eq!(entry.next_retry_at, Some(0));
    assert_eq!(entry.etag.as_deref(), Some("v1"));
}
