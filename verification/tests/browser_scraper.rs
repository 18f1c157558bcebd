//! Browser configuration compilation and the configurable scraper.

use foiacquire::scraper::{
    BrowserConfig, BrowserEngineType, ConfigurableScraper, ScraperConfig, Source, SourceRegistry,
};

fn sample_source() -> Source {
    Source {
        id: "example".to_string(),
        source_type: "custom".to_string(),
        name: "Example".to_string(),
        base_url: "https://example.org".to_string(),
        metadata: "{}".to_string(),
        created_at: 0,
        last_scraped: None,
    }
}

#[test]
fn test_browser_config_to_engine_config() {
    let config = BrowserConfig {
        enabled: true,
        engine: "stealth".to_string(),
        headless: false,
        proxy: Some("socks5://127.0.0.1:1080".to_string()),
        timeout: 60,
        wait_for_selector: Some("#content".to_string()),
        ..Default::default()
    };

    let engine_config = config.to_engine_config();
    assert!(matches!(engine_config.engine, BrowserEngineType::Stealth));
    assert!(!engine_config.headless);
    assert_eq!(
        engine_config.proxy,
        Some("socks5://127.0.0.1:1080".to_string())
    );
    assert_eq!(engine_config.timeout, 60);
}

#[test]
fn test_browser_engine_type_parsing() {
    let stealth = BrowserConfig {
        engine: "stealth".to_string(),
        ..Default::default()
    };
    assert!(matches!(
        stealth.to_engine_config().engine,
        BrowserEngineType::Stealth
    ));

    let cookies = BrowserConfig {
        engine: "cookies".to_string(),
        ..Default::default()
    };
    assert!(matches!(
        cookies.to_engine_config().engine,
        BrowserEngineType::Cookies
    ));

    let standard = BrowserConfig {
        engine: "standard".to_string(),
        ..Default::default()
    };
    assert!(matches!(
        standard.to_engine_config().engine,
        BrowserEngineType::Standard
    ));

    // Unknown defaults to Stealth
    let unknown = BrowserConfig {
        engine: "unknown".to_string(),
        ..Default::default()
    };
    assert!(matches!(
        unknown.to_engine_config().engine,
        BrowserEngineType::Stealth
    ));
}

#[test]
fn test_engine_name_case_insensitive() {
    let upper = BrowserConfig {
        engine: "COOKIES".to_string(),
        ..Default::default()
    };
    assert!(matches!(
        upper.to_engine_config().engine,
        BrowserEngineType::Cookies
    ));
}

#[test]
fn test_engine_urls_override_remote_url() {
    let config = BrowserConfig {
        urls: vec!["ws://a".to_string(), "ws://b".to_string()],
        remote_url: Some("ws://single".to_string()),
        ..Default::default()
    };
    let compiled = config.to_engine_config();
    assert_eq!(compiled.remote_url, None);
    assert_eq!(compiled.remote_urls, vec!["ws://a".to_string(), "ws://b".to_string()]);

    let single = BrowserConfig {
        remote_url: Some("ws://single".to_string()),
        ..Default::default()
    };
    let compiled = single.to_engine_config();
    assert_eq!(compiled.remote_url, Some("ws://single".to_string()));
    assert!(compiled.remote_urls.is_empty());
}

#[test]
fn source_registry_crud() {
    let mut registry = SourceRegistry::new();
    assert!(!registry.has_id("example"));
    registry.save(sample_source());
    assert!(registry.has_id("example"));
    let got = registry.get("example").unwrap();
    assert_eq!(got.name, "Example");
    assert_eq!(got.last_scraped, None);

    // saving again replaces, keeping one row per identity
    let mut renamed = sample_source();
    renamed.name = "Example v2".to_string();
    registry.save(renamed);
    assert_eq!(registry.get_all().len(), 1);
    assert_eq!(registry.get("example").unwrap().name, "Example v2");

    assert!(registry.update_last_scraped("example", 5000));
    assert_eq!(registry.get("example").unwrap().last_scraped, Some(5000));
    assert!(!registry.update_last_scraped("missing", 5000));

    assert!(registry.delete("example"));
    assert!(!registry.delete("example"));
    assert!(registry.get_all().is_empty());
}

#[test]
fn test_configurable_scraper_browser_gate() {
    let config = ScraperConfig {
        browser: Some(BrowserConfig {
            enabled: true,
            engine: "standard".to_string(),
            ..Default::default()
        }),
        ..Default::default()
    };
    let scraper = ConfigurableScraper::new(sample_source(), config, 500, 14);
    assert!(scraper.uses_browser());
    assert_eq!(scraper.request_delay_ms, 500);
    assert_eq!(scraper.refresh_ttl_days, 14);
    // the given source and config are the ones the scraper carries
    assert_eq!(scraper.source.id, "example");
    assert_eq!(scraper.source.base_url, "https://example.org");
    assert!(scraper.config.browser.is_some());

    let disabled = ScraperConfig {
        browser: Some(BrowserConfig {
            enabled: false,
            ..Default::default()
        }),
        ..Default::default()
    };
    let scraper = ConfigurableScraper::new(sample_source(), disabled, 500, 14);
    assert!(!scraper.uses_browser());

    let with_privacy = ConfigurableScraper::with_rate_limiter_and_privacy(
        sample_source(),
        ScraperConfig::default(),
        500,
        14,
        None,
        Some(&"tor".to_string()),
    )
    .expect("construction is infallible");
    assert_eq!(with_privacy.privacy, Some("tor".to_string()));
}
