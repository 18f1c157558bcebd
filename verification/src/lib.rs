//! Core engine of a politeness-aware, restartable web crawler.
//!
//! The crate models and verifies the four subsystems at the heart of the
//! crawler: the crawl frontier with its atomic claim protocol, the adaptive
//! per-domain rate limiter, the conditional HTTP fetch classification with
//! its request audit log, and the content-addressed versioned document
//! store.  Durable persistence, network and file I/O live outside; the
//! functions here are the decision logic those edges drive.

#![verifier::loop_isolation(false)]

pub mod audit;
pub mod backoff;
pub mod confighist;
pub mod docstore;
pub mod fetcher;
pub mod frontier;
pub mod hashing;
pub mod ident;
pub mod jsonval;
pub mod limiter;
pub mod naming;
pub mod orchestrator;
pub mod repo;
pub mod scraper;
pub mod server;
pub mod settings;
pub mod status;
pub mod text;
