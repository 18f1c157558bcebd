//! Application settings and the configuration file that overrides them.
//!
//! Paths are carried as plain strings; reading configuration files and
//! the platform's directories happens outside, which hands the values
//! in here to be resolved and applied.

use vstd::prelude::*;

use crate::scraper::ScraperConfig;
use crate::text::str_eq;

verus! {

/// Default refresh TTL in days.
pub const DEFAULT_REFRESH_TTL_DAYS: u64 = 14;

/// Application settings.
#[derive(Debug)]
pub struct Settings {
    /// Base data directory.
    pub data_dir: String,
    /// Database filename inside the data directory.
    pub database_filename: String,
    /// Directory for storing documents.
    pub documents_dir: String,
    /// User agent for HTTP requests.
    pub user_agent: String,
    /// Request timeout in seconds.
    pub request_timeout: u64,
    /// Delay between requests in milliseconds.
    pub request_delay_ms: u64,
    /// Rate limit backend selector; absent means in-memory.
    pub rate_limit_backend: Option<String>,
    /// Worker queue broker; absent means the embedded store.
    pub broker_url: Option<String>,
}

impl Settings {
    /// Settings rooted at a custom data directory, with the stock
    /// defaults for everything else.
    pub fn with_data_dir(data_dir: String) -> (r: Self)
        ensures
            r.data_dir == data_dir,
            r.documents_dir@ == data_dir@ + "/documents"@,
            r.database_filename@ == "foiacquire.db"@,
            r.user_agent@ == "FOIAcquire/0.1 (academic research)"@,
            r.request_timeout == 30,
            r.request_delay_ms == 500,
            r.rate_limit_backend is None,
            r.broker_url is None,
    {
        let mut documents_dir = data_dir.clone();
        documents_dir.append("/documents");
        Settings {
            documents_dir,
            data_dir,
            database_filename: "foiacquire.db".to_owned(),
            user_agent: "FOIAcquire/0.1 (academic research)".to_owned(),
            request_timeout: 30,
            request_delay_ms: 500,
            rate_limit_backend: Option::None,
            broker_url: Option::None,
        }
    }

    /// The full path of the database file.
    pub fn database_path(&self) -> (r: String)
        ensures
            r@ == self.data_dir@ + "/"@ + self.database_filename@,
    {
        let mut r = self.data_dir.clone();
        r.append("/");
        r.append(self.database_filename.as_str());
        r
    }
}

/// The configuration file's contents: every field optionally overrides
/// a setting.
#[derive(Debug, Default)]
pub struct Config {
    /// Target data directory.
    pub target: Option<String>,
    /// Database filename.
    pub database: Option<String>,
    /// User agent string.
    pub user_agent: Option<String>,
    /// Request timeout in seconds.
    pub request_timeout: Option<u64>,
    /// Delay between requests in milliseconds.
    pub request_delay_ms: Option<u64>,
    /// Rate limit backend selector.
    pub rate_limit_backend: Option<String>,
    /// Worker queue broker.
    pub broker_url: Option<String>,
    /// Default refresh TTL in days for re-checking fetched URLs.
    pub default_refresh_ttl_days: Option<u64>,
    /// Per-source scraper configurations.
    pub scrapers: Vec<(String, ScraperConfig)>,
    /// Path of the file this configuration came from.
    pub source_path: Option<String>,
}

impl Config {
    /// The directory that relative paths resolve against: the config
    /// file's directory, when the path of the file is known and has
    /// one.
    pub fn base_dir(&self) -> (r: Option<String>)
        ensures
            self.source_path is None ==> r is None,
            self.source_path matches Some(p) ==> ({
                match crate::naming::spec_last_index(p@, '/', p@.len() as int) {
                    Option::Some(i) => r matches Some(d) && d@ == p@.take(i),
                    Option::None => r is None,
                }
            }),
    {
        match &self.source_path {
            Option::None => Option::None,
            Option::Some(p) => {
                let n = p.as_str().unicode_len();
                let mut i: usize = n;
                while i > 0
                    invariant
                        0 <= i <= n,
                        n == p@.len(),
                        crate::naming::spec_last_index(p@, '/', n as int)
                            == crate::naming::spec_last_index(p@, '/', i as int),
                    decreases i,
                {
                    i = i - 1;
                    if p.as_str().get_char(i) == '/' {
                        return Option::Some(p.as_str().substring_char(0, i).to_owned());
                    }
                }
                Option::None
            },
        }
    }

    /// Resolve a path against a base directory: an absolute path stands
    /// as it is, a relative one is joined to the base.  A leading tilde
    /// is expanded to the home directory first; what it expands to
    /// depends on the environment, so only tilde-free paths are pinned
    /// down here.
    pub fn resolve_path(&self, path_str: &str, base_dir: &str) -> (r: String)
        ensures
            (path_str@.len() == 0 || path_str@[0] != '~') ==> r@ == spec_resolved(path_str@,
                base_dir@),
    {
        let expanded = tilde_expand(path_str);
        if crate::text::starts_with_char(expanded.as_str(), '/') {
            expanded
        } else {
            let mut r = base_dir.to_owned();
            r.append("/");
            r.append(expanded.as_str());
            r
        }
    }

    /// Apply the file's overrides to the settings.  Only fields the
    /// file sets change; a new target directory moves the documents
    /// directory along with it.
    pub fn apply_to_settings(&self, settings: &mut Settings, base_dir: &str)
        ensures
            self.target is None ==> final(settings).data_dir == old(settings).data_dir && final(
                settings).documents_dir == old(settings).documents_dir,
            self.target matches Some(t) ==> final(settings).documents_dir@ == final(
                settings).data_dir@ + "/documents"@,
            self.target matches Some(t) ==> ((t@.len() == 0 || t@[0] != '~') ==> final(
                settings).data_dir@ == spec_resolved(t@, base_dir@)),
            final(settings).database_filename == (match self.database {
                Option::Some(ref d) => *d,
                Option::None => old(settings).database_filename,
            }),
            final(settings).user_agent == (match self.user_agent {
                Option::Some(ref u) => *u,
                Option::None => old(settings).user_agent,
            }),
            final(settings).request_timeout == (match self.request_timeout {
                Option::Some(t) => t,
                Option::None => old(settings).request_timeout,
            }),
            final(settings).request_delay_ms == (match self.request_delay_ms {
                Option::Some(d) => d,
                Option::None => old(settings).request_delay_ms,
            }),
            final(settings).rate_limit_backend == (match self.rate_limit_backend {
                Option::Some(ref b) => Option::Some(*b),
                Option::None => old(settings).rate_limit_backend,
            }),
            final(settings).broker_url == (match self.broker_url {
                Option::Some(ref b) => Option::Some(*b),
                Option::None => old(settings).broker_url,
            }),
    {
        match &self.target {
            Option::Some(target) => {
                settings.data_dir = self.resolve_path(target.as_str(), base_dir);
                let mut docs = settings.data_dir.clone();
                docs.append("/documents");
                settings.documents_dir = docs;
            },
            Option::None => {
            },
        }
        match &self.database {
            Option::Some(database) => {
                settings.database_filename = database.clone();
            },
            Option::None => {
            },
        }
        match &self.user_agent {
            Option::Some(user_agent) => {
                settings.user_agent = user_agent.clone();
            },
            Option::None => {
            },
        }
        match self.request_timeout {
            Option::Some(timeout) => {
                settings.request_timeout = timeout;
            },
            Option::None => {
            },
        }
        match self.request_delay_ms {
            Option::Some(delay) => {
                settings.request_delay_ms = delay;
            },
            Option::None => {
            },
        }
        match &self.rate_limit_backend {
            Option::Some(backend) => {
                settings.rate_limit_backend = Option::Some(backend.clone());
            },
            Option::None => {
            },
        }
        match &self.broker_url {
            Option::Some(broker) => {
                settings.broker_url = Option::Some(broker.clone());
            },
            Option::None => {
            },
        }
    }

    /// The scraper config stored for a source, if any (first match).
    pub open spec fn spec_scraper_of(self, sid: Seq<char>) -> Option<ScraperConfig> {
        spec_scraper_in(self.scrapers@, sid)
    }

    /// The effective refresh TTL in days for one source: the scraper's
    /// own value first, then the global default, then the stock
    /// default.
    pub fn get_refresh_ttl_days(&self, source_id: &str) -> (r: u64)
        ensures
            r == (match self.spec_scraper_of(source_id@) {
                Option::Some(sc) => match sc.refresh_ttl_days {
                    Option::Some(ttl) => ttl,
                    Option::None => match self.default_refresh_ttl_days {
                        Option::Some(d) => d,
                        Option::None => DEFAULT_REFRESH_TTL_DAYS,
                    },
                },
                Option::None => match self.default_refresh_ttl_days {
                    Option::Some(d) => d,
                    Option::None => DEFAULT_REFRESH_TTL_DAYS,
                },
            }),
    {
        let n = self.scrapers.len();
        let mut i: usize = 0;
        proof {
            assert(self.scrapers@.skip(0) =~= self.scrapers@);
        }
        while i < n
            invariant
                0 <= i <= n,
                spec_scraper_in(self.scrapers@.skip(i as int), source_id@) == self.spec_scraper_of(
                    source_id@),
            decreases n - i,
        {
            proof {
                assert(self.scrapers@.skip(i as int)[0] == self.scrapers@[i as int]);
                assert(self.scrapers@.skip(i as int).drop_first() =~= self.scrapers@.skip(i + 1));
            }
            if str_eq(self.scrapers[i].0.as_str(), source_id) {
                match self.scrapers[i].1.refresh_ttl_days {
                    Option::Some(ttl) => {
                        return ttl;
                    },
                    Option::None => {
                        return match self.default_refresh_ttl_days {
                            Option::Some(d) => d,
                            Option::None => DEFAULT_REFRESH_TTL_DAYS,
                        };
                    },
                }
            }
            i = i + 1;
        }
        proof {
            assert(self.scrapers@.skip(n as int) =~= Seq::<(String, ScraperConfig)>::empty());
        }
        match self.default_refresh_ttl_days {
            Option::Some(d) => d,
            Option::None => DEFAULT_REFRESH_TTL_DAYS,
        }
    }
}

/// First scraper config for a source in a list.
pub open spec fn spec_scraper_in(s: Seq<(String, ScraperConfig)>, sid: Seq<char>) -> Option<
    ScraperConfig,
>
    decreases s.len(),
{
    if s.len() == 0 {
        Option::None
    } else if s[0].0@ == sid {
        Option::Some(s[0].1)
    } else {
        spec_scraper_in(s.drop_first(), sid)
    }
}

/// A resolved path: kept as it is when absolute, joined to the base
/// directory otherwise.
pub open spec fn spec_resolved(path: Seq<char>, base_dir: Seq<char>) -> Seq<char> {
    if path.len() > 0 && path[0] == '/' {
        path
    } else {
        base_dir + "/"@ + path
    }
}

/// Relies on shellexpand's `tilde`: an input that does not begin with a
/// tilde is returned unchanged; a leading tilde is replaced by the home
/// directory, which depends on the environment.
#[verifier::external_body]
pub fn tilde_expand(path: &str) -> (r: String)
    ensures
        (path@.len() == 0 || path@[0] != '~') ==> r@ == path@,
{
    shellexpand::tilde(path).into_owned()
}

/// Options for loading settings.
#[derive(Debug, Default)]
pub struct LoadOptions {
    /// Explicit config file path, overriding discovery.
    pub config_path: Option<String>,
    /// Resolve relative paths against the working directory instead of
    /// the config file's directory.
    pub use_cwd: bool,
    /// Data directory override.
    pub data_dir: Option<String>,
}

} // verus!
