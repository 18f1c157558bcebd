//! Per-source scraper configuration and the configurable scraper that
//! carries it, together with the browser engine settings it compiles
//! down to.  The HTTP client and any browser process live outside.

use vstd::prelude::*;

use crate::limiter::RateLimiter;

verus! {

/// Configuration of one source's scraper, as the core reads it; the
/// discovery strategies consume the rest of the file elsewhere.
#[derive(Debug, Default)]
pub struct ScraperConfig {
    /// Refresh TTL override for this source, in days.
    pub refresh_ttl_days: Option<u64>,
    /// User agent override for this source.
    pub user_agent: Option<String>,
    /// Browser configuration, when the source needs a real browser.
    pub browser: Option<BrowserConfig>,
    /// Privacy override tag for this source.
    pub privacy: Option<String>,
}

/// Browser settings of one source.
#[derive(Debug)]
pub struct BrowserConfig {
    /// Whether the browser is used at all.
    pub enabled: bool,
    /// Engine name; matched case-insensitively.
    pub engine: String,
    /// Whether the browser runs headless.
    pub headless: bool,
    /// Proxy URL, if any.
    pub proxy: Option<String>,
    /// Cookie jar file, if any.
    pub cookies_file: Option<String>,
    /// Navigation timeout in seconds.
    pub timeout: u64,
    /// CSS selector to wait for before reading the page.
    pub wait_for_selector: Option<String>,
    /// Remote-endpoint selection strategy tag.
    pub selection: Option<String>,
    /// Remote browser endpoints; overrides `remote_url`.
    pub urls: Vec<String>,
    /// Single remote browser endpoint.
    pub remote_url: Option<String>,
}

impl Default for BrowserConfig {
    /// A disabled browser with an empty engine name (which parses to
    /// the stealth engine) and a 30 second timeout.
    fn default() -> (r: Self)
        ensures
            !r.enabled,
            r.engine@.len() == 0,
            r.headless,
            r.proxy is None,
            r.cookies_file is None,
            r.timeout == 30,
            r.wait_for_selector is None,
            r.selection is None,
            r.urls@.len() == 0,
            r.remote_url is None,
    {
        BrowserConfig {
            enabled: false,
            engine: String::new(),
            headless: true,
            proxy: Option::None,
            cookies_file: Option::None,
            timeout: 30,
            wait_for_selector: Option::None,
            selection: Option::None,
            urls: Vec::new(),
            remote_url: Option::None,
        }
    }
}

/// The browser engines a source can ask for.
#[derive(Clone, Copy, Debug, PartialEq, Eq, Structural)]
pub enum BrowserEngineType {
    /// Hardened engine that evades bot detection.
    Stealth,
    /// Engine that persists cookies.
    Cookies,
    /// Plain engine.
    Standard,
}

/// The engine a name selects, compared case-insensitively; unknown
/// names select the stealth engine.
pub open spec fn spec_engine_of(name: Seq<char>) -> BrowserEngineType {
    if spec_lower(name) == "cookies"@ {
        BrowserEngineType::Cookies
    } else if spec_lower(name) == "standard"@ {
        BrowserEngineType::Standard
    } else {
        BrowserEngineType::Stealth
    }
}

/// ASCII lowercase of a character sequence.
pub open spec fn spec_lower(s: Seq<char>) -> Seq<char> {
    s.map_values(|c: char| spec_lower_char(c))
}

/// ASCII lowercase of one character.
pub open spec fn spec_lower_char(c: char) -> char {
    if 'A' <= c <= 'Z' {
        ((c as u32) + 32) as char
    } else {
        c
    }
}

/// Lowercase one ASCII letter.
fn lower_char(c: char) -> (r: char)
    ensures
        r == spec_lower_char(c),
{
    if 'A' <= c && c <= 'Z' {
        proof {
            vstd::utf8::char_is_scalar(c);
        }
        (((c as u32) + 32) as u8) as char
    } else {
        c
    }
}

/// Compiled browser engine configuration handed to the engine.
#[derive(Debug)]
pub struct BrowserEngineConfig {
    /// Which engine to run.
    pub engine: BrowserEngineType,
    /// Whether to run headless.
    pub headless: bool,
    /// Proxy URL, if any.
    pub proxy: Option<String>,
    /// Cookie jar file, if any.
    pub cookies_file: Option<String>,
    /// Navigation timeout in seconds.
    pub timeout: u64,
    /// CSS selector to wait for.
    pub wait_for_selector: Option<String>,
    /// Extra engine arguments.
    pub chrome_args: Vec<String>,
    /// Single remote endpoint.
    pub remote_url: Option<String>,
    /// Remote endpoints, when several are configured.
    pub remote_urls: Vec<String>,
    /// Endpoint selection strategy tag.
    pub selection: Option<String>,
}

impl BrowserConfig {
    /// Compile the per-source browser settings into an engine
    /// configuration.  The engine name is matched case-insensitively
    /// with stealth as the fallback; configured endpoint URLs override
    /// a single remote URL.  Environment-variable fallbacks for remote
    /// endpoints are the caller's to overlay.
    pub fn to_engine_config(&self) -> (r: BrowserEngineConfig)
        ensures
            r.engine == spec_engine_of(self.engine@),
            r.headless == self.headless,
            r.proxy == self.proxy,
            r.cookies_file == self.cookies_file,
            r.timeout == self.timeout,
            r.wait_for_selector == self.wait_for_selector,
            r.chrome_args@.len() == 0,
            r.selection == self.selection,
            self.urls@.len() > 0 ==> r.remote_url is None && r.remote_urls@ == self.urls@,
            self.urls@.len() == 0 ==> r.remote_urls@.len() == 0 && r.remote_url == self.remote_url,
    {
        let lowered = lower_string(self.engine.as_str());
        proof {
            reveal_strlit("cookies");
            reveal_strlit("standard");
        }
        let engine = if crate::text::str_eq(lowered.as_str(), "cookies") {
            BrowserEngineType::Cookies
        } else if crate::text::str_eq(lowered.as_str(), "standard") {
            BrowserEngineType::Standard
        } else {
            BrowserEngineType::Stealth
        };
        let (remote_url, remote_urls) = if self.urls.len() > 0 {
            (Option::None, clone_strings(&self.urls))
        } else {
            (self.remote_url.clone(), Vec::new())
        };
        BrowserEngineConfig {
            engine,
            headless: self.headless,
            proxy: self.proxy.clone(),
            cookies_file: self.cookies_file.clone(),
            timeout: self.timeout,
            wait_for_selector: self.wait_for_selector.clone(),
            chrome_args: Vec::new(),
            remote_url,
            remote_urls,
            selection: self.selection.clone(),
        }
    }
}

/// ASCII-lowercase a string.
fn lower_string(s: &str) -> (r: String)
    ensures
        r@ == spec_lower(s@),
{
    let n = s.unicode_len();
    let mut r = String::new();
    let mut i: usize = 0;
    while i < n
        invariant
            0 <= i <= n,
            n == s@.len(),
            r@ =~= spec_lower(s@).take(i as int),
        decreases n - i,
    {
        let c = lower_char(s.get_char(i));
        crate::text::push_char(&mut r, c);
        proof {
            assert(r@ =~= spec_lower(s@).take(i + 1));
        }
        i = i + 1;
    }
    proof {
        assert(r@ =~= spec_lower(s@));
    }
    r
}

/// Clone a list of strings, element for element.
pub fn clone_strings(v: &Vec<String>) -> (r: Vec<String>)
    ensures
        r@ == v@,
{
    let n = v.len();
    let mut r: Vec<String> = Vec::new();
    let mut i: usize = 0;
    while i < n
        invariant
            0 <= i <= n,
            r@ =~= v@.take(i as int),
        decreases n - i,
    {
        r.push(v[i].clone());
        proof {
            assert(r@ =~= v@.take(i + 1));
        }
        i = i + 1;
    }
    proof {
        assert(v@.take(n as int) =~= v@);
    }
    r
}

/// A configured content source.
#[derive(Debug)]
pub struct Source {
    /// Identity, referenced by every other record.
    pub id: String,
    /// Kind tag of the source.
    pub source_type: String,
    /// Display name.
    pub name: String,
    /// Base URL the source is crawled from.
    pub base_url: String,
    /// Opaque metadata, in its encoded form.
    pub metadata: String,
    /// Creation time (epoch milliseconds).
    pub created_at: u64,
    /// When the source was last scraped.
    pub last_scraped: Option<u64>,
}

impl Clone for Source {
    fn clone(&self) -> (r: Self)
        ensures
            r == *self,
    {
        Source {
            id: self.id.clone(),
            source_type: self.source_type.clone(),
            name: self.name.clone(),
            base_url: self.base_url.clone(),
            metadata: self.metadata.clone(),
            created_at: self.created_at,
            last_scraped: self.last_scraped,
        }
    }
}

/// The configured sources, unique by identity.
pub struct SourceRegistry {
    /// All sources, in insertion order.
    pub sources: Vec<Source>,
}

impl SourceRegistry {
    /// Identities are unique.
    pub open spec fn wf(self) -> bool {
        forall|i: int, j: int|
            0 <= i < j < self.sources@.len() ==> (#[trigger] self.sources@[i]).id@ != (
            #[trigger] self.sources@[j]).id@
    }

    /// Index of the source with an identity, if any.
    pub open spec fn spec_find(self, id: Seq<char>) -> Option<int> {
        if exists|i: int| 0 <= i < self.sources@.len() && (#[trigger] self.sources@[i]).id@ == id {
            Option::Some(choose|i: int|
                0 <= i < self.sources@.len() && (#[trigger] self.sources@[i]).id@ == id)
        } else {
            Option::None
        }
    }

    /// An empty registry.
    pub fn new() -> (r: Self)
        ensures
            r.wf(),
            r.sources@.len() == 0,
    {
        SourceRegistry { sources: Vec::new() }
    }

    /// Index of the source with this identity.
    fn find(&self, id: &str) -> (r: Option<usize>)
        requires
            self.wf(),
        ensures
            r matches Some(i) ==> self.spec_find(id@) == Option::Some(i as int),
            r is None ==> self.spec_find(id@) is None,
    {
        let n = self.sources.len();
        let mut i: usize = 0;
        while i < n
            invariant
                0 <= i <= n,
                forall|j: int| 0 <= j < i ==> (#[trigger] self.sources@[j]).id@ != id@,
            decreases n - i,
        {
            if crate::text::str_eq(self.sources[i].id.as_str(), id) {
                proof {
                    let w = choose|k: int|
                        0 <= k < self.sources@.len() && (#[trigger] self.sources@[k]).id@ == id@;
                    if w != i {
                        assert(self.sources@[if w < i {
                            w
                        } else {
                            i as int
                        }].id@ != self.sources@[if w < i {
                            i as int
                        } else {
                            w
                        }].id@);
                    }
                }
                return Option::Some(i);
            }
            i = i + 1;
        }
        Option::None
    }

    /// Whether a source with this identity is configured.
    pub fn has_id(&self, id: &str) -> (r: bool)
        requires
            self.wf(),
        ensures
            r == (self.spec_find(id@) is Some),
    {
        self.find(id).is_some()
    }

    /// The source with this identity, if any.
    pub fn get(&self, id: &str) -> (r: Option<Source>)
        requires
            self.wf(),
        ensures
            r is Some <==> self.spec_find(id@) is Some,
            r matches Some(src) ==> (self.spec_find(id@) matches Some(i) && src
                == self.sources@[i]),
    {
        match self.find(id) {
            Option::Some(i) => Option::Some(self.sources[i].clone()),
            Option::None => Option::None,
        }
    }

    /// Insert a source, or replace the one with the same identity.
    pub fn save(&mut self, source: Source)
        requires
            old(self).wf(),
        ensures
            final(self).wf(),
            (final(self).spec_find(source.id@) matches Some(i) && final(self).sources@[i]
                == source),
            old(self).spec_find(source.id@) is None ==> final(self).sources@ == old(
                self).sources@.push(source),
            old(self).spec_find(source.id@) matches Some(i) ==> final(self).sources@ == old(
                self).sources@.update(i, source),
    {
        let found = self.find(source.id.as_str());
        match found {
            Option::Some(i) => {
                let ghost pre = *self;
                let slot = &mut self.sources[i];
                *slot = source;
                proof {
                    assert(self.sources@ =~= pre.sources@.update(i as int,
                        self.sources@[i as int]));
                    assert forall|a: int, b: int| 0 <= a < b < self.sources@.len() implies (
                    #[trigger] self.sources@[a]).id@ != (#[trigger] self.sources@[b]).id@ by {
                        assert(pre.sources@[a].id@ != pre.sources@[b].id@);
                    }
                    assert(self.spec_find(self.sources@[i as int].id@) == Option::Some(
                        i as int)) by {
                        let w = choose|k: int|
                            0 <= k < self.sources@.len() && (#[trigger] self.sources@[k]).id@
                                == self.sources@[i as int].id@;
                        if w != i {
                            assert(self.sources@[if w < i {
                                w
                            } else {
                                i as int
                            }].id@ != self.sources@[if w < i {
                                i as int
                            } else {
                                w
                            }].id@);
                        }
                    }
                }
            },
            Option::None => {
                let ghost pre = *self;
                self.sources.push(source);
                proof {
                    let n = pre.sources@.len() as int;
                    assert forall|a: int, b: int| 0 <= a < b < self.sources@.len() implies (
                    #[trigger] self.sources@[a]).id@ != (#[trigger] self.sources@[b]).id@ by {
                        if b < n {
                            assert(pre.sources@[a].id@ != pre.sources@[b].id@);
                        } else {
                            assert(pre.sources@[a].id@ != self.sources@[n].id@);
                        }
                    }
                    assert(self.spec_find(self.sources@[n].id@) == Option::Some(n)) by {
                        let w = choose|k: int|
                            0 <= k < self.sources@.len() && (#[trigger] self.sources@[k]).id@
                                == self.sources@[n].id@;
                        if w != n {
                            assert(self.sources@[w].id@ != self.sources@[n].id@);
                        }
                    }
                }
            },
        }
    }

    /// Remove the source with this identity; says whether one was there.
    pub fn delete(&mut self, id: &str) -> (removed: bool)
        requires
            old(self).wf(),
        ensures
            final(self).wf(),
            removed == (old(self).spec_find(id@) is Some),
            !removed ==> *final(self) == *old(self),
            removed ==> (old(self).spec_find(id@) matches Some(i) && final(self).sources@ == old(
                self).sources@.remove(i)),
    {
        let found = self.find(id);
        match found {
            Option::Some(i) => {
                let ghost pre = *self;
                self.sources.remove(i);
                proof {
                    assert forall|a: int, b: int| 0 <= a < b < self.sources@.len() implies (
                    #[trigger] self.sources@[a]).id@ != (#[trigger] self.sources@[b]).id@ by {
                        let pa = if a < i as int {
                            a
                        } else {
                            a + 1
                        };
                        let pb = if b < i as int {
                            b
                        } else {
                            b + 1
                        };
                        assert(self.sources@[a] == pre.sources@[pa]);
                        assert(self.sources@[b] == pre.sources@[pb]);
                        assert(pre.sources@[pa].id@ != pre.sources@[pb].id@);
                    }
                }
                true
            },
            Option::None => false,
        }
    }

    /// Stamp the time a source was last scraped.
    pub fn update_last_scraped(&mut self, id: &str, now_ms: u64) -> (found: bool)
        requires
            old(self).wf(),
        ensures
            final(self).wf(),
            found == (old(self).spec_find(id@) is Some),
            !found ==> *final(self) == *old(self),
            found ==> (old(self).spec_find(id@) matches Some(i) && final(self).sources@ == old(
                self).sources@.update(i, final(self).sources@[i]) && final(self).sources@[i] == (
            Source { last_scraped: Option::Some(now_ms), ..old(self).sources@[i] })),
    {
        let found = self.find(id);
        match found {
            Option::Some(i) => {
                let ghost pre = *self;
                let slot = &mut self.sources[i];
                slot.last_scraped = Option::Some(now_ms);
                proof {
                    assert(self.sources@ =~= pre.sources@.update(i as int,
                        self.sources@[i as int]));
                    assert forall|a: int, b: int| 0 <= a < b < self.sources@.len() implies (
                    #[trigger] self.sources@[a]).id@ != (#[trigger] self.sources@[b]).id@ by {
                        assert(pre.sources@[a].id@ != pre.sources@[b].id@);
                    }
                }
                true
            },
            Option::None => false,
        }
    }

    /// Every configured source, in insertion order.
    pub fn get_all(&self) -> (r: Vec<Source>)
        ensures
            r@ == self.sources@,
    {
        let n = self.sources.len();
        let mut r: Vec<Source> = Vec::new();
        let mut i: usize = 0;
        while i < n
            invariant
                0 <= i <= n,
                r@ =~= self.sources@.take(i as int),
            decreases n - i,
        {
            r.push(self.sources[i].clone());
            proof {
                assert(r@ =~= self.sources@.take(i + 1));
            }
            i = i + 1;
        }
        proof {
            assert(self.sources@.take(n as int) =~= self.sources@);
        }
        r
    }
}

/// A scraper driven entirely by configuration.
pub struct ConfigurableScraper {
    /// The source this scraper crawls.
    pub source: Source,
    /// Its configuration.
    pub config: ScraperConfig,
    /// Delay between requests, in milliseconds.
    pub request_delay_ms: u64,
    /// Refresh TTL in days: fetched URLs older than this are re-checked.
    pub refresh_ttl_days: u64,
    /// Shared rate limiter, when one is used.
    pub rate_limiter: Option<RateLimiter>,
    /// Effective privacy tag after per-source overrides.
    pub privacy: Option<String>,
    /// Compiled browser configuration, when the browser is enabled.
    pub browser_config: Option<BrowserEngineConfig>,
}

impl ConfigurableScraper {
    /// A scraper with no shared rate limiter and no privacy routing.
    pub fn new(
        source: Source,
        config: ScraperConfig,
        request_delay_ms: u64,
        refresh_ttl_days: u64,
    ) -> (r: Self)
        ensures
            spec_scraper_built(r, request_delay_ms, refresh_ttl_days),
            r.source == source,
            r.config == config,
            r.rate_limiter is None,
            r.privacy is None,
    {
        Self::with_rate_limiter(source, config, request_delay_ms, refresh_ttl_days, Option::None)
    }

    /// A scraper sharing a rate limiter, with no privacy routing.
    pub fn with_rate_limiter(
        source: Source,
        config: ScraperConfig,
        request_delay_ms: u64,
        refresh_ttl_days: u64,
        rate_limiter: Option<RateLimiter>,
    ) -> (r: Self)
        ensures
            spec_scraper_built(r, request_delay_ms, refresh_ttl_days),
            r.source == source,
            r.config == config,
            r.rate_limiter is Some <==> rate_limiter is Some,
            r.privacy is None,
    {
        match Self::with_rate_limiter_and_privacy(
            source,
            config,
            request_delay_ms,
            refresh_ttl_days,
            rate_limiter,
            Option::None,
        ) {
            Result::Ok(r) => r,
            Result::Err(_) => vstd::pervasive::unreached(),
        }
    }

    /// A scraper with a shared rate limiter and privacy routing.  The
    /// effective privacy is the per-source override when the config has
    /// one, else the global tag; whether the selected route is actually
    /// available is checked where the route is opened.
    pub fn with_rate_limiter_and_privacy(
        source: Source,
        config: ScraperConfig,
        request_delay_ms: u64,
        refresh_ttl_days: u64,
        rate_limiter: Option<RateLimiter>,
        privacy_config: Option<&String>,
    ) -> (r: Result<Self, String>)
        ensures
            r is Ok,
            spec_scraper_built(r->Ok_0, request_delay_ms, refresh_ttl_days),
            (r->Ok_0).source == source,
            (r->Ok_0).config == config,
            (r->Ok_0).rate_limiter is Some <==> rate_limiter is Some,
            privacy_config is None ==> (r->Ok_0).privacy is None,
            privacy_config matches Some(g) ==> (r->Ok_0).privacy == Option::Some(
                match config.privacy {
                    Option::Some(ref p) => *p,
                    Option::None => *g,
                },
            ),
    {
        let privacy = match privacy_config {
            Option::None => Option::None,
            Option::Some(g) => match &config.privacy {
                Option::Some(p) => Option::Some(p.clone()),
                Option::None => Option::Some(g.clone()),
            },
        };
        let browser_config = match &config.browser {
            Option::Some(b) => if b.enabled {
                Option::Some(b.to_engine_config())
            } else {
                Option::None
            },
            Option::None => Option::None,
        };
        Result::Ok(
            ConfigurableScraper {
                source,
                config,
                request_delay_ms,
                refresh_ttl_days,
                rate_limiter,
                privacy,
                browser_config,
            },
        )
    }

    /// Whether this scraper drives a real browser.
    pub fn uses_browser(&self) -> (r: bool)
        ensures
            r == (self.browser_config is Some),
    {
        self.browser_config.is_some()
    }
}

/// What every constructor establishes: the browser configuration is
/// compiled exactly when the config enables the browser, and the
/// numbers are stored as given.
pub open spec fn spec_scraper_built(
    r: ConfigurableScraper,
    request_delay_ms: u64,
    refresh_ttl_days: u64,
) -> bool {
    &&& r.request_delay_ms == request_delay_ms
    &&& r.refresh_ttl_days == refresh_ttl_days
    &&& (r.browser_config is Some <==> (r.config.browser matches Some(b) && b.enabled))
}

} // verus!
