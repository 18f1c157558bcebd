//! Status enums for frontier rows and documents, and the frontier's
//! allowed state transitions.

use vstd::prelude::*;

use crate::text::str_eq;

verus! {

/// Crawl status of one frontier row.
#[derive(Clone, Copy, Debug, PartialEq, Eq, Structural)]
pub enum UrlStatus {
    Discovered,
    Fetching,
    Fetched,
    Failed,
    Exhausted,
}

impl UrlStatus {
    /// The tag stored in the durable row for this status.
    pub fn as_str(&self) -> (r: &'static str)
        ensures
            r@ == self.spec_str(),
    {
        match self {
            UrlStatus::Discovered => "discovered",
            UrlStatus::Fetching => "fetching",
            UrlStatus::Fetched => "fetched",
            UrlStatus::Failed => "failed",
            UrlStatus::Exhausted => "exhausted",
        }
    }

    /// The stored tag, as a character sequence.
    pub open spec fn spec_str(self) -> Seq<char> {
        match self {
            UrlStatus::Discovered => "discovered"@,
            UrlStatus::Fetching => "fetching"@,
            UrlStatus::Fetched => "fetched"@,
            UrlStatus::Failed => "failed"@,
            UrlStatus::Exhausted => "exhausted"@,
        }
    }

    /// Parses a stored tag; unknown tags yield `None`.
    pub fn from_str(s: &str) -> (r: Option<UrlStatus>)
        ensures
            r is Some ==> r->0.spec_str() == s@ && r->0 == spec_parse_status(s@),
            r is None ==> (forall|st: UrlStatus| st.spec_str() != s@) && spec_parse_status(s@)
                == UrlStatus::Discovered,
    {
        proof {
            reveal_strlit("discovered");
            reveal_strlit("fetching");
            reveal_strlit("fetched");
            reveal_strlit("failed");
            reveal_strlit("exhausted");
            assert("discovered"@.len() == 10);
            assert("fetching"@.len() == 8);
            assert("fetched"@.len() == 7);
            assert("failed"@.len() == 6);
            assert("exhausted"@.len() == 9);
        }
        if str_eq(s, "discovered") {
            proof {
                assert(spec_parse_status(s@) == UrlStatus::Discovered);
            }
            Some(UrlStatus::Discovered)
        } else if str_eq(s, "fetching") {
            proof {
                assert(spec_parse_status(s@) == UrlStatus::Fetching);
            }
            Some(UrlStatus::Fetching)
        } else if str_eq(s, "fetched") {
            proof {
                assert(spec_parse_status(s@) == UrlStatus::Fetched);
            }
            Some(UrlStatus::Fetched)
        } else if str_eq(s, "failed") {
            proof {
                assert(spec_parse_status(s@) == UrlStatus::Failed);
            }
            Some(UrlStatus::Failed)
        } else if str_eq(s, "exhausted") {
            proof {
                assert(spec_parse_status(s@) == UrlStatus::Exhausted);
            }
            Some(UrlStatus::Exhausted)
        } else {
            assert(forall|st: UrlStatus| st.spec_str() != s@) by {
                assert(UrlStatus::Discovered.spec_str() != s@);
                assert(UrlStatus::Fetching.spec_str() != s@);
                assert(UrlStatus::Fetched.spec_str() != s@);
                assert(UrlStatus::Failed.spec_str() != s@);
                assert(UrlStatus::Exhausted.spec_str() != s@);
            }
            None
        }
    }

    /// Pending means the row still awaits a fetch or is being fetched.
    pub open spec fn is_pending(self) -> bool {
        self == UrlStatus::Discovered || self == UrlStatus::Fetching
    }
}

/// How a stored status tag decodes, Discovered being the fallback.
pub open spec fn spec_parse_status(s: Seq<char>) -> UrlStatus {
    if s == "fetching"@ {
        UrlStatus::Fetching
    } else if s == "fetched"@ {
        UrlStatus::Fetched
    } else if s == "failed"@ {
        UrlStatus::Failed
    } else if s == "exhausted"@ {
        UrlStatus::Exhausted
    } else {
        UrlStatus::Discovered
    }
}

/// How a stored discovery tag decodes, Seed being the fallback.
pub open spec fn spec_parse_method(s: Seq<char>) -> DiscoveryMethod {
    if s == "html_link"@ {
        DiscoveryMethod::HtmlLink
    } else if s == "pagination"@ {
        DiscoveryMethod::Pagination
    } else if s == "api_result"@ {
        DiscoveryMethod::ApiResult
    } else {
        DiscoveryMethod::Seed
    }
}

/// The edges of the frontier state machine.  `refresh` may flip any
/// settled row back to Discovered, a claim takes Discovered to Fetching,
/// and recording an outcome takes Fetching to one of the settled states.
pub open spec fn allowed_transition(from: UrlStatus, to: UrlStatus) -> bool {
    ||| (from == UrlStatus::Discovered && to == UrlStatus::Fetching)
    ||| (from == UrlStatus::Fetching && (to == UrlStatus::Fetched || to == UrlStatus::Failed
        || to == UrlStatus::Exhausted || to == UrlStatus::Discovered))
    ||| (from == UrlStatus::Failed && (to == UrlStatus::Fetching || to == UrlStatus::Discovered
        || to == UrlStatus::Exhausted))
    ||| (from == UrlStatus::Exhausted && to == UrlStatus::Discovered)
    ||| (from == UrlStatus::Fetched && to == UrlStatus::Discovered)
    ||| from == to
}

/// How a URL was discovered.
#[derive(Clone, Copy, Debug, PartialEq, Eq, Structural)]
pub enum DiscoveryMethod {
    Seed,
    HtmlLink,
    Pagination,
    ApiResult,
}

impl DiscoveryMethod {
    /// The tag stored in the durable row for this method.
    pub fn as_str(&self) -> (r: &'static str)
        ensures
            r@ == self.spec_str(),
    {
        match self {
            DiscoveryMethod::Seed => "seed",
            DiscoveryMethod::HtmlLink => "html_link",
            DiscoveryMethod::Pagination => "pagination",
            DiscoveryMethod::ApiResult => "api_result",
        }
    }

    /// The stored tag, as a character sequence.
    pub open spec fn spec_str(self) -> Seq<char> {
        match self {
            DiscoveryMethod::Seed => "seed"@,
            DiscoveryMethod::HtmlLink => "html_link"@,
            DiscoveryMethod::Pagination => "pagination"@,
            DiscoveryMethod::ApiResult => "api_result"@,
        }
    }

    /// Parses a stored tag; unknown tags yield `None`.
    pub fn from_str(s: &str) -> (r: Option<DiscoveryMethod>)
        ensures
            r is Some ==> r->0.spec_str() == s@ && r->0 == spec_parse_method(s@),
            r is None ==> (forall|m: DiscoveryMethod| m.spec_str() != s@) && spec_parse_method(s@)
                == DiscoveryMethod::Seed,
    {
        proof {
            reveal_strlit("seed");
            reveal_strlit("html_link");
            reveal_strlit("pagination");
            reveal_strlit("api_result");
            assert("seed"@.len() == 4);
            assert("html_link"@.len() == 9);
            assert("pagination"@.len() == 10);
            assert("api_result"@.len() == 10);
            assert("pagination"@[0] == 'p');
            assert("api_result"@[0] == 'a');
        }
        if str_eq(s, "seed") {
            proof {
                assert(spec_parse_method(s@) == DiscoveryMethod::Seed);
            }
            Some(DiscoveryMethod::Seed)
        } else if str_eq(s, "html_link") {
            proof {
                assert(spec_parse_method(s@) == DiscoveryMethod::HtmlLink);
            }
            Some(DiscoveryMethod::HtmlLink)
        } else if str_eq(s, "pagination") {
            proof {
                assert(spec_parse_method(s@) == DiscoveryMethod::Pagination);
            }
            Some(DiscoveryMethod::Pagination)
        } else if str_eq(s, "api_result") {
            proof {
                assert(spec_parse_method(s@) == DiscoveryMethod::ApiResult);
            }
            Some(DiscoveryMethod::ApiResult)
        } else {
            assert(forall|m: DiscoveryMethod| m.spec_str() != s@) by {
                assert(DiscoveryMethod::Seed.spec_str() != s@);
                assert(DiscoveryMethod::HtmlLink.spec_str() != s@);
                assert(DiscoveryMethod::Pagination.spec_str() != s@);
                assert(DiscoveryMethod::ApiResult.spec_str() != s@);
            }
            None
        }
    }

    /// Methods that mark a row as a branch that may still hide children.
    pub open spec fn spec_is_branching(self) -> bool {
        self == DiscoveryMethod::HtmlLink || self == DiscoveryMethod::Pagination || self
            == DiscoveryMethod::ApiResult
    }

    /// True for the discovery methods that can have unexplored children.
    pub fn is_branching(&self) -> (r: bool)
        ensures
            r == self.spec_is_branching(),
    {
        match self {
            DiscoveryMethod::HtmlLink => true,
            DiscoveryMethod::Pagination => true,
            DiscoveryMethod::ApiResult => true,
            DiscoveryMethod::Seed => false,
        }
    }
}

/// Processing status of a stored document.
#[derive(Clone, Copy, Debug, PartialEq, Eq, Structural)]
pub enum DocumentStatus {
    Pending,
    Downloaded,
    OcrComplete,
    Indexed,
    Failed,
}

impl DocumentStatus {
    /// The tag stored in the durable row for this status.
    pub fn as_str(&self) -> (r: &'static str)
        ensures
            r@ == self.spec_str(),
    {
        match self {
            DocumentStatus::Pending => "pending",
            DocumentStatus::Downloaded => "downloaded",
            DocumentStatus::OcrComplete => "ocr_complete",
            DocumentStatus::Indexed => "indexed",
            DocumentStatus::Failed => "failed",
        }
    }

    /// The stored tag, as a character sequence.
    pub open spec fn spec_str(self) -> Seq<char> {
        match self {
            DocumentStatus::Pending => "pending"@,
            DocumentStatus::Downloaded => "downloaded"@,
            DocumentStatus::OcrComplete => "ocr_complete"@,
            DocumentStatus::Indexed => "indexed"@,
            DocumentStatus::Failed => "failed"@,
        }
    }

    /// Parses a stored tag; unknown tags yield `None`.
    pub fn from_str(s: &str) -> (r: Option<DocumentStatus>)
        ensures
            r is Some ==> r->0.spec_str() == s@,
    {
        proof {
            reveal_strlit("pending");
            reveal_strlit("downloaded");
            reveal_strlit("ocr_complete");
            reveal_strlit("indexed");
            reveal_strlit("failed");
        }
        if str_eq(s, "pending") {
            Some(DocumentStatus::Pending)
        } else if str_eq(s, "downloaded") {
            Some(DocumentStatus::Downloaded)
        } else if str_eq(s, "ocr_complete") {
            Some(DocumentStatus::OcrComplete)
        } else if str_eq(s, "indexed") {
            Some(DocumentStatus::Indexed)
        } else if str_eq(s, "failed") {
            Some(DocumentStatus::Failed)
        } else {
            None
        }
    }
}

} // verus!
