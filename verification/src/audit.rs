//! The request audit log: one append-only row per HTTP attempt.

use vstd::prelude::*;

verus! {

/// One audited HTTP attempt.
#[derive(Debug)]
pub struct CrawlRequestEntry {
    /// Source the attempt was made for.
    pub source_id: String,
    /// URL requested.
    pub url: String,
    /// HTTP method.
    pub method: String,
    /// Request headers sent, in their encoded form.
    pub request_headers: String,
    /// When the request started (epoch milliseconds).
    pub request_at: u64,
    /// Response status; absent iff the transport failed.
    pub response_status: Option<u16>,
    /// Response headers received, in their encoded form.
    pub response_headers: String,
    /// When the response arrived.
    pub response_at: Option<u64>,
    /// Response body size in bytes.
    pub response_size: Option<u64>,
    /// Wall-clock duration measured by the client.
    pub duration_ms: Option<u64>,
    /// Transport error message, present iff no status came back.
    pub error: Option<String>,
    /// Whether the request carried `If-None-Match` or
    /// `If-Modified-Since`.
    pub was_conditional: bool,
    /// Whether the response was a 304.
    pub was_not_modified: bool,
}

impl Clone for CrawlRequestEntry {
    fn clone(&self) -> (r: Self)
        ensures
            r == *self,
    {
        CrawlRequestEntry {
            source_id: self.source_id.clone(),
            url: self.url.clone(),
            method: self.method.clone(),
            request_headers: self.request_headers.clone(),
            request_at: self.request_at,
            response_status: self.response_status,
            response_headers: self.response_headers.clone(),
            response_at: self.response_at,
            response_size: self.response_size,
            duration_ms: self.duration_ms,
            error: self.error.clone(),
            was_conditional: self.was_conditional,
            was_not_modified: self.was_not_modified,
        }
    }
}

/// A header sequence carries a conditional-request header.
pub open spec fn spec_has_conditional_header(hs: Seq<(String, String)>) -> bool {
    exists|i: int|
        0 <= i < hs.len() && ((#[trigger] hs[i]).0@ == "If-None-Match"@ || hs[i].0@
            == "If-Modified-Since"@)
}

impl CrawlRequestEntry {
    /// Row invariant: `was_not_modified` reflects the status, and a
    /// missing status means a transport error.
    pub open spec fn row_wf(self) -> bool {
        &&& self.was_not_modified == (self.response_status == Option::Some(304u16))
        &&& (self.response_status is None <==> self.error is Some)
    }
}

/// Whether a header list carries a conditional-request header.
pub fn has_conditional_header(headers: &Vec<(String, String)>) -> (r: bool)
    ensures
        r == spec_has_conditional_header(headers@),
{
    proof {
        reveal_strlit("If-None-Match");
        reveal_strlit("If-Modified-Since");
    }
    let n = headers.len();
    let mut i: usize = 0;
    while i < n
        invariant
            0 <= i <= n,
            forall|j: int|
                0 <= j < i ==> !((#[trigger] headers@[j]).0@ == "If-None-Match"@ || headers@[j].0@
                    == "If-Modified-Since"@),
        decreases n - i,
    {
        let h = &headers[i];
        if crate::text::str_eq(h.0.as_str(), "If-None-Match") || crate::text::str_eq(
            h.0.as_str(),
            "If-Modified-Since",
        ) {
            return true;
        }
        i = i + 1;
    }
    false
}

/// Build one audit row from a fetch attempt.  The conditional flag is
/// computed from the headers that were sent, the not-modified flag from
/// the status; the encoded header strings are stored verbatim.
pub fn make_request_record(
    source_id: &str,
    url: &str,
    method: &str,
    headers: &Vec<(String, String)>,
    encoded_request_headers: String,
    request_at: u64,
    response_status: Option<u16>,
    encoded_response_headers: String,
    response_at: Option<u64>,
    response_size: Option<u64>,
    duration_ms: Option<u64>,
    error: Option<String>,
) -> (r: CrawlRequestEntry)
    requires
        response_status is None <==> error is Some,
    ensures
        r.row_wf(),
        r.source_id@ == source_id@,
        r.url@ == url@,
        r.method@ == method@,
        r.request_headers == encoded_request_headers,
        r.request_at == request_at,
        r.response_status == response_status,
        r.response_headers == encoded_response_headers,
        r.response_at == response_at,
        r.response_size == response_size,
        r.duration_ms == duration_ms,
        r.error == error,
        r.was_conditional == spec_has_conditional_header(headers@),
        r.was_not_modified == (response_status == Option::Some(304u16)),
{
    let was_conditional = has_conditional_header(headers);
    let was_not_modified = match response_status {
        Option::Some(s) => s == 304,
        Option::None => false,
    };
    CrawlRequestEntry {
        source_id: source_id.to_owned(),
        url: url.to_owned(),
        method: method.to_owned(),
        request_headers: encoded_request_headers,
        request_at,
        response_status,
        response_headers: encoded_response_headers,
        response_at,
        response_size,
        duration_ms,
        error,
        was_conditional,
        was_not_modified,
    }
}

/// The append-only audit log.
pub struct AuditLog {
    /// All rows, oldest first.
    pub rows: Vec<CrawlRequestEntry>,
}

/// Per-source request statistics.
#[derive(Debug)]
pub struct RequestStats {
    /// All audited attempts.
    pub total_requests: u64,
    /// Responses with status 200.
    pub success_200: u64,
    /// Responses with status 304.
    pub not_modified_304: u64,
    /// Responses with a status of 400 or above.
    pub errors: u64,
    /// Attempts that sent a conditional request.
    pub conditional_requests: u64,
    /// Mean duration over the attempts that measured one, rounded down.
    pub avg_duration_ms: u64,
    /// Bytes received in all responses.
    pub total_bytes: u64,
}

/// Sum of the recorded response sizes of a source's rows.
pub open spec fn spec_sum_bytes(rows: Seq<CrawlRequestEntry>, sid: Seq<char>) -> int
    decreases rows.len(),
{
    if rows.len() == 0 {
        0
    } else {
        spec_sum_bytes(rows.drop_last(), sid) + if rows.last().source_id@ == sid {
            match rows.last().response_size {
                Option::Some(b) => b as int,
                Option::None => 0,
            }
        } else {
            0
        }
    }
}

/// Sum of the recorded durations of a source's rows.
pub open spec fn spec_sum_duration(rows: Seq<CrawlRequestEntry>, sid: Seq<char>) -> int
    decreases rows.len(),
{
    if rows.len() == 0 {
        0
    } else {
        spec_sum_duration(rows.drop_last(), sid) + if rows.last().source_id@ == sid {
            match rows.last().duration_ms {
                Option::Some(d) => d as int,
                Option::None => 0,
            }
        } else {
            0
        }
    }
}

impl AuditLog {
    /// Every row satisfies the row invariant.
    pub open spec fn wf(self) -> bool {
        forall|i: int| 0 <= i < self.rows@.len() ==> (#[trigger] self.rows@[i]).row_wf()
    }

    /// An empty log.
    pub fn new() -> (r: Self)
        ensures
            r.wf(),
            r.rows@.len() == 0,
    {
        AuditLog { rows: Vec::new() }
    }

    /// Append one attempt to the log and return its position.  The log
    /// is append-only: everything already recorded stays as it is.
    pub fn log_request(&mut self, row: CrawlRequestEntry) -> (id: usize)
        requires
            old(self).wf(),
            row.row_wf(),
        ensures
            final(self).wf(),
            final(self).rows@ == old(self).rows@.push(row),
            id == old(self).rows@.len(),
            final(self).rows@.subrange(0, old(self).rows@.len() as int) == old(self).rows@,
    {
        let id = self.rows.len();
        self.rows.push(row);
        proof {
            assert(self.rows@.subrange(0, old(self).rows@.len() as int) =~= old(self).rows@);
        }
        id
    }

    /// Index of the most recent attempt for a URL, if any.
    pub open spec fn spec_last_request_index(self, sid: Seq<char>, url: Seq<char>) -> Option<int> {
        if exists|i: int|
            0 <= i < self.rows@.len() && (#[trigger] self.rows@[i]).source_id@ == sid
                && self.rows@[i].url@ == url {
            Option::Some(choose|i: int|
                0 <= i < self.rows@.len() && (#[trigger] self.rows@[i]).source_id@ == sid
                    && self.rows@[i].url@ == url && forall|j: int|
                    i < j < self.rows@.len() ==> !((#[trigger] self.rows@[j]).source_id@ == sid
                        && self.rows@[j].url@ == url))
        } else {
            Option::None
        }
    }

    /// The most recent attempt recorded for a URL, if any.
    pub fn get_last_request(&self, source_id: &str, url: &str) -> (r: Option<CrawlRequestEntry>)
        ensures
            r is Some ==> exists|i: int|
                0 <= i < self.rows@.len() && #[trigger] self.rows@[i] == r->0
                    && self.rows@[i].source_id@ == source_id@ && self.rows@[i].url@ == url@
                    && (forall|j: int|
                    i < j < self.rows@.len() ==> !((#[trigger] self.rows@[j]).source_id@
                        == source_id@ && self.rows@[j].url@ == url@)),
            r is None ==> forall|i: int|
                0 <= i < self.rows@.len() ==> !((#[trigger] self.rows@[i]).source_id@ == source_id@
                    && self.rows@[i].url@ == url@),
    {
        let n = self.rows.len();
        let mut i: usize = n;
        while i > 0
            invariant
                0 <= i <= n,
                forall|j: int|
                    i <= j < n ==> !((#[trigger] self.rows@[j]).source_id@ == source_id@
                        && self.rows@[j].url@ == url@),
            decreases i,
        {
            i = i - 1;
            let row = &self.rows[i];
            if crate::text::str_eq(row.source_id.as_str(), source_id) && crate::text::str_eq(
                row.url.as_str(),
                url,
            ) {
                let r = row.clone();
                proof {
                    assert(self.rows@[i as int] == r);
                }
                return Option::Some(r);
            }
        }
        Option::None
    }

    /// Roll up the request statistics of one source.
    pub fn request_stats(&self, source_id: &str) -> (r: RequestStats)
        requires
            spec_sum_bytes(self.rows@, source_id@) <= u64::MAX,
            spec_sum_duration(self.rows@, source_id@) <= u64::MAX,
        ensures
            r.total_requests == self.rows@.filter(|e: CrawlRequestEntry|
                e.source_id@ == source_id@).len(),
            r.success_200 == self.rows@.filter(|e: CrawlRequestEntry|
                e.source_id@ == source_id@ && e.response_status == Option::Some(200u16)).len(),
            r.not_modified_304 == self.rows@.filter(|e: CrawlRequestEntry|
                e.source_id@ == source_id@ && e.response_status == Option::Some(304u16)).len(),
            r.errors == self.rows@.filter(|e: CrawlRequestEntry|
                e.source_id@ == source_id@ && (e.response_status matches Some(s) && s
                    >= 400)).len(),
            r.conditional_requests == self.rows@.filter(|e: CrawlRequestEntry|
                e.source_id@ == source_id@ && e.was_conditional).len(),
            r.total_bytes == spec_sum_bytes(self.rows@, source_id@),
            ({
                let counted = self.rows@.filter(|e: CrawlRequestEntry|
                    e.source_id@ == source_id@ && e.duration_ms is Some).len() as int;
                r.avg_duration_ms == if counted == 0 {
                    0int
                } else {
                    spec_sum_duration(self.rows@, source_id@) / counted
                }
            }),
    {
        let ghost sid = source_id@;
        let ghost f_all = |e: CrawlRequestEntry| e.source_id@ == sid;
        let ghost f_200 = |e: CrawlRequestEntry| e.source_id@ == sid && e.response_status
            == Option::Some(200u16);
        let ghost f_304 = |e: CrawlRequestEntry| e.source_id@ == sid && e.response_status
            == Option::Some(304u16);
        let ghost f_err = |e: CrawlRequestEntry| e.source_id@ == sid && (e.response_status matches
        Some(s) && s >= 400);
        let ghost f_cond = |e: CrawlRequestEntry| e.source_id@ == sid && e.was_conditional;
        let ghost f_dur = |e: CrawlRequestEntry| e.source_id@ == sid && e.duration_ms is Some;
        let n = self.rows.len();
        let mut total: usize = 0;
        let mut s200: usize = 0;
        let mut s304: usize = 0;
        let mut errs: usize = 0;
        let mut cond: usize = 0;
        let mut with_dur: usize = 0;
        let mut bytes: u64 = 0;
        let mut dur: u64 = 0;
        let mut i: usize = 0;
        proof {
            assert(self.rows@.take(0) =~= Seq::<CrawlRequestEntry>::empty());
            lemma_sum_take_le(self.rows@, sid, 0);
        }
        while i < n
            invariant
                0 <= i <= n,
                total <= i && s200 <= i && s304 <= i && errs <= i && cond <= i && with_dur <= i,
                total == self.rows@.take(i as int).filter(f_all).len(),
                s200 == self.rows@.take(i as int).filter(f_200).len(),
                s304 == self.rows@.take(i as int).filter(f_304).len(),
                errs == self.rows@.take(i as int).filter(f_err).len(),
                cond == self.rows@.take(i as int).filter(f_cond).len(),
                with_dur == self.rows@.take(i as int).filter(f_dur).len(),
                bytes == spec_sum_bytes(self.rows@.take(i as int), sid),
                dur == spec_sum_duration(self.rows@.take(i as int), sid),
                spec_sum_bytes(self.rows@.take(i as int), sid) <= spec_sum_bytes(self.rows@, sid),
                spec_sum_duration(self.rows@.take(i as int), sid) <= spec_sum_duration(self.rows@,
                    sid),
            decreases n - i,
        {
            proof {
                assert(self.rows@.take(i + 1).drop_last() =~= self.rows@.take(i as int));
                reveal_with_fuel(Seq::filter, 2);
                assert(self.rows@.take(i + 1).last() == self.rows@[i as int]);
                lemma_sum_take_le(self.rows@, sid, i + 1);
            }
            let row = &self.rows[i];
            if crate::text::str_eq(row.source_id.as_str(), source_id) {
                total = total + 1;
                match row.response_status {
                    Option::Some(s) => {
                        if s == 200 {
                            s200 = s200 + 1;
                        }
                        if s == 304 {
                            s304 = s304 + 1;
                        }
                        if s >= 400 {
                            errs = errs + 1;
                        }
                    },
                    Option::None => {
                    },
                }
                if row.was_conditional {
                    cond = cond + 1;
                }
                match row.response_size {
                    Option::Some(b) => {
                        bytes = bytes + b;
                    },
                    Option::None => {
                    },
                }
                match row.duration_ms {
                    Option::Some(d) => {
                        with_dur = with_dur + 1;
                        dur = dur + d;
                    },
                    Option::None => {
                    },
                }
            }
            i = i + 1;
        }
        proof {
            assert(self.rows@.take(n as int) =~= self.rows@);
            assert(f_all =~= (|e: CrawlRequestEntry| e.source_id@ == source_id@));
            assert(f_200 =~= (|e: CrawlRequestEntry|
                e.source_id@ == source_id@ && e.response_status == Option::Some(200u16)));
            assert(f_304 =~= (|e: CrawlRequestEntry|
                e.source_id@ == source_id@ && e.response_status == Option::Some(304u16)));
            assert(f_err =~= (|e: CrawlRequestEntry|
                e.source_id@ == source_id@ && (e.response_status matches Some(s) && s >= 400)));
            assert(f_cond =~= (|e: CrawlRequestEntry|
                e.source_id@ == source_id@ && e.was_conditional));
            assert(f_dur =~= (|e: CrawlRequestEntry|
                e.source_id@ == source_id@ && e.duration_ms is Some));
        }
        let avg: u64 = if with_dur == 0 {
            0
        } else {
            dur / (with_dur as u64)
        };
        RequestStats {
            total_requests: total as u64,
            success_200: s200 as u64,
            not_modified_304: s304 as u64,
            errors: errs as u64,
            conditional_requests: cond as u64,
            avg_duration_ms: avg,
            total_bytes: bytes,
        }
    }

    /// Drop every row of one source (used when its crawl state is
    /// cleared).
    pub fn clear_source(&mut self, source_id: &str)
        requires
            old(self).wf(),
        ensures
            final(self).wf(),
            final(self).rows@ == old(self).rows@.filter(|e: CrawlRequestEntry|
                e.source_id@ != source_id@),
    {
        let ghost f = |e: CrawlRequestEntry| e.source_id@ != source_id@;
        let n = self.rows.len();
        let mut kept: Vec<CrawlRequestEntry> = Vec::new();
        let ghost mut witness: Seq<int> = Seq::empty();
        let mut i: usize = 0;
        while i < n
            invariant
                0 <= i <= n,
                n == self.rows@.len(),
                kept@ == self.rows@.take(i as int).filter(f),
                witness.len() == kept@.len(),
                forall|k: int|
                    0 <= k < witness.len() ==> 0 <= #[trigger] witness[k] < i && kept@[k]
                        == self.rows@[witness[k]],
            decreases n - i,
        {
            proof {
                assert(self.rows@.take(i + 1).drop_last() =~= self.rows@.take(i as int));
                reveal_with_fuel(Seq::filter, 2);
                assert(self.rows@.take(i + 1).last() == self.rows@[i as int]);
            }
            let row = &self.rows[i];
            if !crate::text::str_eq(row.source_id.as_str(), source_id) {
                kept.push(row.clone());
                proof {
                    witness = witness.push(i as int);
                }
            }
            i = i + 1;
        }
        proof {
            assert(self.rows@.take(n as int) =~= self.rows@);
            assert forall|k: int| 0 <= k < kept@.len() implies (#[trigger] kept@[k]).row_wf() by {
                assert(kept@[k] == self.rows@[witness[k]]);
            }
        }
        self.rows = kept;
    }
}

/// Sums over a prefix never exceed the sum over the whole log.
proof fn lemma_sum_take_le(rows: Seq<CrawlRequestEntry>, sid: Seq<char>, k: int)
    requires
        0 <= k <= rows.len(),
    ensures
        spec_sum_bytes(rows.take(k), sid) <= spec_sum_bytes(rows, sid),
        spec_sum_duration(rows.take(k), sid) <= spec_sum_duration(rows, sid),
    decreases rows.len() - k,
{
    if k < rows.len() {
        lemma_sum_take_le(rows, sid, k + 1);
        assert(rows.take(k + 1).drop_last() =~= rows.take(k));
        assert(rows.take(k + 1).last() == rows[k]);
    } else {
        assert(rows.take(k) =~= rows);
    }
}

} // verus!
