//! The content-addressed, versioned document store.
//!
//! A document is keyed by its source URL and owns at least one version;
//! no two versions of one document share a content hash, and a
//! version's path is derived from its hash, so identical bodies are
//! never stored twice for the same document.  Writing the bytes to disk
//! is the caller's side of the bargain: `put` returns the bytes' hash
//! and the relative path they must land under before the record is made
//! durable.

use vstd::prelude::*;

use crate::hashing::{content_hash, spec_content_hash};
use crate::naming::{
    content_rel_path, extract_filename_parts, spec_basename_source, spec_content_rel_path,
    spec_mime_ext, spec_sanitize,
};
use crate::status::DocumentStatus;
use crate::ident::new_uuid;
use crate::text::str_eq;

verus! {

/// One stored version of a document's content.
#[derive(Debug)]
pub struct DocumentVersion {
    /// Hex SHA-256 of the stored bytes.
    pub content_hash: String,
    /// Path of the stored file, relative to the documents root.
    pub file_path: String,
    /// Size of the stored bytes.
    pub file_size: u64,
    /// MIME type the server reported.
    pub mime_type: String,
    /// When the version was acquired (epoch milliseconds).
    pub acquired_at: u64,
    /// URL the bytes came from.
    pub source_url: Option<String>,
    /// Filename the server suggested, if any.
    pub original_filename: Option<String>,
    /// `Date` header of the response, if any (epoch milliseconds).
    pub server_date: Option<u64>,
    /// Pages in the document, once known.
    pub page_count: Option<u32>,
}

impl Clone for DocumentVersion {
    fn clone(&self) -> (r: Self)
        ensures
            r == *self,
    {
        DocumentVersion {
            content_hash: self.content_hash.clone(),
            file_path: self.file_path.clone(),
            file_size: self.file_size,
            mime_type: self.mime_type.clone(),
            acquired_at: self.acquired_at,
            source_url: self.source_url.clone(),
            original_filename: self.original_filename.clone(),
            server_date: self.server_date,
            page_count: self.page_count,
        }
    }
}

impl DocumentVersion {
    /// Hash content the way every stored version is hashed.
    pub fn compute_hash(content: &[u8]) -> (r: String)
        ensures
            r@ == spec_content_hash(content@),
            r@.len() == 64,
    {
        content_hash(content)
    }
}

/// One document: a source URL with its version history.
#[derive(Debug)]
pub struct Document {
    /// Identity of the document.
    pub id: String,
    /// Source the document belongs to.
    pub source_id: String,
    /// Display title.
    pub title: String,
    /// URL the document is keyed by; unique in the store.
    pub source_url: String,
    /// All stored versions, oldest first.
    pub versions: Vec<DocumentVersion>,
    /// Processing status.
    pub status: DocumentStatus,
    /// Tags assigned by analysis.
    pub tags: Vec<String>,
    /// When the document was created (epoch milliseconds).
    pub created_at: u64,
    /// When the document was last touched.
    pub updated_at: u64,
}

impl Document {
    /// No two versions share a content hash, and there is at least one.
    pub open spec fn wf(self) -> bool {
        &&& self.versions@.len() >= 1
        &&& forall|i: int, j: int|
            0 <= i < j < self.versions@.len() ==> (#[trigger] self.versions@[i]).content_hash@ != (
            #[trigger] self.versions@[j]).content_hash@
    }

    /// Whether some version stores content with this hash.
    pub open spec fn spec_has_hash(self, hash: Seq<char>) -> bool {
        exists|i: int|
            0 <= i < self.versions@.len() && (#[trigger] self.versions@[i]).content_hash@ == hash
    }

    /// A fresh document around its first version.
    pub fn new(
        id: String,
        source_id: String,
        title: String,
        source_url: String,
        first_version: DocumentVersion,
        now_ms: u64,
    ) -> (r: Self)
        ensures
            r.wf(),
            r.id == id,
            r.source_id == source_id,
            r.title == title,
            r.source_url == source_url,
            r.versions@.len() == 1,
            r.versions@[0] == first_version,
            r.status == DocumentStatus::Pending,
            r.created_at == now_ms,
            r.updated_at == now_ms,
    {
        Document {
            id,
            source_id,
            title,
            source_url,
            versions: vec![first_version],
            status: DocumentStatus::Pending,
            tags: Vec::new(),
            created_at: now_ms,
            updated_at: now_ms,
        }
    }

    /// Whether a version with this hash is already stored.
    pub fn has_hash(&self, hash: &str) -> (r: bool)
        ensures
            r == self.spec_has_hash(hash@),
    {
        let n = self.versions.len();
        let mut i: usize = 0;
        while i < n
            invariant
                0 <= i <= n,
                forall|j: int|
                    0 <= j < i ==> (#[trigger] self.versions@[j]).content_hash@ != hash@,
            decreases n - i,
        {
            if str_eq(self.versions[i].content_hash.as_str(), hash) {
                return true;
            }
            i = i + 1;
        }
        false
    }

    /// Append a version iff its content hash is new to this document.
    /// Returns whether it was appended; an already-stored hash leaves
    /// the document unchanged.
    pub fn add_version(&mut self, version: DocumentVersion) -> (added: bool)
        requires
            old(self).wf(),
        ensures
            final(self).wf(),
            added == !old(self).spec_has_hash(version.content_hash@),
            !added ==> *final(self) == *old(self),
            added ==> final(self).versions@ == old(self).versions@.push(version),
            added ==> spec_same_doc_but_versions(*old(self), *final(self)),
    {
        if self.has_hash(version.content_hash.as_str()) {
            false
        } else {
            self.versions.push(version);
            true
        }
    }

    /// The index of the current version: greatest `acquired_at`, the
    /// later version on a tie.
    pub open spec fn spec_current_index(self, n: int) -> Option<int>
        decreases n,
    {
        if n <= 0 {
            Option::None
        } else {
            match self.spec_current_index(n - 1) {
                Option::None => Option::Some(n - 1),
                Option::Some(j) => if self.versions@[n - 1].acquired_at
                    >= self.versions@[j].acquired_at {
                    Option::Some(n - 1)
                } else {
                    Option::Some(j)
                },
            }
        }
    }

    /// The current version: the newest by `acquired_at`.
    pub fn current_version(&self) -> (r: Option<&DocumentVersion>)
        ensures
            r is None <==> self.versions@.len() == 0,
            r matches Some(v) ==> ({
                let i = self.spec_current_index(self.versions@.len() as int)->0;
                &&& self.spec_current_index(self.versions@.len() as int) is Some
                &&& 0 <= i < self.versions@.len()
                &&& *v == self.versions@[i]
            }),
    {
        let n = self.versions.len();
        if n == 0 {
            return Option::None;
        }
        let mut best: usize = 0;
        let mut i: usize = 1;
        proof {
            lemma_current_index_bounds(*self, 1);
        }
        while i < n
            invariant
                1 <= i <= n,
                0 <= best < i,
                self.spec_current_index(i as int) == Option::Some(best as int),
            decreases n - i,
        {
            if self.versions[i].acquired_at >= self.versions[best].acquired_at {
                best = i;
            }
            i = i + 1;
        }
        Option::Some(&self.versions[best])
    }
}

/// The index chosen over a prefix is inside that prefix.
proof fn lemma_current_index_bounds(d: Document, n: int)
    requires
        n <= d.versions@.len(),
    ensures
        d.spec_current_index(n) matches Some(i) ==> 0 <= i < n,
        n > 0 ==> d.spec_current_index(n) is Some,
    decreases n,
{
    if n > 0 {
        lemma_current_index_bounds(d, n - 1);
    }
}

/// What refreshing a document against its source yielded.
#[derive(Clone, Copy, Debug, PartialEq, Eq, Structural)]
pub enum RefreshResult {
    /// The content changed and a new version was added.
    ContentChanged,
    /// Only metadata (filename or server date) was updated.
    MetadataUpdated,
    /// Nothing needed changing.
    Unchanged,
}

/// What one `put` call did.
#[derive(Debug)]
pub struct PutOutcome {
    /// Identity of the document the body belongs to.
    pub document_id: String,
    /// Whether a new document was created (false: an existing one).
    pub created_new: bool,
    /// Whether a new version was stored (false: the hash was known).
    pub version_added: bool,
    /// Hex SHA-256 of the body.
    pub content_hash: String,
    /// Where the body must be stored, relative to the documents root.
    pub relative_path: String,
}

/// The document store: all documents, keyed by source URL.
pub struct DocStore {
    /// All documents.
    pub documents: Vec<Document>,
}

impl DocStore {
    /// Source URLs are unique and every document is well formed.
    pub open spec fn wf(self) -> bool {
        &&& forall|i: int, j: int|
            0 <= i < j < self.documents@.len() ==> (#[trigger] self.documents@[i]).source_url@ != (
            #[trigger] self.documents@[j]).source_url@
        &&& forall|i: int| 0 <= i < self.documents@.len() ==> (#[trigger] self.documents@[i]).wf()
    }

    /// Index of the document for a source URL, if any.
    pub open spec fn spec_find_url(self, url: Seq<char>) -> Option<int> {
        if exists|i: int|
            0 <= i < self.documents@.len() && (#[trigger] self.documents@[i]).source_url@ == url {
            Option::Some(choose|i: int|
                0 <= i < self.documents@.len() && (#[trigger] self.documents@[i]).source_url@
                    == url)
        } else {
            Option::None
        }
    }

    /// An empty store.
    pub fn new() -> (r: Self)
        ensures
            r.wf(),
            r.documents@.len() == 0,
    {
        DocStore { documents: Vec::new() }
    }

    /// Index of the document stored for a URL.
    pub fn find_by_url(&self, url: &str) -> (r: Option<usize>)
        requires
            self.wf(),
        ensures
            r matches Some(i) ==> self.spec_find_url(url@) == Option::Some(i as int),
            r is None ==> self.spec_find_url(url@) is None,
    {
        let n = self.documents.len();
        let mut i: usize = 0;
        while i < n
            invariant
                0 <= i <= n,
                forall|j: int| 0 <= j < i ==> (#[trigger] self.documents@[j]).source_url@ != url@,
            decreases n - i,
        {
            if str_eq(self.documents[i].source_url.as_str(), url) {
                proof {
                    let w = choose|k: int|
                        0 <= k < self.documents@.len() && (#[trigger] self.documents@[k]).source_url@
                            == url@;
                    if w != i {
                        assert(self.documents@[if w < i {
                            w
                        } else {
                            i as int
                        }].source_url@ != self.documents@[if w < i {
                            i as int
                        } else {
                            w
                        }].source_url@);
                    }
                }
                return Option::Some(i);
            }
            i = i + 1;
        }
        Option::None
    }

    /// Whether content with this hash is stored in any document.
    pub fn content_exists(&self, hash: &str) -> (r: bool)
        ensures
            r == exists|i: int|
                0 <= i < self.documents@.len() && (#[trigger] self.documents@[i]).spec_has_hash(
                    hash@),
    {
        let n = self.documents.len();
        let mut i: usize = 0;
        while i < n
            invariant
                0 <= i <= n,
                forall|j: int|
                    0 <= j < i ==> !(#[trigger] self.documents@[j]).spec_has_hash(hash@),
            decreases n - i,
        {
            if self.documents[i].has_hash(hash) {
                return true;
            }
            i = i + 1;
        }
        false
    }

    /// The source URLs of every document of one source, in store order.
    pub fn urls_for(&self, source_id: &str) -> (r: Vec<String>)
        ensures
            r@.map_values(|s: String| s@) == spec_urls_of(self.documents@, source_id@),
    {
        let ghost to_view = |s: String| s@;
        let n = self.documents.len();
        let mut r: Vec<String> = Vec::new();
        let mut i: usize = 0;
        proof {
            assert(r@.map_values(to_view) =~= spec_urls_of(self.documents@.take(0), source_id@));
        }
        while i < n
            invariant
                0 <= i <= n,
                n == self.documents@.len(),
                r@.map_values(to_view) == spec_urls_of(self.documents@.take(i as int), source_id@),
            decreases n - i,
        {
            proof {
                assert(self.documents@.take(i + 1).drop_last() =~= self.documents@.take(i as int));
                assert(self.documents@.take(i + 1).last() == self.documents@[i as int]);
            }
            let doc = &self.documents[i];
            if str_eq(doc.source_id.as_str(), source_id) {
                r.push(doc.source_url.clone());
            }
            proof {
                assert(r@.map_values(to_view) =~= spec_urls_of(self.documents@.take(i + 1),
                    source_id@));
            }
            i = i + 1;
        }
        proof {
            assert(self.documents@.take(n as int) =~= self.documents@);
            assert(to_view =~= (|s: String| s@));
        }
        r
    }

    /// Every stored content hash, one per version, in store order.
    pub fn all_hashes(&self) -> (r: Vec<String>)
        ensures
            r@.map_values(|s: String| s@) == spec_hashes_of(self.documents@),
    {
        let ghost to_view = |s: String| s@;
        let ghost to_hash = |v: DocumentVersion| v.content_hash@;
        let n = self.documents.len();
        let mut r: Vec<String> = Vec::new();
        let mut i: usize = 0;
        proof {
            assert(r@.map_values(to_view) =~= spec_hashes_of(self.documents@.take(0)));
        }
        while i < n
            invariant
                0 <= i <= n,
                n == self.documents@.len(),
                r@.map_values(to_view) == spec_hashes_of(self.documents@.take(i as int)),
            decreases n - i,
        {
            let m = self.documents[i].versions.len();
            let mut j: usize = 0;
            while j < m
                invariant
                    0 <= j <= m,
                    0 <= i < n,
                    n == self.documents@.len(),
                    m == self.documents@[i as int].versions@.len(),
                    r@.map_values(to_view) == spec_hashes_of(self.documents@.take(i as int))
                        + self.documents@[i as int].versions@.take(j as int).map_values(to_hash),
                decreases m - j,
            {
                let ghost old_r = r@;
                r.push(self.documents[i].versions[j].content_hash.clone());
                proof {
                    let lhs = r@.map_values(to_view);
                    let prefix = spec_hashes_of(self.documents@.take(i as int));
                    let rhs = prefix + self.documents@[i as int].versions@.take(j + 1).map_values(
                        to_hash,
                    );
                    assert(lhs.len() == rhs.len());
                    assert forall|k: int| 0 <= k < lhs.len() implies lhs[k] == rhs[k] by {
                        assert(lhs[k] == to_view(r@[k]));
                        if k < old_r.len() {
                            assert(r@[k] == old_r[k]);
                            assert(old_r.map_values(to_view)[k] == to_view(old_r[k]));
                            if k < prefix.len() {
                                assert(rhs[k] == prefix[k]);
                            } else {
                                assert(rhs[k] == to_hash(self.documents@[i as int].versions@.take(
                                    j + 1)[k - prefix.len()]));
                                assert(self.documents@[i as int].versions@.take(j + 1)[k
                                    - prefix.len()] == self.documents@[i as int].versions@.take(
                                    j as int)[k - prefix.len()]);
                            }
                        } else {
                            assert(r@[k] == self.documents@[i as int].versions@[j as int].content_hash);
                            assert(rhs[k] == to_hash(self.documents@[i as int].versions@.take(
                                j + 1)[j as int]));
                        }
                    }
                    assert(lhs =~= rhs);
                }
                j = j + 1;
            }
            proof {
                assert(self.documents@.take(i + 1).drop_last() =~= self.documents@.take(i as int));
                assert(self.documents@.take(i + 1).last() == self.documents@[i as int]);
                assert(self.documents@[i as int].versions@.take(m as int).map_values(to_hash)
                    =~= self.documents@[i as int].versions@.map_values(
                    |v: DocumentVersion| v.content_hash@,
                ));
                assert(r@.map_values(to_view) =~= spec_hashes_of(self.documents@.take(i + 1)));
            }
            i = i + 1;
        }
        proof {
            assert(self.documents@.take(n as int) =~= self.documents@);
            assert(to_view =~= (|s: String| s@));
        }
        r
    }

    /// Rename a source: every document of `old_id` moves to `new_id`.
    pub fn rename_source(&mut self, old_id: &str, new_id: &str)
        requires
            old(self).wf(),
        ensures
            final(self).wf(),
            final(self).documents@.len() == old(self).documents@.len(),
            forall|i: int|
                0 <= i < old(self).documents@.len() && (#[trigger] old(
                    self).documents@[i]).source_id@ == old_id@ ==> final(
                    self).documents@[i].source_id@ == new_id@ && spec_same_doc_but_source(old(
                    self).documents@[i], final(self).documents@[i]),
            forall|i: int|
                0 <= i < old(self).documents@.len() && (#[trigger] old(
                    self).documents@[i]).source_id@ != old_id@ ==> final(self).documents@[i]
                    == old(self).documents@[i],
    {
        let n = self.documents.len();
        let mut i: usize = 0;
        while i < n
            invariant
                0 <= i <= n,
                n == self.documents@.len(),
                forall|j: int|
                    0 <= j < i && (#[trigger] old(self).documents@[j]).source_id@ == old_id@
                        ==> self.documents@[j].source_id@ == new_id@ && spec_same_doc_but_source(
                        old(self).documents@[j], self.documents@[j]),
                forall|j: int|
                    (i <= j < n || (0 <= j < i && (#[trigger] old(self).documents@[j]).source_id@
                        != old_id@)) ==> self.documents@[j] == old(self).documents@[j],
            decreases n - i,
        {
            if str_eq(self.documents[i].source_id.as_str(), old_id) {
                let slot = &mut self.documents[i];
                slot.source_id = new_id.to_owned();
            }
            i = i + 1;
        }
        proof {
            assert forall|x: int, y: int| 0 <= x < y < self.documents@.len() implies (
            #[trigger] self.documents@[x]).source_url@ != (
            #[trigger] self.documents@[y]).source_url@ by {
                assert(old(self).documents@[x].source_url@ != old(self).documents@[y].source_url@);
            }
            assert forall|x: int| 0 <= x < self.documents@.len() implies (
            #[trigger] self.documents@[x]).wf() by {
                assert(old(self).documents@[x].wf());
                if old(self).documents@[x].source_id@ == old_id@ {
                    assert(self.documents@[x].versions == old(self).documents@[x].versions);
                }
            }
        }
    }

    /// Store a fetched body under `put_with_id`'s rules, with a fresh
    /// document identity for the case where the URL is new.
    pub fn put(
        &mut self,
        content: &[u8],
        source_url: &str,
        title: &str,
        mime_type: &str,
        source_id: &str,
        now_ms: u64,
    ) -> (r: PutOutcome)
        requires
            old(self).wf(),
        ensures
            final(self).wf(),
            spec_put_outcome(*old(self), *final(self), r, content@, source_url@, title@,
                mime_type@, source_id@, now_ms),
    {
        let new_id = new_uuid();
        self.put_with_id(content, source_url, title, mime_type, source_id, now_ms, new_id)
    }

    /// Store a fetched body: hash it, derive its content-addressed
    /// path, and append a version to the document keyed by the URL —
    /// unless the document already stores this very content, in which
    /// case nothing changes.  A URL with no document yet gets a new
    /// document under `new_id` with this body as its only version.
    pub fn put_with_id(
        &mut self,
        content: &[u8],
        source_url: &str,
        title: &str,
        mime_type: &str,
        source_id: &str,
        now_ms: u64,
        new_id: String,
    ) -> (r: PutOutcome)
        requires
            old(self).wf(),
        ensures
            final(self).wf(),
            spec_put_outcome(*old(self), *final(self), r, content@, source_url@, title@,
                mime_type@, source_id@, now_ms),
            r.created_new ==> r.document_id == new_id,
    {
        let hash = content_hash(content);
        let (basename, ext) = extract_filename_parts(source_url, title, mime_type);
        let rel_path = content_rel_path(hash.as_str(), basename.as_str(), ext.as_str());
        let version = DocumentVersion {
            content_hash: hash.clone(),
            file_path: rel_path.clone(),
            file_size: content.len() as u64,
            mime_type: mime_type.to_owned(),
            acquired_at: now_ms,
            source_url: Option::Some(source_url.to_owned()),
            original_filename: Option::None,
            server_date: Option::None,
            page_count: Option::None,
        };
        let found = self.find_by_url(source_url);
        match found {
            Option::Some(i) => {
                let doc_id = self.documents[i].id.clone();
                let added = {
                    let doc = &mut self.documents[i];
                    doc.add_version(version)
                };
                proof {
                    let post = *self;
                    if !added {
                        assert(post.documents@ =~= old(self).documents@);
                    } else {
                        assert(post.documents@ =~= old(self).documents@.update(i as int,
                            post.documents@[i as int]));
                    }
                    assert forall|x: int, y: int|
                        0 <= x < y < post.documents@.len() implies (
                    #[trigger] post.documents@[x]).source_url@ != (
                    #[trigger] post.documents@[y]).source_url@ by {
                        assert(old(self).documents@[x].source_url@ != old(
                            self).documents@[y].source_url@);
                    }
                    assert(post.spec_find_url(source_url@) == Option::Some(i as int)) by {
                        assert(post.documents@[i as int].source_url@ == source_url@);
                        let w = choose|k: int|
                            0 <= k < post.documents@.len() && (
                            #[trigger] post.documents@[k]).source_url@ == source_url@;
                        if w != i {
                            assert(post.documents@[if w < i {
                                w
                            } else {
                                i as int
                            }].source_url@ != post.documents@[if w < i {
                                i as int
                            } else {
                                w
                            }].source_url@);
                        }
                    }
                }
                PutOutcome {
                    document_id: doc_id,
                    created_new: false,
                    version_added: added,
                    content_hash: hash,
                    relative_path: rel_path,
                }
            },
            Option::None => {
                let doc = Document::new(
                    new_id.clone(),
                    source_id.to_owned(),
                    title.to_owned(),
                    source_url.to_owned(),
                    version,
                    now_ms,
                );
                self.documents.push(doc);
                proof {
                    let post = *self;
                    let n = old(self).documents@.len() as int;
                    assert(post.documents@.subrange(0, n) =~= old(self).documents@);
                    assert forall|x: int, y: int|
                        0 <= x < y < post.documents@.len() implies (
                    #[trigger] post.documents@[x]).source_url@ != (
                    #[trigger] post.documents@[y]).source_url@ by {
                        if y < n {
                            assert(old(self).documents@[x].source_url@ != old(
                                self).documents@[y].source_url@);
                        } else {
                            assert(post.documents@[y].source_url@ == source_url@);
                            assert(old(self).documents@[x].source_url@ != source_url@);
                        }
                    }
                    assert(post.spec_find_url(source_url@) == Option::Some(n)) by {
                        assert(post.documents@[n].source_url@ == source_url@);
                        let w = choose|k: int|
                            0 <= k < post.documents@.len() && (
                            #[trigger] post.documents@[k]).source_url@ == source_url@;
                        if w != n {
                            assert(post.documents@[w].source_url@ != post.documents@[n].source_url@);
                        }
                    }
                }
                PutOutcome {
                    document_id: new_id,
                    created_new: true,
                    version_added: true,
                    content_hash: hash,
                    relative_path: rel_path,
                }
            },
        }
    }
}

/// The version a `put` of these bytes stores.
pub open spec fn spec_put_version(
    content: Seq<u8>,
    source_url: Seq<char>,
    title: Seq<char>,
    mime_type: Seq<char>,
    now_ms: u64,
    v: DocumentVersion,
) -> bool {
    &&& v.content_hash@ == spec_content_hash(content)
    &&& v.file_path@ == spec_content_rel_path(spec_content_hash(content),
        spec_sanitize(spec_basename_source(source_url, title)), spec_mime_ext(mime_type))
    &&& v.file_size == content.len()
    &&& v.mime_type@ == mime_type
    &&& v.acquired_at == now_ms
    &&& (v.source_url matches Some(u) && u@ == source_url)
}

/// What `put` promises: the returned hash and path are derived from the
/// bytes; a document that already stores the hash stays untouched; a
/// known URL with a new hash gains exactly one version; an unknown URL
/// gains exactly one new document with this body as its only version.
/// Documents of other URLs are never touched.
pub open spec fn spec_put_outcome(
    pre: DocStore,
    post: DocStore,
    r: PutOutcome,
    content: Seq<u8>,
    source_url: Seq<char>,
    title: Seq<char>,
    mime_type: Seq<char>,
    source_id: Seq<char>,
    now_ms: u64,
) -> bool {
    let hash = spec_content_hash(content);
    &&& r.content_hash@ == hash
    &&& r.relative_path@ == spec_content_rel_path(hash, spec_sanitize(spec_basename_source(
        source_url, title)), spec_mime_ext(mime_type))
    &&& r.created_new == (pre.spec_find_url(source_url) is None)
    &&& match pre.spec_find_url(source_url) {
        Option::Some(i) => {
            &&& r.document_id == pre.documents@[i].id
            &&& r.version_added == !pre.documents@[i].spec_has_hash(hash)
            &&& (!r.version_added ==> post.documents@ == pre.documents@)
            &&& (r.version_added ==> post.documents@ == pre.documents@.update(i,
                post.documents@[i]) && post.documents@[i].versions@ == pre.documents@[
                i].versions@.push(post.documents@[i].versions@.last()) && spec_put_version(content,
                source_url, title, mime_type, now_ms, post.documents@[i].versions@.last())
                && spec_same_doc_but_versions(pre.documents@[i], post.documents@[i]))
        },
        Option::None => {
            &&& r.version_added
            &&& post.documents@.len() == pre.documents@.len() + 1
            &&& post.documents@.subrange(0, pre.documents@.len() as int) == pre.documents@
            &&& post.documents@.last().source_url@ == source_url
            &&& post.documents@.last().source_id@ == source_id
            &&& post.documents@.last().title@ == title
            &&& post.documents@.last().id == r.document_id
            &&& post.documents@.last().versions@.len() == 1
            &&& spec_put_version(content, source_url, title, mime_type, now_ms,
                post.documents@.last().versions@[0])
        },
    }
}

/// The source URLs of one source's documents, in store order.
pub open spec fn spec_urls_of(docs: Seq<Document>, sid: Seq<char>) -> Seq<Seq<char>>
    decreases docs.len(),
{
    if docs.len() == 0 {
        Seq::empty()
    } else {
        spec_urls_of(docs.drop_last(), sid) + (if docs.last().source_id@ == sid {
            seq![docs.last().source_url@]
        } else {
            Seq::empty()
        })
    }
}

/// Every stored content hash, in store order, one per version.
pub open spec fn spec_hashes_of(docs: Seq<Document>) -> Seq<Seq<char>>
    decreases docs.len(),
{
    if docs.len() == 0 {
        Seq::empty()
    } else {
        spec_hashes_of(docs.drop_last()) + docs.last().versions@.map_values(
            |v: DocumentVersion| v.content_hash@,
        )
    }
}

/// A document whose version list grew: everything else stands — the
/// identity, the keys, the display fields and the timestamps.
pub open spec fn spec_same_doc_but_versions(pre: Document, post: Document) -> bool {
    &&& post.id == pre.id
    &&& post.source_id == pre.source_id
    &&& post.title == pre.title
    &&& post.source_url == pre.source_url
    &&& post.status == pre.status
    &&& post.tags == pre.tags
    &&& post.created_at == pre.created_at
    &&& post.updated_at == pre.updated_at
}

/// A document after its source was renamed: everything but the source
/// stands.
pub open spec fn spec_same_doc_but_source(pre: Document, post: Document) -> bool {
    &&& post.id == pre.id
    &&& post.title == pre.title
    &&& post.source_url == pre.source_url
    &&& post.versions == pre.versions
    &&& post.status == pre.status
    &&& post.tags == pre.tags
    &&& post.created_at == pre.created_at
    &&& post.updated_at == pre.updated_at
}

/// Hash integrity: every version a `put` stores carries the hex
/// SHA-256 of the stored bytes, and the path it must be written to is
/// derived from that hash.
pub proof fn lemma_put_hash_integrity(
    pre: DocStore,
    post: DocStore,
    r: PutOutcome,
    content: Seq<u8>,
    source_url: Seq<char>,
    title: Seq<char>,
    mime_type: Seq<char>,
    source_id: Seq<char>,
    now_ms: u64,
)
    requires
        spec_put_outcome(pre, post, r, content, source_url, title, mime_type, source_id, now_ms),
        r.version_added,
    ensures
        r.content_hash@ == spec_content_hash(content),
        r.relative_path@ == spec_content_rel_path(spec_content_hash(content), spec_sanitize(
            spec_basename_source(source_url, title)), spec_mime_ext(mime_type)),
        pre.spec_find_url(source_url) matches Some(i) ==> post.documents@[
            i].versions@.last().content_hash@ == spec_content_hash(content),
        pre.spec_find_url(source_url) is None ==> post.documents@.last().versions@[0].content_hash@
            == spec_content_hash(content),
{
}

/// Dedup: within one well-formed document, no two versions share a
/// content hash.
pub proof fn lemma_versions_dedup(d: Document, i: int, j: int)
    requires
        d.wf(),
        0 <= i < j < d.versions@.len(),
    ensures
        d.versions@[i].content_hash@ != d.versions@[j].content_hash@,
{
}

} // verus!
