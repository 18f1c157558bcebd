//! Content hashing, file naming, serving, and path safety.

use foiacquire::docstore::{DocStore, DocumentVersion};
use foiacquire::naming::{
    content_rel_path, extract_filename_parts, mime_to_extension, sanitize_filename,
};
use foiacquire::server::{
    clamp_usize, content_disposition, resolve_serve_path, serve_content_type, split_filter_list,
    trim_spaces, FileQuery,
};

#[test]
fn content_hash_is_hex_sha256() {
    // SHA-256("hello"), lowercase hex
    assert_eq!(
        DocumentVersion::compute_hash(b"hello"),
        "2cf24dba5fb0a30e26e83b2ac5b9e29e1b161e5c1fa7425e73043362938b9824"
    );
    assert_eq!(
        DocumentVersion::compute_hash(b""),
        "e3b0c44298fc1c149afbf4c8996fb92427ae41e4649b934ca495991b7852b855"
    );
}

#[test]
fn mime_extensions_match_the_table() {
    assert_eq!(mime_to_extension("application/pdf"), "pdf");
    assert_eq!(mime_to_extension("text/html"), "html");
    assert_eq!(mime_to_extension("text/plain"), "txt");
    assert_eq!(mime_to_extension("application/json"), "json");
    assert_eq!(mime_to_extension("text/xml"), "xml");
    assert_eq!(mime_to_extension("application/xml"), "xml");
    assert_eq!(mime_to_extension("image/jpeg"), "jpg");
    assert_eq!(mime_to_extension("image/png"), "png");
    assert_eq!(mime_to_extension("image/gif"), "gif");
    assert_eq!(mime_to_extension("application/msword"), "doc");
    assert_eq!(mime_to_extension("application/zip"), "zip");
    assert_eq!(mime_to_extension("application/gzip"), "gz");
    assert_eq!(mime_to_extension("application/octet-stream"), "bin");
    assert_eq!(mime_to_extension("anything/else"), "bin");
}

#[test]
fn sanitize_caps_and_replaces() {
    assert_eq!(sanitize_filename("report-2020_final"), "report-2020_final");
    assert_eq!(sanitize_filename("a b/c.d"), "a_b_c_d");
    let long = "x".repeat(100);
    assert_eq!(sanitize_filename(&long).len(), 64);
    assert_eq!(sanitize_filename(""), "");
}

#[test]
fn filename_parts_come_from_url_then_title() {
    let (base, ext) = extract_filename_parts(
        "https://example.org/files/report.pdf?dl=1",
        "Fallback",
        "application/pdf",
    );
    assert_eq!(base, "report_pdf");
    assert_eq!(ext, "pdf");

    let (base, _) = extract_filename_parts("https://example.org/files/", "My Title", "text/html");
    assert_eq!(base, "My_Title");

    let (base, _) = extract_filename_parts("", "", "text/html");
    assert_eq!(base, "document");
}

#[test]
fn content_path_embeds_the_hash() {
    let hash = DocumentVersion::compute_hash(b"hello");
    let path = content_rel_path(&hash, "page", "html");
    assert_eq!(path, format!("{}/page-{}.html", &hash[..2], &hash[..8]));
}

#[test]
fn put_dedups_by_hash_within_a_document() {
    let mut store = DocStore::new();
    let first = store.put(b"hello", "https://example.org/a", "A", "text/html", "src", 1000);
    assert!(first.created_new);
    assert!(first.version_added);
    assert_eq!(first.document_id.len(), 36);

    let again = store.put(b"hello", "https://example.org/a", "A", "text/html", "src", 2000);
    assert!(!again.created_new);
    assert!(!again.version_added);
    assert_eq!(again.document_id, first.document_id);
    assert_eq!(store.documents[0].versions.len(), 1);

    let changed = store.put(b"bye", "https://example.org/a", "A", "text/html", "src", 3000);
    assert!(!changed.created_new);
    assert!(changed.version_added);
    assert_eq!(store.documents[0].versions.len(), 2);

    let other = store.put(b"hello", "https://example.org/b", "B", "text/html", "src", 4000);
    assert!(other.created_new);
    assert_ne!(other.document_id, first.document_id);
    assert!(store.content_exists(&first.content_hash));
}

#[test]
fn dedup_queries_list_urls_and_hashes() {
    let mut store = DocStore::new();
    store.put(b"one", "https://example.org/a", "A", "text/html", "src", 1000);
    store.put(b"two", "https://example.org/a", "A", "text/html", "src", 2000);
    store.put(b"three", "https://example.org/b", "B", "text/html", "src", 3000);
    store.put(b"four", "https://example.org/c", "C", "text/html", "other", 4000);

    let urls = store.urls_for("src");
    assert_eq!(urls, vec!["https://example.org/a".to_string(), "https://example.org/b".to_string()]);
    assert!(store.urls_for("nobody").is_empty());

    let hashes = store.all_hashes();
    assert_eq!(hashes.len(), 4);
    assert!(hashes.contains(&DocumentVersion::compute_hash(b"two")));
    assert!(hashes.contains(&DocumentVersion::compute_hash(b"four")));
}

#[test]
fn serve_path_rejects_escapes() {
    assert_eq!(resolve_serve_path("/data/documents", "../etc/passwd"), None);
    assert_eq!(resolve_serve_path("/data/documents", "/etc/passwd"), None);
    assert_eq!(resolve_serve_path("/data/documents", "ab/../../x"), None);
    assert_eq!(resolve_serve_path("/data/documents", ""), None);
    assert_eq!(
        resolve_serve_path("/data/documents", "2c/page-2cf24dba.html"),
        Some("/data/documents/2c/page-2cf24dba.html".to_string())
    );
}

#[test]
fn served_markup_is_neutralized() {
    assert_eq!(serve_content_type("text/html"), "text/plain; charset=utf-8");
    assert_eq!(
        serve_content_type("text/html; charset=utf-8"),
        "text/plain; charset=utf-8"
    );
    assert_eq!(serve_content_type("image/svg+xml"), "text/plain; charset=utf-8");
    assert_eq!(serve_content_type("application/xml"), "text/plain; charset=utf-8");
    assert_eq!(serve_content_type("application/pdf"), "application/pdf");
    assert_eq!(serve_content_type("image/png"), "image/png");
}

#[test]
fn disposition_scrubs_quotes() {
    let query = FileQuery { filename: Some("re\"port\".pdf".to_string()) };
    assert_eq!(
        content_disposition(query.filename.as_ref()),
        "inline; filename=\"re_port_.pdf\""
    );
    assert_eq!(content_disposition(None), "inline");
}

#[test]
fn browse_params_normalize() {
    assert_eq!(clamp_usize(0, 1, 200), 1);
    assert_eq!(clamp_usize(50, 1, 200), 50);
    assert_eq!(clamp_usize(999, 1, 200), 200);

    let tokens = split_filter_list(" pdf , html ,, doc ", 20);
    assert_eq!(tokens, vec!["pdf".to_string(), "html".to_string(), "doc".to_string()]);
    let capped = split_filter_list("a,b,c", 2);
    assert_eq!(capped.len(), 2);
    assert_eq!(trim_spaces("  x y  "), "x y");
    assert_eq!(trim_spaces("   "), "");
}
