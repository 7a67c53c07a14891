use idm_core::checksum::{verify_checksum, ChecksumRequest, ChecksumType};
use idm_core::dest::{
    default_dest_dir, filename_from_content_disposition, filename_from_url, percent_decode_ascii,
    resolve_dest_path, sanitize_filename,
};
use idm_core::net::{
    accept_ranges_is_bytes, cookie_header_value, parse_content_length, range_header_value,
    DownloadRequest, DownloadResponse,
};
use idm_core::resolver::{
    build_google_drive_direct, detect_provider, is_html_content_type, resolve_google_drive_id,
    resolve_html_download, resolve_pixeldrain, resolve_url_candidates, Provider,
};
use idm_core::strutil::str_chars;
use idm_core::task::{TaskId, TaskStatus};
use idm_core::transfer::{probe_decision, ProbeAction};

#[test]
fn provider_detection_by_host() {
    assert_eq!(detect_provider("https://pixeldrain.com/d/abc"), Provider::Pixeldrain);
    assert_eq!(detect_provider("https://WWW.PIXELDRAIN.COM/d/abc"), Provider::Pixeldrain);
    assert_eq!(detect_provider("https://drive.google.com/file/d/xyz/view"), Provider::GoogleDrive);
    assert_eq!(detect_provider("https://docs.google.com/uc?id=xyz"), Provider::GoogleDrive);
    assert_eq!(detect_provider("https://www.mediafire.com/file/q"), Provider::Mediafire);
    assert_eq!(detect_provider("https://mega.nz/file/q"), Provider::Mega);
    assert_eq!(detect_provider("https://example.com/a"), Provider::Unknown);
    assert_eq!(detect_provider("not a url"), Provider::Unknown);
}

#[test]
fn html_content_types() {
    assert!(is_html_content_type(Some("text/html; charset=utf-8")));
    assert!(is_html_content_type(Some("Application/XHTML+xml")));
    assert!(!is_html_content_type(Some("application/octet-stream")));
    assert!(!is_html_content_type(None));
}

#[test]
fn pixeldrain_share_link_rewrites() {
    assert_eq!(
        resolve_pixeldrain("https://pixeldrain.com/d/abc123").as_deref(),
        Some("https://pixeldrain.com/api/filesystem/abc123")
    );
    assert_eq!(resolve_pixeldrain("https://pixeldrain.com/u/abc123"), None);
    assert_eq!(resolve_pixeldrain("https://example.com/d/abc123"), None);
}

#[test]
fn candidate_list_starts_with_rewrite() {
    let urls = vec!["https://pixeldrain.com/d/abc123".to_string()];
    let out = resolve_url_candidates(urls);
    assert_eq!(out.len(), 2);
    assert_eq!(out[0], "https://pixeldrain.com/api/filesystem/abc123");
    assert_eq!(out[1], "https://pixeldrain.com/d/abc123");
}

#[test]
fn google_drive_id_from_path_and_query() {
    assert_eq!(
        resolve_google_drive_id("https://drive.google.com/file/d/FILEID/view").as_deref(),
        Some("FILEID")
    );
    assert_eq!(
        resolve_google_drive_id("https://drive.google.com/open?id=QUERYID").as_deref(),
        Some("QUERYID")
    );
    assert_eq!(resolve_google_drive_id("https://example.com/file/d/FILEID"), None);
    assert_eq!(
        build_google_drive_direct("FILEID"),
        "https://drive.google.com/uc?export=download&id=FILEID"
    );
}

#[test]
fn candidates_deduplicate_in_order() {
    let urls = vec![
        "https://a.example/x".to_string(),
        "https://b.example/y".to_string(),
        "https://a.example/x".to_string(),
    ];
    let out = resolve_url_candidates(urls);
    assert_eq!(out, vec!["https://a.example/x".to_string(), "https://b.example/y".to_string()]);
}

#[test]
fn mediafire_scrape_prefers_button_href() {
    let html = "<a href=\"https://download1.mediafire.com/xyz/file.bin\" class=\"downloadButton\">Download</a>";
    let out = resolve_html_download(html, "https://www.mediafire.com/file/q/file.bin");
    assert_eq!(out, vec!["https://download1.mediafire.com/xyz/file.bin".to_string()]);
}

#[test]
fn google_drive_scrape_builds_confirm_link() {
    let html = "<form>confirm=TOKEN123&amp;</form>";
    let out = resolve_html_download(html, "https://drive.google.com/file/d/FILEID/view");
    assert_eq!(
        out,
        vec!["https://drive.google.com/uc?export=download&confirm=TOKEN123&id=FILEID".to_string()]
    );
}

#[test]
fn generic_scrape_falls_back_to_meta_video() {
    let html = "<meta property=\"og:video\" content=\"https://cdn.example/v.mp4\">";
    let out = resolve_html_download(html, "https://example.com/watch");
    assert_eq!(out, vec!["https://cdn.example/v.mp4".to_string()]);
    let html2 = "<a href=\"https://files.example/download/v.bin\">get</a>";
    let out2 = resolve_html_download(html2, "https://example.com/page");
    assert_eq!(out2, vec!["https://files.example/download/v.bin".to_string()]);
}

#[test]
fn probe_decisions() {
    let ok = DownloadResponse {
        status_code: 200,
        total_bytes: Some(10),
        accept_ranges: false,
        content_type: Some("application/octet-stream".to_string()),
        content_disposition: None,
    };
    assert_eq!(probe_decision("https://example.com/f", &ok), ProbeAction::AcceptCandidate);
    let html = DownloadResponse {
        status_code: 200,
        total_bytes: None,
        accept_ranges: false,
        content_type: Some("text/html".to_string()),
        content_disposition: None,
    };
    assert_eq!(probe_decision("https://example.com/f", &html), ProbeAction::ScrapePage);
    assert_eq!(probe_decision("https://mega.nz/file/q", &html), ProbeAction::RejectUnsupported);
    let missing = DownloadResponse {
        status_code: 404,
        total_bytes: None,
        accept_ranges: false,
        content_type: None,
        content_disposition: None,
    };
    assert_eq!(probe_decision("https://example.com/f", &missing), ProbeAction::SkipCandidate);
}

#[test]
fn percent_decoding() {
    assert_eq!(percent_decode_ascii("My%20File%20(1).bin"), "My File (1).bin");
    assert_eq!(percent_decode_ascii("a%2Fb"), "a_b");
    assert_eq!(percent_decode_ascii("plain"), "plain");
    assert_eq!(percent_decode_ascii("bad%zz"), "bad%zz");
}

#[test]
fn sanitizing_filenames() {
    assert_eq!(sanitize_filename("My File (1).bin"), "My File (1).bin");
    assert_eq!(sanitize_filename("a//b??c"), "a_b_c");
    assert_eq!(sanitize_filename("  ._  "), "download.bin");
    assert_eq!(sanitize_filename("a+b"), "a b");
}

#[test]
fn filename_from_url_decodes() {
    assert_eq!(
        filename_from_url("https://host/path/My%20File%20(1).bin").as_deref(),
        Some("My File (1).bin")
    );
    assert_eq!(filename_from_url("https://host/dir/"), None);
}

#[test]
fn content_disposition_prefers_star() {
    assert_eq!(
        filename_from_content_disposition(Some("attachment; filename=\"plain.bin\"")).as_deref(),
        Some("plain.bin")
    );
    assert_eq!(
        filename_from_content_disposition(
            Some("attachment; filename=\"plain.bin\"; filename*=UTF-8''fancy%20name.bin")
        )
        .as_deref(),
        Some("fancy name.bin")
    );
    assert_eq!(filename_from_content_disposition(Some("inline")), None);
    assert_eq!(filename_from_content_disposition(None), None);
}

#[test]
fn destination_inference_uses_default_dir() {
    let dest = resolve_dest_path(
        "",
        "https://host/path/My%20File%20(1).bin",
        None,
        false,
        "/downloads-dir",
    );
    assert_eq!(dest, "/downloads-dir/My File (1).bin");
}

#[test]
fn destination_keeps_explicit_file_path() {
    let dest = resolve_dest_path("/tmp/out.bin", "https://host/f.bin", None, false, "/dl");
    assert_eq!(dest, "/tmp/out.bin");
    let into_dir = resolve_dest_path("/tmp/dir/", "https://host/f.bin", None, false, "/dl");
    assert_eq!(into_dir, "/tmp/dir/f.bin");
    let existing_dir = resolve_dest_path("/tmp/dir", "https://host/f.bin", None, true, "/dl");
    assert_eq!(existing_dir, "/tmp/dir/f.bin");
}

#[test]
fn destination_prefers_content_disposition() {
    let dest = resolve_dest_path(
        "",
        "https://host/from-url.bin",
        Some("attachment; filename=\"from-header.bin\""),
        false,
        "/dl",
    );
    assert_eq!(dest, "/dl/from-header.bin");
}

#[test]
fn default_dir_fallback_chain() {
    assert_eq!(default_dest_dir(Some("/custom"), true, true, Some("/home/u"), true, true), "/custom");
    assert_eq!(
        default_dest_dir(None, true, false, Some("/home/u"), true, false),
        "/storage/emulated/0/Download"
    );
    assert_eq!(default_dest_dir(None, false, true, None, false, false), "/sdcard/Download");
    assert_eq!(
        default_dest_dir(None, false, false, Some("/home/u"), true, false),
        "/home/u/Downloads"
    );
    assert_eq!(
        default_dest_dir(None, false, false, Some("/home/u"), false, true),
        "/home/u/downloads"
    );
    assert_eq!(default_dest_dir(None, false, false, Some("/home/u"), false, false), "/tmp");
}

#[test]
fn cookie_and_range_headers() {
    let cookies = vec![
        ("a".to_string(), "1".to_string()),
        ("b".to_string(), "2".to_string()),
    ];
    assert_eq!(cookie_header_value(&cookies), "a=1; b=2");
    let one = vec![("k".to_string(), "v".to_string())];
    assert_eq!(cookie_header_value(&one), "k=v");
    assert_eq!(cookie_header_value(&Vec::new()), "");
    assert_eq!(range_header_value(0, 1023), "bytes=0-1023");
    assert_eq!(range_header_value(140, 199), "bytes=140-199");
}

#[test]
fn content_length_parses_like_the_header() {
    assert_eq!(parse_content_length("0"), Some(0));
    assert_eq!(parse_content_length("1048576"), Some(1048576));
    assert_eq!(parse_content_length("+42"), Some(42));
    assert_eq!(parse_content_length("18446744073709551615"), Some(u64::MAX));
    assert_eq!(parse_content_length("18446744073709551616"), None);
    assert_eq!(parse_content_length(""), None);
    assert_eq!(parse_content_length("+"), None);
    assert_eq!(parse_content_length("12a"), None);
    assert_eq!(parse_content_length("-5"), None);
}

#[test]
fn accept_ranges_compares_case_insensitively() {
    assert!(accept_ranges_is_bytes("bytes"));
    assert!(accept_ranges_is_bytes("Bytes"));
    assert!(accept_ranges_is_bytes("BYTES"));
    assert!(!accept_ranges_is_bytes("none"));
    assert!(!accept_ranges_is_bytes(""));
}

#[test]
fn request_starts_plain() {
    let req = DownloadRequest::new("https://example.com/f".to_string(), "IDM-Open/0.1".to_string());
    assert_eq!(req.url, "https://example.com/f");
    assert!(req.headers.is_empty());
    assert!(req.range.is_none());
}

#[test]
fn digests_match_known_values() {
    let data = b"abc".to_vec();
    let md5 = ChecksumRequest {
        checksum_type: ChecksumType::Md5,
        expected_hex: "900150983cd24fb0d6963f7d28e17f72".to_string(),
    };
    assert!(verify_checksum(&data, &md5));
    let sha1 = ChecksumRequest {
        checksum_type: ChecksumType::Sha1,
        expected_hex: "A9993E364706816ABA3E25717850C26C9CD0D89D".to_string(),
    };
    assert!(verify_checksum(&data, &sha1));
    let sha256 = ChecksumRequest {
        checksum_type: ChecksumType::Sha256,
        expected_hex: "ba7816bf8f01cfea414140de5dae2223b00361a396177a9cb410ff61f20015ad".to_string(),
    };
    assert!(verify_checksum(&data, &sha256));
}

#[test]
fn checksum_mismatch_detected() {
    let data = b"abcdefghij".to_vec();
    let wrong = ChecksumRequest {
        checksum_type: ChecksumType::Sha256,
        expected_hex: "0000000000000000000000000000000000000000000000000000000000000000"
            .to_string(),
    };
    assert!(!verify_checksum(&data, &wrong));
}

#[test]
fn status_names_round_trip() {
    for s in [
        TaskStatus::Queued,
        TaskStatus::Active,
        TaskStatus::Paused,
        TaskStatus::Completed,
        TaskStatus::Failed,
        TaskStatus::Canceled,
    ] {
        assert_eq!(TaskStatus::from_str(s.as_str()), Some(s));
    }
    assert_eq!(TaskStatus::from_str("unknown"), None);
    for c in [ChecksumType::Md5, ChecksumType::Sha1, ChecksumType::Sha256] {
        assert_eq!(ChecksumType::from_str(c.as_str()), Some(c));
    }
}

#[test]
fn task_id_canonical_round_trip() {
    let id = TaskId::from_bits(0x0123_4567_89ab_cdef_0f1e_2d3c_4b5a_6978);
    let text = id.to_canonical();
    assert_eq!(text, "01234567-89ab-cdef-0f1e-2d3c4b5a6978");
    assert_eq!(TaskId::parse_str(&text), Some(id));
    assert_eq!(TaskId::parse_str("not-an-id"), None);
    assert_eq!(TaskId::parse_str("01234567-89ab-cdef-0f1e-2d3c4b5a697"), None);
    let chars = str_chars(&text);
    assert_eq!(chars.len(), 36);
}
