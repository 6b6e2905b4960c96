use stupidownloader::filename::{clear, filename_from, is_white_space, parse};
use stupidownloader::outcome::DownloadError;
use stupidownloader::probe::{parse_u64, ranges_supported, DownloadTask};

#[test]
fn parse_decimal_numbers() {
    assert_eq!(parse_u64("0"), Some(0));
    assert_eq!(parse_u64("10485760"), Some(10485760));
    assert_eq!(parse_u64("+42"), Some(42));
    assert_eq!(parse_u64("007"), Some(7));
    assert_eq!(parse_u64("18446744073709551615"), Some(u64::MAX));
    assert_eq!(parse_u64("18446744073709551616"), None);
    assert_eq!(parse_u64(""), None);
    assert_eq!(parse_u64("+"), None);
    assert_eq!(parse_u64("-1"), None);
    assert_eq!(parse_u64("12a"), None);
    assert_eq!(parse_u64(" 12"), None);
    for s in ["1", "99", "+3", "x", "4294967296"] {
        assert_eq!(parse_u64(s), s.parse::<u64>().ok());
    }
}

#[test]
fn accept_ranges_value() {
    assert!(ranges_supported(Some(b"bytes")));
    assert!(!ranges_supported(Some(b"none")));
    assert!(!ranges_supported(Some(b"Bytes")));
    assert!(!ranges_supported(Some(b"bytes ")));
    assert!(!ranges_supported(None));
}

#[test]
fn probe_builds_task() {
    let task = DownloadTask::from_headers(
        "http://example.com/a.zip".to_string(),
        "a.zip".to_string(),
        Some("10485760"),
        Some(b"bytes"),
    )
    .unwrap();
    assert_eq!(task.url(), "http://example.com/a.zip");
    assert_eq!(task.output(), "a.zip");
    assert_eq!(task.total_size(), 10485760);
    assert!(task.supports_range());
    assert_eq!(task.chunks().len(), 256);
}

#[test]
fn probe_rejects_unusable_size() {
    for cl in [None, Some("0"), Some("abc"), Some("")] {
        let r = DownloadTask::from_headers("u".to_string(), "o".to_string(), cl, Some(b"bytes"));
        assert!(matches!(r, Err(DownloadError::InvalidResponse)));
    }
}

#[test]
fn clear_replaces_forbidden_characters() {
    assert_eq!(clear("a/b\\c:d*e?f\"g<h>i|j"), "a_b_c_d_e_f_g_h_i_j");
    assert_eq!(clear("report.pdf"), "report.pdf");
}

#[test]
fn clear_trims_space_then_leading_dots() {
    assert_eq!(clear("  ..hidden.txt \t"), "hidden.txt");
    assert_eq!(clear(". a"), " a");
    assert_eq!(clear("..."), "");
    assert_eq!(clear("\u{3000}名前\u{a0}"), "名前");
    assert_eq!(clear(""), "");
}

#[test]
fn white_space_matches_std() {
    for u in 0u32..0x3100 {
        if let Some(c) = char::from_u32(u) {
            assert_eq!(is_white_space(c), c.is_whitespace(), "{u:#x}");
        }
    }
}

#[test]
fn disposition_plain_and_encoded() {
    assert_eq!(parse("attachment; filename=\"a%20b.txt\""), Some("a b.txt".to_string()));
    assert_eq!(parse("attachment; filename*=UTF-8''na%C3%AFve.txt"), Some("naïve.txt".to_string()));
    assert_eq!(parse("attachment;filename= \"x.zip\" "), Some("x.zip".to_string()));
    assert_eq!(parse("inline"), None);
    assert_eq!(parse(""), None);
    assert_eq!(parse("attachment; filename*=broken; filename=ok.txt"), Some("ok.txt".to_string()));
    assert_eq!(parse("filename*=a'b'c'd"), Some("c'd".to_string()));
    assert_eq!(parse("attachment; filename=%FF.bin"), Some("\u{FFFD}.bin".to_string()));
}

#[test]
fn name_from_headers_and_path() {
    assert_eq!(
        filename_from(Some("attachment; filename=\"report.pdf\""), Some("application/pdf"), "/x/y.bin"),
        "report.pdf.pdf"
    );
    assert_eq!(
        filename_from(None, Some("text/html; charset=utf-8"), "/docs/index.htm"),
        "index.html"
    );
    assert_eq!(filename_from(None, None, "/dir/my%20file.tar.gz"), "my file.tar.gz");
    assert_eq!(filename_from(None, None, "/"), "Download.bin");
    assert_eq!(filename_from(None, Some("application/octet-stream"), ""), "Download.octet-stream");
    assert_eq!(filename_from(Some("inline"), None, "/a/b:c.txt"), "b_c.txt");
    assert_eq!(filename_from(None, None, "/files/.hidden"), "hidden.bin");
}
