use sharefetch::resolve::{
    assemble_download_info, prepare_download_request, rewrite_download_url, status_is_success,
    ResolveError,
};

fn cookies(names: &[&str]) -> Vec<String> {
    names.iter().map(|n| n.to_string()).collect()
}

#[test]
fn rewrite_replaces_both_substrings() {
    let u = "https://host.example/personal/u/onedrive.aspx?id=%2Fdocs%2Fa.zip";
    let r = rewrite_download_url(u);
    assert_eq!(
        r,
        "https://host.example/personal/u/download.aspx?SourceUrl=%2Fdocs%2Fa.zip"
    );
}

#[test]
fn rewrite_is_noop_when_substrings_absent() {
    let u = "https://host.example/other/page.aspx?q=1";
    assert_eq!(rewrite_download_url(u), u);
}

#[test]
fn rewrite_is_idempotent_on_rewritten_urls() {
    let u = "https://host.example/personal/u/onedrive.aspx?id=%2Fdocs%2Fa.zip";
    let once = rewrite_download_url(u);
    let twice = rewrite_download_url(&once);
    assert_eq!(twice, once);
}

#[test]
fn missing_fed_auth_fails_resolution() {
    let names = cookies(&["rtFa", "other"]);
    let r = prepare_download_request("https://host.example/onedrive.aspx?id=x", &names);
    assert!(matches!(r, Err(ResolveError::SessionCookieMissing)));
}

#[test]
fn no_cookies_at_all_fails_resolution() {
    let names = cookies(&[]);
    let r = prepare_download_request("https://host.example/onedrive.aspx?id=x", &names);
    assert!(matches!(r, Err(ResolveError::SessionCookieMissing)));
}

#[test]
fn fed_auth_present_yields_rewritten_url() {
    let names = cookies(&["rtFa", "FedAuth"]);
    let r = prepare_download_request("https://host.example/onedrive.aspx?id=x", &names).unwrap();
    assert_eq!(r, "https://host.example/download.aspx?SourceUrl=x");
}

#[test]
fn unparsable_rewritten_url_is_rejected() {
    let names = cookies(&["FedAuth"]);
    let r = prepare_download_request("not a url at all", &names);
    assert!(matches!(r, Err(ResolveError::InvalidDownloadUrl)));
}

fn ok_headers() -> (Option<String>, Option<String>, Option<String>) {
    (
        Some("1024".to_string()),
        Some("\"{3AB0F4}\"".to_string()),
        Some("attachment; filename=\"a.zip\"".to_string()),
    )
}

#[test]
fn assemble_happy_path() {
    let (cl, et, cd) = ok_headers();
    let info = assemble_download_info(
        "https://short.example/s".to_string(),
        "https://host.example/download.aspx?SourceUrl=x".to_string(),
        200,
        String::new(),
        cl,
        et,
        cd,
    )
    .unwrap();
    assert_eq!(info.sessionUrl, "https://short.example/s");
    assert_eq!(info.downloadUrl, "https://host.example/download.aspx?SourceUrl=x");
    assert_eq!(info.fileSize, 1024);
    assert_eq!(info.etag, "{3AB0F4}");
    assert_eq!(info.filename, "a.zip");
}

#[test]
fn content_disposition_filename_quotes_stripped() {
    let (cl, et, _) = ok_headers();
    let info = assemble_download_info(
        "s".to_string(),
        "d".to_string(),
        204,
        String::new(),
        cl,
        et,
        Some("attachment; filename=\"a.zip\"".to_string()),
    )
    .unwrap();
    assert_eq!(info.filename, "a.zip");
}

#[test]
fn unquoted_filename_kept_as_is() {
    let (cl, et, _) = ok_headers();
    let info = assemble_download_info(
        "s".to_string(),
        "d".to_string(),
        200,
        String::new(),
        cl,
        et,
        Some("attachment; filename=report.pdf".to_string()),
    )
    .unwrap();
    assert_eq!(info.filename, "report.pdf");
}

#[test]
fn non_success_status_is_unreachable_with_diagnostics() {
    let (cl, et, cd) = ok_headers();
    let r = assemble_download_info(
        "s".to_string(),
        "d".to_string(),
        403,
        "denied".to_string(),
        cl,
        et,
        cd,
    );
    match r {
        Err(ResolveError::DownloadUrlUnreachable { status, body }) => {
            assert_eq!(status, 403);
            assert_eq!(body, "denied");
        }
        _ => panic!("expected DownloadUrlUnreachable"),
    }
}

#[test]
fn absent_content_length_is_missing_file_size() {
    let (_, et, cd) = ok_headers();
    let r = assemble_download_info("s".to_string(), "d".to_string(), 200, String::new(), None, et, cd);
    assert!(matches!(r, Err(ResolveError::MissingFileSize)));
}

#[test]
fn unparsable_content_length_is_missing_file_size() {
    let (_, et, cd) = ok_headers();
    let r = assemble_download_info(
        "s".to_string(),
        "d".to_string(),
        200,
        String::new(),
        Some("12x4".to_string()),
        et,
        cd,
    );
    assert!(matches!(r, Err(ResolveError::MissingFileSize)));
}

#[test]
fn overflowing_content_length_is_missing_file_size() {
    let (_, et, cd) = ok_headers();
    let r = assemble_download_info(
        "s".to_string(),
        "d".to_string(),
        200,
        String::new(),
        Some("99999999999999999999999999999999".to_string()),
        et,
        cd,
    );
    assert!(matches!(r, Err(ResolveError::MissingFileSize)));
}

#[test]
fn absent_etag_is_missing_etag() {
    let (cl, _, cd) = ok_headers();
    let r = assemble_download_info("s".to_string(), "d".to_string(), 200, String::new(), cl, None, cd);
    assert!(matches!(r, Err(ResolveError::MissingETag)));
}

#[test]
fn weak_etag_keeps_interior_quotes() {
    let (cl, _, cd) = ok_headers();
    let info = assemble_download_info(
        "s".to_string(),
        "d".to_string(),
        200,
        String::new(),
        cl,
        Some("W/\"0x8D9\"".to_string()),
        cd,
    )
    .unwrap();
    assert_eq!(info.etag, "W/\"0x8D9\"");
}

#[test]
fn unquoted_etag_kept_as_is() {
    let (cl, _, cd) = ok_headers();
    let info = assemble_download_info(
        "s".to_string(),
        "d".to_string(),
        200,
        String::new(),
        cl,
        Some("0x8D9".to_string()),
        cd,
    )
    .unwrap();
    assert_eq!(info.etag, "0x8D9");
}

#[test]
fn content_disposition_without_filename_token_is_missing_filename() {
    let (cl, et, _) = ok_headers();
    let r = assemble_download_info(
        "s".to_string(),
        "d".to_string(),
        200,
        String::new(),
        cl,
        et,
        Some("attachment".to_string()),
    );
    assert!(matches!(r, Err(ResolveError::MissingFilename)));
}

#[test]
fn absent_content_disposition_is_missing_filename() {
    let (cl, et, _) = ok_headers();
    let r = assemble_download_info("s".to_string(), "d".to_string(), 200, String::new(), cl, et, None);
    assert!(matches!(r, Err(ResolveError::MissingFilename)));
}

#[test]
fn status_ranges() {
    assert!(status_is_success(200));
    assert!(status_is_success(204));
    assert!(status_is_success(299));
    assert!(!status_is_success(199));
    assert!(!status_is_success(300));
    assert!(!status_is_success(404));
}
