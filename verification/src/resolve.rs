use vstd::prelude::*;

use crate::text::{
    contains_pattern, contains_seq, digits_of, digits_val, lemma_replace_absent, parse_usize,
    parses_as_usize, replace_all, replaced, substring_after_last, suffix_after_last,
};

verus! {

/// Everything the transfer engine needs to fetch one shared file: the
/// original share link, the rewritten direct-download URL, and the server's
/// declared filename, size and content identifier.
#[allow(non_snake_case)]
pub struct DownloadInfo {
    pub sessionUrl: String,
    pub downloadUrl: String,
    pub filename: String,
    pub fileSize: usize,
    pub etag: String,
}

/// Why a link resolution failed. Every resolution-stage failure is terminal
/// for that attempt; retries belong to the caller.
#[derive(Debug)]
pub enum ResolveError {
    /// No `FedAuth` cookie was accumulated while following the share link's
    /// redirects, so a direct-download request cannot authenticate.
    SessionCookieMissing,
    /// The rewritten download URL does not parse as a valid URL.
    InvalidDownloadUrl,
    /// The download URL answered with a non-success status.
    DownloadUrlUnreachable { status: u16, body: String },
    /// The response carried no parsable `Content-Length`.
    MissingFileSize,
    /// The response carried no `ETag`.
    MissingETag,
    /// The response carried no `Content-Disposition` to take a filename from.
    MissingFilename,
}

/// The viewer-to-download rewrite the sharing service documents: the path
/// segment `onedrive.aspx` becomes `download.aspx` and the query key `id=`
/// becomes `SourceUrl=`. Each replacement is a no-op when its substring is
/// absent.
pub open spec fn spec_rewrite(u: Seq<char>) -> Seq<char> {
    replaced(replaced(u, "onedrive.aspx"@, "download.aspx"@), "?id="@, "?SourceUrl="@)
}

/// Rewrites a resolved viewer URL into a direct-download URL.
pub fn rewrite_download_url(u: &str) -> (r: String)
    ensures
        r@ == spec_rewrite(u@),
{
    proof {
        reveal_strlit("onedrive.aspx");
        reveal_strlit("?id=");
    }
    let once = replace_all(u, "onedrive.aspx", "download.aspx");
    replace_all(once.as_str(), "?id=", "?SourceUrl=")
}

/// Rewriting a second time changes nothing when neither substring is left in
/// the first rewrite's result: each replacement of an absent substring is a
/// no-op, so the rewrite is idempotent on such URLs.
pub proof fn lemma_rewrite_idempotent(u: Seq<char>)
    requires
        !contains_seq(spec_rewrite(u), "onedrive.aspx"@),
        !contains_seq(spec_rewrite(u), "?id="@),
    ensures
        spec_rewrite(spec_rewrite(u)) == spec_rewrite(u),
{
    let r = spec_rewrite(u);
    lemma_replace_absent(r, "onedrive.aspx"@, "download.aspx"@);
    lemma_replace_absent(r, "?id="@, "?SourceUrl="@);
}

/// Some cookie in `names` is the `FedAuth` session cookie.
pub open spec fn has_fed_auth(names: Seq<Seq<char>>) -> bool {
    exists|i: int| 0 <= i < names.len() && names[i] == "FedAuth"@
}

/// Whether the accumulated cookies include the `FedAuth` session cookie.
pub fn find_fed_auth(cookie_names: &Vec<String>) -> (r: bool)
    ensures
        r == has_fed_auth(cookie_names.deep_view()),
{
    let fed: String = String::from_str("FedAuth");
    let n = cookie_names.len();
    let mut j: usize = 0;
    while j < n
        invariant
            j <= n,
            n == cookie_names.len(),
            fed@ == "FedAuth"@,
            forall|k: int| 0 <= k < j ==> cookie_names.deep_view()[k] != "FedAuth"@,
        decreases n - j,
    {
        if cookie_names[j].eq(&fed) {
            assert(cookie_names.deep_view()[j as int] == "FedAuth"@);
            return true;
        }
        j = j + 1;
    }
    false
}

/// Whether a string parses as a valid absolute URL.
pub uninterp spec fn url_parses(s: Seq<char>) -> bool;

/// Relies on `url::Url::parse`: whether a string parses as an absolute URL is
/// a function of the string alone.
#[verifier::external_body]
fn url_parse_ok(s: &str) -> (r: bool)
    ensures
        r == url_parses(s@),
{
    url::Url::parse(s).is_ok()
}

/// The first half of the resolution protocol, after the share link's
/// redirects have been followed: demand the `FedAuth` session cookie, rewrite
/// the final viewer URL into a direct-download URL, and demand that the
/// rewritten URL is still valid. Succeeds exactly when the cookie is present
/// and the rewritten URL parses; the caller then sends its `HEAD` request to
/// the returned URL, so a failed resolution issues no `HEAD` request at all.
pub fn prepare_download_request(final_url: &str, cookie_names: &Vec<String>) -> (r: Result<
    String,
    ResolveError,
>)
    ensures
        r == Err::<String, ResolveError>(ResolveError::SessionCookieMissing) <==> !has_fed_auth(
            cookie_names.deep_view(),
        ),
        r == Err::<String, ResolveError>(ResolveError::InvalidDownloadUrl) <==> (has_fed_auth(
            cookie_names.deep_view(),
        ) && !url_parses(spec_rewrite(final_url@))),
        r matches Ok(u) ==> u@ == spec_rewrite(final_url@) && url_parses(u@) && has_fed_auth(
            cookie_names.deep_view(),
        ),
        has_fed_auth(cookie_names.deep_view()) && url_parses(spec_rewrite(final_url@)) ==> r is Ok,
{
    if !find_fed_auth(cookie_names) {
        return Err(ResolveError::SessionCookieMissing);
    }
    let rewritten = rewrite_download_url(final_url);
    if !url_parse_ok(rewritten.as_str()) {
        return Err(ResolveError::InvalidDownloadUrl);
    }
    Ok(rewritten)
}

/// The `Content-Length` header parses as a byte count.
pub open spec fn cl_ok(content_length: Option<String>) -> bool {
    content_length matches Some(cl) && parses_as_usize(cl@)
}

/// The etag the engine records and compares: the raw `ETag` header value
/// with its surrounding pair of quote characters stripped. A value not
/// wrapped in quotes — a weak etag's quoted part stays inside its prefix —
/// is kept as it is.
pub open spec fn spec_etag_of(raw: Seq<char>) -> Seq<char> {
    if raw.len() >= 2 && raw.first() == '"' && raw.last() == '"' {
        raw.subrange(1, raw.len() - 1)
    } else {
        raw
    }
}

/// The filename the server declares, once a `filename=` token is known to
/// occur: the part of `Content-Disposition` after the last such token, with
/// every quote character removed.
pub open spec fn spec_filename_of(cd: Seq<char>) -> Seq<char> {
    replaced(suffix_after_last(cd, "filename="@), seq!['"'], seq![])
}

/// Strips the surrounding pair of quote characters, where there is one.
fn strip_surrounding_quotes(raw: &str) -> (r: String)
    ensures
        r@ == spec_etag_of(raw@),
{
    let n = raw.unicode_len();
    if n >= 2 && raw.get_char(0) == '"' && raw.get_char(n - 1) == '"' {
        raw.substring_char(1, n - 1).to_owned()
    } else {
        raw.to_owned()
    }
}

/// Strips every quote character from a header value.
fn strip_quotes(raw: &str) -> (r: String)
    ensures
        r@ == replaced(raw@, seq!['"'], seq![]),
{
    proof {
        reveal_strlit("\"");
        reveal_strlit("");
        assert("\""@ =~= seq!['"']);
        assert(""@ =~= Seq::<char>::empty());
    }
    replace_all(raw, "\"", "")
}

/// The second half of the resolution protocol: turn the `HEAD` response for
/// the download URL into a `DownloadInfo`, or the exact error that the
/// response forces. A non-success status is reported with the status and
/// body; then `Content-Length`, `ETag` and `Content-Disposition` are each
/// required in turn, and a `Content-Disposition` with no `filename=` token
/// is as unparsable as an absent one.
pub fn assemble_download_info(
    session_url: String,
    download_url: String,
    status: u16,
    body: String,
    content_length: Option<String>,
    etag: Option<String>,
    content_disposition: Option<String>,
) -> (r: Result<DownloadInfo, ResolveError>)
    ensures
        !(200 <= status < 300) ==> r == Err::<DownloadInfo, ResolveError>(
            (ResolveError::DownloadUrlUnreachable { status, body }),
        ),
        200 <= status < 300 && !cl_ok(content_length) ==> r == Err::<DownloadInfo, ResolveError>(
            ResolveError::MissingFileSize,
        ),
        200 <= status < 300 && cl_ok(content_length) && etag is None ==> r == Err::<
            DownloadInfo,
            ResolveError,
        >(ResolveError::MissingETag),
        200 <= status < 300 && cl_ok(content_length) && etag is Some && content_disposition is None
            ==> r == Err::<DownloadInfo, ResolveError>(ResolveError::MissingFilename),
        content_disposition matches Some(cd) ==> 200 <= status < 300 && cl_ok(content_length)
            && etag is Some && !contains_seq(cd@, "filename="@) ==> r == Err::<
            DownloadInfo,
            ResolveError,
        >(ResolveError::MissingFilename),
        content_length matches Some(cl) ==> etag matches Some(et) ==> content_disposition
            matches Some(cd) ==> 200 <= status < 300 ==> parses_as_usize(cl@) ==> contains_seq(
            cd@,
            "filename="@,
        ) ==> ({
            &&& r matches Ok(info)
            &&& info.sessionUrl == session_url
            &&& info.downloadUrl == download_url
            &&& info.fileSize == digits_val(digits_of(cl@))
            &&& info.etag@ == spec_etag_of(et@)
            &&& info.filename@ == spec_filename_of(cd@)
        }),
{
    if !status_is_success(status) {
        return Err(ResolveError::DownloadUrlUnreachable { status, body });
    }
    let file_size: usize = match content_length {
        Some(cl) => match parse_usize(cl.as_str()) {
            Some(v) => v,
            None => {
                return Err(ResolveError::MissingFileSize);
            },
        },
        None => {
            return Err(ResolveError::MissingFileSize);
        },
    };
    let etag_clean: String = match etag {
        Some(et) => strip_surrounding_quotes(et.as_str()),
        None => {
            return Err(ResolveError::MissingETag);
        },
    };
    let filename: String = match content_disposition {
        Some(cd) => {
            proof {
                reveal_strlit("filename=");
            }
            if !contains_pattern(cd.as_str(), "filename=") {
                return Err(ResolveError::MissingFilename);
            }
            let tail = substring_after_last(cd.as_str(), "filename=");
            strip_quotes(tail.as_str())
        },
        None => {
            return Err(ResolveError::MissingFilename);
        },
    };
    Ok(
        DownloadInfo {
            sessionUrl: session_url,
            downloadUrl: download_url,
            filename,
            fileSize: file_size,
            etag: etag_clean,
        },
    )
}

/// An HTTP status code counts as success exactly when it lies in the 2xx
/// range.
pub fn status_is_success(status: u16) -> (r: bool)
    ensures
        r == (200 <= status < 300),
{
    200 <= status && status < 300
}

} // verus!
