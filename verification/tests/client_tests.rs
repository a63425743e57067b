use windows_iso_downloader::client::{
    body_excerpt_in_bounds, check_api_errors, extract_ticks, finish_download_links, finish_skus,
    ClientError, COOKIE_HINT, HttpRequest, MsDownloadClient, USER_AGENT,
};
use windows_iso_downloader::types::{ApiError, DownloadOption, DownloadResponse, PageConfig, Sku};

fn client(cookie: Option<&str>) -> MsDownloadClient {
    MsDownloadClient {
        session_id: "11111111-2222-4333-8444-555555555555".to_string(),
        page_url: "https://www.microsoft.com/en-us/software-download/windows11".to_string(),
        cfg: PageConfig::default(),
        browser_cookie: cookie.map(|c| c.to_string()),
        debug: false,
    }
}

fn headers(r: &HttpRequest) -> Vec<(&str, &str)> {
    r.headers.iter().map(|(a, b)| (a.as_str(), b.as_str())).collect()
}

fn is_uuid_v4(s: &str) -> bool {
    let b = s.as_bytes();
    b.len() == 36
        && b.iter().enumerate().all(|(i, c)| {
            if [8, 13, 18, 23].contains(&i) {
                *c == b'-'
            } else {
                c.is_ascii_digit() || (b'a'..=b'f').contains(c)
            }
        })
        && b[14] == b'4'
        && b"89ab".contains(&b[19])
}

#[test]
fn start_opens_a_fresh_session() {
    let a = MsDownloadClient::start("https://p".to_string(), None, true);
    let b = MsDownloadClient::start("https://p".to_string(), Some("c=1".to_string()), false);
    assert!(is_uuid_v4(&a.session_id), "{}", a.session_id);
    assert!(is_uuid_v4(&b.session_id), "{}", b.session_id);
    assert_ne!(a.session_id, b.session_id);
    assert_eq!(a.page_url, "https://p");
    assert!(a.debug && !b.debug);
    assert_eq!(b.browser_cookie.as_deref(), Some("c=1"));
    assert_eq!(a.cfg.profile, "606624d44113");
    assert_eq!(a.cfg.instance_id, "560dc9f3-1aa5-4a2f-b63c-9e18f8d0e175");
    assert_eq!(a.cfg.org_id, "y6jn8c31");
    assert_eq!(a.cfg.api_base, "https://www.microsoft.com/software-download-connector/api");
    assert!(USER_AGENT.starts_with("Mozilla/5.0 (Macintosh; Intel Mac OS X"));
    assert!(USER_AGENT.contains("Chrome/"));
    assert!(!USER_AGENT.contains("Windows"));
}

#[test]
fn page_request_headers() {
    let r = client(None).page_request();
    assert_eq!(r.url, "https://www.microsoft.com/en-us/software-download/windows11");
    assert_eq!(
        headers(&r),
        vec![("accept", "text/html,*/*;q=0.8"), ("accept-language", "en-US,en;q=0.5")]
    );
}

#[test]
fn configure_from_page_takes_api_base_and_script() {
    let html = r#"<input type="hidden" id="endpoint-svc" value="https://api.example.com/connector//">
<script src="/a/sdsbase/v1/sdsbase/clientlibs/site.X.min.js"></script>"#;
    let mut c = client(None);
    let js = c.configure_from_page(html);
    assert_eq!(c.cfg.api_base, "https://api.example.com/connector");
    assert_eq!(js.as_deref(), Some("https://www.microsoft.com/a/sdsbase/v1/sdsbase/clientlibs/site.X.min.js"));
    c.configure_from_sds_js("profile\\x3dP1&instanceId\\x3dI-2&orgId:\"O3\"");
    assert_eq!(c.cfg.api_base, "https://api.example.com/connector");
    assert_eq!(c.cfg.profile, "P1");
    assert_eq!(c.cfg.instance_id, "I-2");
    assert_eq!(c.cfg.org_id, "O3");
}

#[test]
fn configure_from_page_without_inputs_keeps_defaults() {
    let mut c = client(None);
    assert_eq!(c.configure_from_page("<html></html>"), None);
    assert_eq!(c.cfg.api_base, "https://www.microsoft.com/software-download-connector/api");
}

#[test]
fn fingerprint_requests() {
    let c = client(None);
    let (js, frame) = c.vlsc_requests();
    assert_eq!(
        js.url,
        "https://vlscppe.microsoft.com/fp/tags.js?org_id=y6jn8c31&session_id=11111111-2222-4333-8444-555555555555"
    );
    assert_eq!(
        frame.url,
        "https://vlscppe.microsoft.com/tags?org_id=y6jn8c31&session_id=11111111-2222-4333-8444-555555555555"
    );
    assert_eq!(headers(&js), vec![("referer", c.page_url.as_str())]);
    let mdt = c.mdt_request();
    assert_eq!(
        mdt.url,
        "https://ov-df.microsoft.com/mdt.js?instanceId=560dc9f3-1aa5-4a2f-b63c-9e18f8d0e175&pageId=si&session_id=11111111-2222-4333-8444-555555555555"
    );
    assert_eq!(headers(&mdt), vec![("referer", c.page_url.as_str()), ("accept", "*/*")]);
    let fpt = c.fpt_request("8DE86C5F9B41AD4", 1700000000123);
    assert_eq!(
        fpt.url,
        "https://ov-df.microsoft.com/?session_id=11111111-2222-4333-8444-555555555555&CustomerId=560dc9f3-1aa5-4a2f-b63c-9e18f8d0e175&PageId=si&w=8DE86C5F9B41AD4&mdt=1700000000123&rticks=1700000000123"
    );
    assert_eq!(c.fpt_request("t", 0).url.ends_with("&w=t&mdt=0&rticks=0"), true);
}

#[test]
fn sku_request_url_and_headers() {
    let c = client(Some("MUID=1; fptctx2=2"));
    let r = c.sku_request("3321");
    assert_eq!(
        r.url,
        "https://www.microsoft.com/software-download-connector/api/getskuinformationbyproductedition?profile=606624d44113&ProductEditionId=3321&SKU=undefined&friendlyFileName=undefined&Locale=en-US&sessionID=11111111-2222-4333-8444-555555555555"
    );
    assert_eq!(
        headers(&r),
        vec![
            ("accept-language", "en-US,en;q=0.9"),
            ("referer", c.page_url.as_str()),
            ("X-Requested-With", "XMLHttpRequest"),
            ("Sec-Fetch-Site", "same-origin"),
            ("Sec-Fetch-Mode", "cors"),
            ("Sec-Fetch-Dest", "empty"),
            ("cookie", "MUID=1; fptctx2=2"),
        ]
    );
}

#[test]
fn download_links_request_url_and_headers() {
    let c = client(None);
    let r = c.download_links_request("9029");
    assert_eq!(
        r.url,
        "https://www.microsoft.com/software-download-connector/api/GetProductDownloadLinksBySku?profile=606624d44113&ProductEditionId=undefined&SKU=9029&friendlyFileName=undefined&Locale=en-US&sessionID=11111111-2222-4333-8444-555555555555"
    );
    let h = headers(&r);
    assert_eq!(h.len(), 7);
    assert_eq!(h[0], ("accept", "application/json, text/javascript, */*; q=0.01"));
    assert!(h.iter().all(|(n, _)| *n != "cookie"));
}

#[test]
fn ticks_from_the_w_parameter() {
    assert_eq!(extract_ticks("x?a=1&w=8DE86C5F9B41AD5&b=2"), "8DE86C5F9B41AD5");
    assert_eq!(extract_ticks("&w=zz"), "");
}

#[test]
fn ticks_from_the_field_or_default() {
    assert_eq!(extract_ticks("var o={ticks:'ABC123'};"), "ABC123");
    // a hex run that reaches the end falls through to the field
    assert_eq!(extract_ticks("ticks:'T1' &w=ABCDEF"), "T1");
    assert_eq!(extract_ticks("nothing here"), "8DE86C5F9B41AD4");
    assert_eq!(extract_ticks("ticks:'unterminated"), "8DE86C5F9B41AD4");
}

fn api_error(key: &str, value: &str, t: i32) -> ApiError {
    ApiError { key: key.to_string(), value: value.to_string(), error_type: t }
}

#[test]
fn api_errors_refuse_the_answer() {
    assert!(check_api_errors(None).is_ok());
    assert!(check_api_errors(Some(vec![])).is_ok());
    let err = check_api_errors(Some(vec![api_error("ErrorSettings.SentinelReject", "blocked", 9), api_error("k", "v", -2)]))
        .unwrap_err();
    assert_eq!(
        err.message(),
        "Microsoft API returned error(s):\n  [ErrorSettings.SentinelReject] blocked (type 9)\n  [k] v (type -2)\n\nMicrosoft may have blocked this session. Retry with your browser's cookies:\n  --cookie \"<Cookie header of a request to microsoft.com>\""
    );
    assert!(err.message().ends_with(COOKIE_HINT));
}

fn sku(id: &str) -> Sku {
    Sku { id: id.to_string(), language: "English".to_string(), localized_language: "English".to_string(), friendly_file_names: vec![] }
}

#[test]
fn finish_skus_outcomes() {
    let ok = finish_skus("{}", Some(vec![]), Some(vec![sku("1")])).unwrap();
    assert_eq!(ok.len(), 1);
    let e = finish_skus("{}", None, Some(vec![])).unwrap_err();
    assert!(matches!(e, ClientError::NoSkus));
    assert_eq!(e.message(), "No SKUs returned – the product edition ID may be invalid or expired");
    let e = finish_skus("not json", None, None).unwrap_err();
    assert_eq!(e.message(), "Failed to parse SKU JSON.\nBody (8 bytes): not json");
    let e = finish_skus("x", Some(vec![api_error("a", "b", 1)]), Some(vec![sku("1")])).unwrap_err();
    assert!(matches!(e, ClientError::Api { .. }));
}

#[test]
fn malformed_bodies_are_quoted_up_to_500_bytes() {
    let body = "y".repeat(600);
    assert!(body_excerpt_in_bounds(&body));
    let e = finish_skus(&body, None, None).unwrap_err();
    assert_eq!(e.message(), format!("Failed to parse SKU JSON.\nBody (600 bytes): {}", "y".repeat(500)));
    let split = format!("{}é", "a".repeat(499));
    assert!(!body_excerpt_in_bounds(&split));
}

#[test]
fn finish_download_links_outcomes() {
    let opt = DownloadOption {
        name: "Windows 11 English 64-bit".to_string(),
        uri: "https://cdn/x.iso".to_string(),
        language: "English".to_string(),
        download_type: 1,
    };
    let r = finish_download_links("{}", None, Some(DownloadResponse { product_download_options: vec![opt], download_expiration_datetime: None })).unwrap();
    assert_eq!(r.product_download_options[0].uri, "https://cdn/x.iso");
    let e = finish_download_links("{}", None, Some(DownloadResponse { product_download_options: vec![], download_expiration_datetime: None })).unwrap_err();
    assert_eq!(e.message(), "No download links returned – the SKU may be invalid");
    let e = finish_download_links("<html>", None, None).unwrap_err();
    assert_eq!(e.message(), "Failed to parse download JSON.\nBody (6 bytes): <html>");
}
