use windows_iso_downloader::page::{
    extract_from_sds_js, extract_hidden_input, extract_sds_js_url,
};

#[test]
fn hidden_input_value_is_trimmed() {
    let html = r#"<div><input type="hidden" id="endpoint-svc" value=" https://example.com/api/ " /></div>"#;
    assert_eq!(
        extract_hidden_input(html, "endpoint-svc").as_deref(),
        Some("https://example.com/api/")
    );
}

#[test]
fn hidden_input_missing_or_empty() {
    let html = r#"<input id="other" value="x"><input id="endpoint-svc" value="   ">"#;
    assert_eq!(extract_hidden_input(html, "endpoint-svc"), None);
    assert_eq!(extract_hidden_input(html, "absent"), None);
    assert_eq!(extract_hidden_input(html, "other").as_deref(), Some("x"));
}

#[test]
fn hidden_input_value_must_lie_within_300_bytes() {
    let far = format!(r#"<input id="k" {} value="v">"#, "x".repeat(300));
    assert_eq!(extract_hidden_input(&far, "k"), None);
    let near = format!(r#"<input id="k" {} value="v">"#, "x".repeat(100));
    assert_eq!(extract_hidden_input(&near, "k").as_deref(), Some("v"));
}

#[test]
fn hidden_input_window_ending_inside_a_character() {
    // The 300-byte window from `id="x"` ends inside the `é` on bytes 299..301.
    let html = format!("id=\"x\" value=\"v\"{}é", "a".repeat(283));
    assert_eq!(extract_hidden_input(&html, "x").as_deref(), Some("v"));
    let cut = format!("id=\"x\"{}é value=\"v\"", "a".repeat(293));
    assert_eq!(extract_hidden_input(&cut, "x"), None);
}

#[test]
fn hidden_input_before_multibyte_text() {
    let html = format!(r#"<input id="ab" value="v1">{}"#, "é".repeat(200));
    assert_eq!(extract_hidden_input(&html, "ab").as_deref(), Some("v1"));
}

#[test]
fn sds_url_after_multibyte_text() {
    let html = format!(
        r#"{}<p><script src="/sdsbase/v1/sdsbase/clientlibs/site.X.min.js"></script>"#,
        "é".repeat(200)
    );
    assert_eq!(
        extract_sds_js_url(&html).as_deref(),
        Some("https://www.microsoft.com/sdsbase/v1/sdsbase/clientlibs/site.X.min.js")
    );
}

#[test]
fn sds_tail_ending_inside_a_character() {
    let html = format!(
        r#"<script src="/sdsbase/v1/sdsbase/clientlibs/site.min.js">{}"#,
        "é".repeat(100)
    );
    assert_eq!(
        extract_sds_js_url(&html).as_deref(),
        Some("https://www.microsoft.com/sdsbase/v1/sdsbase/clientlibs/site.min.js")
    );
}

#[test]
fn sds_url_from_relative_path() {
    let html = r#"<head><script src="/etc.clientlibs/sds/components/content/sdsbase/v1/sdsbase/clientlibs/site.ACSHASH1234.min.js"></script></head>"#;
    assert_eq!(
        extract_sds_js_url(html).as_deref(),
        Some("https://www.microsoft.com/etc.clientlibs/sds/components/content/sdsbase/v1/sdsbase/clientlibs/site.ACSHASH1234.min.js")
    );
}

#[test]
fn sds_url_absolute_is_kept() {
    let html = r#"<script src="https://cdn.example.com/sdsbase/v1/sdsbase/clientlibs/site.min.js"></script>"#;
    assert_eq!(
        extract_sds_js_url(html).as_deref(),
        Some("https://cdn.example.com/sdsbase/v1/sdsbase/clientlibs/site.min.js")
    );
}

#[test]
fn sds_url_skips_markers_without_min_js() {
    let html = r#"<link href="/x/sdsbase/v1/sdsbase/clientlibs/site.css"><script src="/y/sdsbase/v1/sdsbase/clientlibs/site.ABC.min.js"></script>"#;
    assert_eq!(
        extract_sds_js_url(html).as_deref(),
        Some("https://www.microsoft.com/y/sdsbase/v1/sdsbase/clientlibs/site.ABC.min.js")
    );
}

#[test]
fn sds_url_absent() {
    assert_eq!(extract_sds_js_url("<html></html>"), None);
    let no_src = "<p>sdsbase/v1/sdsbase/clientlibs/site.min.js</p>";
    assert_eq!(extract_sds_js_url(no_src), None);
}

#[test]
fn sds_js_identifiers() {
    let js = r#"var a="https://x/?profile\x3dABCdef123&y";c={instanceId=1234-abcd;},d={orgId:"",orgId:"zz9"}"#;
    let cfg = extract_from_sds_js(js);
    assert_eq!(cfg.profile, "ABCdef123");
    assert_eq!(cfg.instance_id, "1234-abcd");
    assert_eq!(cfg.org_id, "zz9");
    assert_eq!(cfg.api_base, "https://www.microsoft.com/software-download-connector/api");
}

#[test]
fn sds_js_plain_markers_and_defaults() {
    let js = "profile=p1;instanceId\\x3d;";
    let cfg = extract_from_sds_js(js);
    assert_eq!(cfg.profile, "p1");
    // an empty run keeps the built-in value
    assert_eq!(cfg.instance_id, "560dc9f3-1aa5-4a2f-b63c-9e18f8d0e175");
    assert_eq!(cfg.org_id, "y6jn8c31");
}

#[test]
fn sds_js_escaped_marker_wins_over_plain() {
    let js = "profile=first;profile\\x3dsecond;";
    assert_eq!(extract_from_sds_js(js).profile, "second");
}

#[test]
fn sds_js_run_reaching_the_end_keeps_the_default() {
    let cfg = extract_from_sds_js("profile=abc");
    assert_eq!(cfg.profile, "606624d44113");
}
