use windows_iso_downloader::download::MIB;
use windows_iso_downloader::edition::{EDITION_ARM64, PAGE_URL_ARM64, PAGE_URL_X64};
use windows_iso_downloader::hashes::PageHashes;
use windows_iso_downloader::service::{
    cache_expiry, cors_policy, edition_param, language_param, links_cache_expiry, links_params,
    links_result,
    resolve_edition_or_id, select_links_sku, session_for, should_cache, static_asset,
    upstream_error, CorsPolicy,
};
use windows_iso_downloader::types::{DownloadOption, DownloadResponse, Sku};

fn sku(id: &str, language: &str, localized: &str) -> Sku {
    Sku {
        id: id.to_string(),
        language: language.to_string(),
        localized_language: localized.to_string(),
        friendly_file_names: vec![format!("{id}.iso")],
    }
}

#[test]
fn alias_or_numeric_id() {
    assert_eq!(
        resolve_edition_or_id("ARM64").unwrap(),
        (EDITION_ARM64.to_string(), PAGE_URL_ARM64.to_string())
    );
    assert_eq!(resolve_edition_or_id("2935").unwrap(), ("2935".to_string(), PAGE_URL_X64.to_string()));
    assert_eq!(
        resolve_edition_or_id("12a").unwrap_err(),
        "Unknown edition '12a'. Use 'x64', 'arm64', 'win10', 'win11-cn-home', 'win11-cn-pro', or a numeric edition ID."
    );
    assert!(resolve_edition_or_id("").is_err());
}

#[test]
fn edition_and_language_parameters() {
    let e = edition_param(None).unwrap_err();
    assert_eq!((e.status, e.message.as_str()), (400, "Missing ?edition= parameter"));
    let e = edition_param(Some("nope")).unwrap_err();
    assert_eq!(e.status, 400);
    assert!(e.message.starts_with("Unknown edition 'nope'"));
    assert_eq!(edition_param(Some("x64")).unwrap().1, PAGE_URL_X64);
    let e = language_param(None).unwrap_err();
    assert_eq!((e.status, e.message.as_str()), (400, "Missing ?language= parameter"));
    assert_eq!(language_param(Some("English")).unwrap(), "English");
    let u = upstream_error("boom".to_string());
    assert_eq!((u.status, u.message.as_str()), (500, "boom"));
}

#[test]
fn links_sku_choice() {
    let skus = vec![
        sku("1", "English International", "English (International)"),
        sku("2", "English", "English (United States)"),
        sku("3", "French", "Français"),
    ];
    assert_eq!(select_links_sku(&skus, "english").unwrap(), 1);
    assert_eq!(select_links_sku(&skus, "FRANÇAIS").unwrap_err().status, 400);
    assert_eq!(select_links_sku(&skus, "français").unwrap(), 2);
    assert_eq!(select_links_sku(&skus, "Fren").unwrap(), 2);
}

#[test]
fn links_sku_prefix_only_on_language() {
    let skus = vec![sku("1", "German", "Deutsch")];
    let e = select_links_sku(&skus, "Deu").unwrap_err();
    assert_eq!(e.status, 400);
    assert_eq!(e.message, "Language 'Deu' not found. Available: German");
    let two = vec![sku("1", "German", "Deutsch"), sku("2", "Dutch", "Nederlands")];
    assert_eq!(
        select_links_sku(&two, "xx").unwrap_err().message,
        "Language 'xx' not found. Available: German, Dutch"
    );
}

#[test]
fn links_answer() {
    let s = sku("9", "English", "English (United States)");
    let resp = DownloadResponse {
        product_download_options: vec![
            DownloadOption { name: "A".to_string(), uri: "https://a".to_string(), language: "English".to_string(), download_type: 1 },
            DownloadOption { name: "B".to_string(), uri: "https://b".to_string(), language: "English".to_string(), download_type: 1 },
        ],
        download_expiration_datetime: Some("2030-01-01T00:00:00Z".to_string()),
    };
    let mut h = PageHashes::new();
    h.insert("english 64-bit".to_string(), "a".repeat(64));
    let r = links_result("x64", &s, resp, h);
    assert_eq!(r.edition, "x64");
    assert_eq!(r.language, "English");
    assert_eq!(r.localized_language, "English (United States)");
    assert_eq!(r.filename.as_deref(), Some("9.iso"));
    assert_eq!(r.expires_at.as_deref(), Some("2030-01-01T00:00:00Z"));
    assert_eq!(r.downloads.len(), 2);
    assert_eq!((r.downloads[1].name.as_str(), r.downloads[1].url.as_str()), ("B", "https://b"));
    assert_eq!(r.hashes.get("english 64-bit"), Some("a".repeat(64)));
}

#[test]
fn cache_expiry_and_decision() {
    assert_eq!(links_cache_expiry(Some("2024-01-01T00:00:00Z"), 5, 3600), Some(1704067200));
    assert_eq!(links_cache_expiry(Some("2024-01-01T01:00:00+01:00"), 5, 3600), Some(1704067200));
    assert_eq!(links_cache_expiry(Some("tomorrow"), 100, 3600), Some(3700));
    assert_eq!(links_cache_expiry(None, 100, 0), Some(100));
    assert_eq!(links_cache_expiry(None, i64::MAX, 1), None);
    assert!(should_cache(101, 100));
    assert!(!should_cache(100, 100));
}

#[test]
fn static_assets() {
    assert_eq!(static_asset("/"), ("index.html".to_string(), "text/html".to_string()));
    assert_eq!(static_asset("//assets/app.js"), ("assets/app.js".to_string(), "text/javascript".to_string()));
    assert_eq!(static_asset("/style.css").1, "text/css");
    assert_eq!(static_asset("/blob").1, "application/octet-stream");
}

#[test]
fn cors_policies() {
    assert!(matches!(cors_policy(&vec![]), CorsPolicy::SameOrigin));
    assert!(matches!(cors_policy(&vec!["https://a".to_string(), "*".to_string()]), CorsPolicy::Permissive));
    match cors_policy(&vec!["https://a".to_string()]) {
        CorsPolicy::AllowList(l) => assert_eq!(l, vec!["https://a".to_string()]),
        other => panic!("{other:?}"),
    }
}

#[test]
fn request_sessions() {
    let c = session_for(PAGE_URL_X64.to_string(), Some("k=v".to_string()));
    assert_eq!(c.page_url, PAGE_URL_X64);
    assert_eq!(c.browser_cookie.as_deref(), Some("k=v"));
    assert!(!c.debug);
    assert_eq!(c.session_id.len(), 36);
    let _ = MIB;
}

#[test]
fn links_parameters_refuse_in_order() {
    let e = links_params(None, None).unwrap_err();
    assert_eq!((e.status, e.message.as_str()), (400, "Missing ?edition= parameter"));
    let e = links_params(Some("nope"), None).unwrap_err();
    assert_eq!((e.status, e.message.as_str()), (400, "Missing ?language= parameter"));
    let e = links_params(Some("nope"), Some("English")).unwrap_err();
    assert_eq!(e.status, 400);
    assert!(e.message.starts_with("Unknown edition 'nope'"));
    let (id, page, lang) = links_params(Some("arm64"), Some("English")).unwrap();
    assert_eq!((id.as_str(), page.as_str(), lang.as_str()), (EDITION_ARM64, PAGE_URL_ARM64, "English"));
}

#[test]
fn cache_expiry_from_parsed_time() {
    assert_eq!(cache_expiry(Some(42), 100, 3600), Some(42));
    assert_eq!(cache_expiry(None, 100, 3600), Some(3700));
    assert_eq!(cache_expiry(None, i64::MAX, 1), None);
    assert_eq!(cache_expiry(None, i64::MIN, -1), None);
    assert_eq!(cache_expiry(Some(i64::MAX), i64::MAX, 1), Some(i64::MAX));
}
