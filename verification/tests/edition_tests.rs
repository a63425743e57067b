use windows_iso_downloader::edition::{
    filename_from_url, find_sku_by_language, resolve_edition, LookupError, EDITION_ARM64,
    EDITION_CN_HOME, EDITION_CN_PRO, EDITION_WIN10, EDITION_X64, PAGE_URL_ARM64, PAGE_URL_WIN10,
    PAGE_URL_X64,
};
use windows_iso_downloader::types::Sku;

fn sku(id: &str, language: &str, localized: &str) -> Sku {
    Sku {
        id: id.to_string(),
        language: language.to_string(),
        localized_language: localized.to_string(),
        friendly_file_names: vec![format!("Win_{language}.iso")],
    }
}

#[test]
fn resolve_x64_aliases() {
    for alias in ["x64", "x86_64", "amd64", "64", "win11", "win11-x64"] {
        assert_eq!(resolve_edition(alias).unwrap(), (EDITION_X64, PAGE_URL_X64), "{alias}");
    }
}

#[test]
fn resolve_arm64_aliases() {
    for alias in ["arm64", "arm", "aarch64", "win11-arm64"] {
        assert_eq!(resolve_edition(alias).unwrap(), (EDITION_ARM64, PAGE_URL_ARM64), "{alias}");
    }
}

#[test]
fn resolve_win10_aliases() {
    for alias in ["win10", "windows10", "10"] {
        assert_eq!(resolve_edition(alias).unwrap(), (EDITION_WIN10, PAGE_URL_WIN10), "{alias}");
    }
}

#[test]
fn resolve_china_editions_use_the_x64_page() {
    assert_eq!(resolve_edition("win11-cn-home").unwrap(), (EDITION_CN_HOME, PAGE_URL_X64));
    assert_eq!(resolve_edition("cn-home").unwrap(), (EDITION_CN_HOME, PAGE_URL_X64));
    assert_eq!(resolve_edition("win11-cn-pro").unwrap(), (EDITION_CN_PRO, PAGE_URL_X64));
    assert_eq!(resolve_edition("cn-pro").unwrap(), (EDITION_CN_PRO, PAGE_URL_X64));
}

#[test]
fn resolve_ignores_ascii_case() {
    assert_eq!(resolve_edition("WIN11-ARM64").unwrap(), resolve_edition("win11-arm64").unwrap());
    assert_eq!(resolve_edition("Win10").unwrap(), (EDITION_WIN10, PAGE_URL_WIN10));
    assert_eq!(resolve_edition("AMD64").unwrap(), (EDITION_X64, PAGE_URL_X64));
}

#[test]
fn edition_constants_are_the_published_ids() {
    assert_eq!(EDITION_WIN10, "2618");
    assert_eq!(EDITION_X64, "3321");
    assert_eq!(EDITION_ARM64, "3324");
    assert_eq!(EDITION_CN_HOME, "3322");
    assert_eq!(EDITION_CN_PRO, "3323");
    assert_eq!(PAGE_URL_X64, "https://www.microsoft.com/en-us/software-download/windows11");
}

#[test]
fn resolve_unknown_edition_is_an_error() {
    let err = resolve_edition("win12").unwrap_err();
    match &err {
        LookupError::UnknownEdition { input } => assert_eq!(input, "win12"),
        other => panic!("unexpected error {other:?}"),
    }
    assert_eq!(
        err.message(),
        "Unknown edition 'win12'. Use 'x64', 'arm64', 'win10', 'win11-cn-home', 'win11-cn-pro', or --edition-id <N>."
    );
    assert!(resolve_edition("").is_err());
    assert!(resolve_edition(" x64").is_err());
}

#[test]
fn find_sku_exact_language_ignoring_case() {
    let skus = vec![sku("1", "Arabic", "العربية"), sku("2", "English", "English (United States)")];
    assert_eq!(find_sku_by_language(&skus, "english").unwrap().id, "2");
    assert_eq!(find_sku_by_language(&skus, "ARABIC").unwrap().id, "1");
}

#[test]
fn find_sku_prefers_exact_over_prefix() {
    let skus = vec![
        sku("1", "English International", "English (International)"),
        sku("2", "English", "English (United States)"),
    ];
    assert_eq!(find_sku_by_language(&skus, "English").unwrap().id, "2");
}

#[test]
fn find_sku_by_localized_language() {
    let skus = vec![sku("1", "French", "Français"), sku("2", "German", "Deutsch")];
    assert_eq!(find_sku_by_language(&skus, "deutsch").unwrap().id, "2");
    assert_eq!(find_sku_by_language(&skus, "Français").unwrap().id, "1");
}

#[test]
fn find_sku_by_prefix_of_either_name() {
    let skus = vec![
        sku("1", "Chinese Simplified", "中文(简体)"),
        sku("2", "Portuguese", "Português (Brasil)"),
    ];
    assert_eq!(find_sku_by_language(&skus, "chinese").unwrap().id, "1");
    assert_eq!(find_sku_by_language(&skus, "Português").unwrap().id, "2");
}

#[test]
fn find_sku_missing_language() {
    let skus = vec![sku("1", "French", "Français")];
    let err = find_sku_by_language(&skus, "Klingon").unwrap_err();
    assert_eq!(
        err.message(),
        "Language 'Klingon' not found. Run with --list-languages to see options."
    );
    assert!(find_sku_by_language(&[], "English").is_err());
}

#[test]
fn filename_is_the_last_segment_before_the_query() {
    assert_eq!(
        filename_from_url("https://software.download.prss.microsoft.com/dbazure/Win11_24H2_English_x64.iso?t=abc&e=1/2"),
        "Win11_24H2_English_x64.iso"
    );
    assert_eq!(filename_from_url("https://example.com/a/b/c.iso"), "c.iso");
}

#[test]
fn filename_edge_cases() {
    assert_eq!(filename_from_url("plain.iso"), "plain.iso");
    assert_eq!(filename_from_url("https://example.com/dir/"), "");
    assert_eq!(filename_from_url("?only=query"), "");
    assert_eq!(filename_from_url(""), "");
}
