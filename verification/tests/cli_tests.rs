use windows_iso_downloader::cli::{
    default_language_index, edition_labels, expected_hash, explicit_edition, hash_verdict,
    iso_file_name, language_list_line, wizard_choices, HashVerdict,
};
use windows_iso_downloader::edition::{resolve_edition, PAGE_URL_X64};
use windows_iso_downloader::hashes::PageHashes;
use windows_iso_downloader::types::Sku;

fn sku(id: &str, language: &str, localized: &str, files: &[&str]) -> Sku {
    Sku {
        id: id.to_string(),
        language: language.to_string(),
        localized_language: localized.to_string(),
        friendly_file_names: files.iter().map(|f| f.to_string()).collect(),
    }
}

#[test]
fn wizard_offers_every_edition() {
    let choices = wizard_choices();
    let keys: Vec<&str> = choices.iter().map(|c| c.1).collect();
    assert_eq!(keys, vec!["x64", "arm64", "win11-cn-home", "win11-cn-pro", "win10"]);
    let labels: Vec<&str> = choices.iter().map(|c| c.0).collect();
    assert_eq!(
        labels,
        vec![
            "Windows 11 (x64)",
            "Windows 11 (arm64)",
            "Windows 11 Home (China)",
            "Windows 11 Pro (China)",
            "Windows 10"
        ]
    );
    for (_, key) in choices {
        assert!(resolve_edition(key).is_ok());
    }
}

#[test]
fn explicit_edition_defaults_to_the_x64_page() {
    assert_eq!(explicit_edition("2618", None), ("2618".to_string(), PAGE_URL_X64.to_string()));
    assert_eq!(explicit_edition("2618", Some("https://p")).1, "https://p");
}

#[test]
fn edition_labels_per_id() {
    let l = |id: &str| {
        let (a, b) = edition_labels(id);
        (a, b)
    };
    assert_eq!(l("3321"), ("Windows 11".to_string(), "x64".to_string()));
    assert_eq!(l("3324"), ("Windows 11".to_string(), "arm64".to_string()));
    assert_eq!(l("2618"), ("Windows 10".to_string(), "multi-edition".to_string()));
    assert_eq!(l("3322"), ("Windows 11 Home".to_string(), "China".to_string()));
    assert_eq!(l("3323"), ("Windows 11 Pro".to_string(), "China".to_string()));
    assert_eq!(l("9999"), ("Windows".to_string(), "9999".to_string()));
}

#[test]
fn english_is_preselected() {
    let skus = vec![sku("1", "Arabic", "a", &[]), sku("2", "English", "e", &[]), sku("3", "English", "e2", &[])];
    assert_eq!(default_language_index(&skus), 1);
    assert_eq!(default_language_index(&skus[..1]), 0);
    assert_eq!(default_language_index(&[sku("1", "english", "e", &[])]), 0);
}

#[test]
fn language_list_lines() {
    let s = sku("5585", "English", "English", &["Win11_24H2_English_x64.iso"]);
    assert_eq!(
        language_list_line(&s),
        format!("  {:<30} (id: {}, file: {})", "English", "5585", "Win11_24H2_English_x64.iso")
    );
    let long = sku("1", "X", &"y".repeat(40), &[]);
    assert_eq!(language_list_line(&long), format!("  {} (id: 1, file: )", "y".repeat(40)));
    let accented = sku("2", "F", "Français", &[]);
    assert_eq!(language_list_line(&accented), format!("  {:<30} (id: 2, file: )", "Français"));
}

#[test]
fn iso_file_names() {
    let s = sku("1", "English", "English", &["Win11.iso", "other.iso"]);
    assert_eq!(iso_file_name(&s, "https://x/y/z.iso?a=b"), "Win11.iso");
    let s = sku("1", "English", "English", &[]);
    assert_eq!(iso_file_name(&s, "https://x/y/z.iso?a=b"), "z.iso");
}

#[test]
fn expected_hash_sources() {
    let mut t = PageHashes::new();
    t.insert("english 64-bit".to_string(), "b".repeat(64));
    assert_eq!(expected_hash(Some("ABCDEF"), &t, "English", "64-bit"), Some("abcdef".to_string()));
    assert_eq!(expected_hash(None, &t, "English", "Windows 11 64-bit"), Some("b".repeat(64)));
    assert_eq!(expected_hash(None, &t, "German", "64-bit"), None);
}

#[test]
fn verdicts() {
    let h = "a".repeat(64);
    assert_eq!(hash_verdict(Some(&h), Some(&h)), HashVerdict::Verified);
    assert_eq!(hash_verdict(Some(&h), Some("b")), HashVerdict::Mismatch);
    assert_eq!(hash_verdict(Some(&h), None), HashVerdict::Unchecked);
    assert_eq!(hash_verdict(None, Some(&h)), HashVerdict::Unchecked);
}
