use std::collections::HashMap;
use windows_iso_downloader::hashes::{lookup_page_hash, parse_page_hashes, PageHashes};

const H1: &str = "768984706B909479417B2368438909440F2967FF05C6A9195ED2667254E465E3";

fn as_map(p: &PageHashes) -> HashMap<String, String> {
    p.pairs().into_iter().collect()
}

#[test]
fn parses_adjacent_cells() {
    let html = format!(
        "<table><tr><td>English 64-bit</td><td>{H1}</td></tr>\
         <tr><td> French 32-bit\n</td><td> {} </td></tr>\
         <tr><td>Bad</td><td>xyz</td></tr></table>",
        "A".repeat(64)
    );
    let map = as_map(&parse_page_hashes(&html));
    assert_eq!(map.len(), 2);
    assert_eq!(map["english 64-bit"], H1.to_ascii_lowercase());
    assert_eq!(map["french 32-bit"], "a".repeat(64));
}

#[test]
fn cells_on_separate_lines() {
    let html = format!("<td>English 64-bit</td>\n<td>{H1}</td>");
    let map = as_map(&parse_page_hashes(&html));
    assert_eq!(map.len(), 1);
    assert_eq!(map["english 64-bit"], H1.to_ascii_lowercase());
}

#[test]
fn white_space_between_cells() {
    let html = format!("<tr>\r\n  <td>English 64-bit</td> \t\r\n   <td>{H1}</td>\n</tr>");
    let map = as_map(&parse_page_hashes(&html));
    assert_eq!(map["english 64-bit"], H1.to_ascii_lowercase());
}

#[test]
fn text_between_cells_breaks_the_pair() {
    let html = format!("<td>English 64-bit</td> x <td>{H1}</td>");
    assert!(as_map(&parse_page_hashes(&html)).is_empty());
}

#[test]
fn digest_must_be_64_hex_digits() {
    let html = format!(
        "<td>a</td><td>{}</td><td>b</td><td>{}g</td><td>c</td><td>{}</td>",
        "0".repeat(63),
        "0".repeat(63),
        "0".repeat(64)
    );
    let map = as_map(&parse_page_hashes(&html));
    assert_eq!(map.len(), 1);
    assert_eq!(map["c"], "0".repeat(64));
}

#[test]
fn later_rows_replace_earlier_ones() {
    let html = format!(
        "<td>X 64-bit</td><td>{}</td><td>x 64-BIT</td><td>{}</td>",
        "1".repeat(64),
        "2".repeat(64)
    );
    let map = as_map(&parse_page_hashes(&html));
    assert_eq!(map.len(), 1);
    assert_eq!(map["x 64-bit"], "2".repeat(64));
}

#[test]
fn non_ascii_labels_keep_their_letters() {
    let html = format!("<td>Español 64-bit</td><td>{H1}</td>");
    let map = as_map(&parse_page_hashes(&html));
    assert!(map.contains_key("español 64-bit"));
}

#[test]
fn unterminated_cells_end_the_scan() {
    assert!(as_map(&parse_page_hashes("<td>English 64-bit")).is_empty());
    assert!(as_map(&parse_page_hashes("")).is_empty());
    let html = format!("<td>English 64-bit</td><td>{H1}");
    assert!(as_map(&parse_page_hashes(&html)).is_empty());
}

fn table() -> PageHashes {
    let mut t = PageHashes::new();
    t.insert("english 64-bit".to_string(), "a".repeat(64));
    t.insert("english international 32-bit".to_string(), "b".repeat(64));
    t.insert("french 64-bit".to_string(), "c".repeat(64));
    t
}

#[test]
fn lookup_exact_label() {
    let t = table();
    assert_eq!(lookup_page_hash(&t, "English", "Windows 11 English 64-bit"), Some("a".repeat(64)));
    assert_eq!(lookup_page_hash(&t, "FRENCH", "Win11_French_x64"), Some("c".repeat(64)));
}

#[test]
fn lookup_infers_32_bit_from_the_option_name() {
    let t = table();
    assert_eq!(lookup_page_hash(&t, "English", "Win10 32-bit"), Some("b".repeat(64)));
    assert_eq!(lookup_page_hash(&t, "English", "Win10 32 BIT"), Some("b".repeat(64)));
}

#[test]
fn lookup_missing() {
    let t = table();
    assert_eq!(lookup_page_hash(&t, "German", "x64"), None);
    assert_eq!(lookup_page_hash(&t, "French", "32-bit"), None);
    assert_eq!(lookup_page_hash(&PageHashes::new(), "English", "x64"), None);
}

#[test]
fn insert_replaces_and_get_reads_back() {
    let mut t = PageHashes::new();
    assert_eq!(t.get("k"), None);
    t.insert("k".to_string(), "1".to_string());
    t.insert("k".to_string(), "2".to_string());
    assert_eq!(t.get("k").as_deref(), Some("2"));
    assert_eq!(as_map(&t).len(), 1);
}

#[test]
fn lookup_fallback_takes_the_latest_matching_label() {
    let mut t = PageHashes::new();
    t.insert("english international 64-bit".to_string(), "1".repeat(64));
    t.insert("english (uk) 64-bit".to_string(), "2".repeat(64));
    t.insert("german 64-bit".to_string(), "3".repeat(64));
    assert_eq!(lookup_page_hash(&t, "English", "x64"), Some("2".repeat(64)));
    assert_eq!(t.find_labelled("english", "64-bit"), Some("2".repeat(64)));
}

#[test]
fn lookup_ignores_letter_case() {
    let t = table();
    for (lang, name) in [("English", "Win10 32-bit"), ("French", "x64"), ("German", "x64")] {
        let plain = lookup_page_hash(&t, lang, name);
        assert_eq!(plain, lookup_page_hash(&t, &lang.to_ascii_uppercase(), &name.to_ascii_uppercase()));
        assert_eq!(plain, lookup_page_hash(&t, &lang.to_ascii_lowercase(), &name.to_ascii_lowercase()));
    }
}
