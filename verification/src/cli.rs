//! The decisions of the command-line downloader: the edition wizard, how an
//! edition is shown, which language is preselected, where the file goes, and
//! whether the downloaded file checks out.
use vstd::prelude::*;

use crate::edition::{
    self, filename_from_url, EDITION_ARM64, EDITION_CN_HOME, EDITION_CN_PRO, EDITION_WIN10,
    EDITION_X64, PAGE_URL_X64,
};
use crate::hashes::{self, lookup_page_hash, PageHashes};
use crate::text::{self, push_char, str_eq, to_ascii_lowercase};
use crate::types::Sku;

verus! {

broadcast use vstd::seq::group_seq_axioms;

/// The wizard's choices of Windows version, in the order shown: label and
/// edition alias.
pub fn wizard_choices() -> (r: Vec<(&'static str, &'static str)>)
    ensures
        r@.len() == 5,
        r@[0].0 == "Windows 11 (x64)",
        r@[1].0 == "Windows 11 (arm64)",
        r@[2].0 == "Windows 11 Home (China)",
        r@[3].0 == "Windows 11 Pro (China)",
        r@[4].0 == "Windows 10",
        r@[0].1 == "x64",
        r@[1].1 == "arm64",
        r@[2].1 == "win11-cn-home",
        r@[3].1 == "win11-cn-pro",
        r@[4].1 == "win10",
{
    vec![
        ("Windows 11 (x64)", "x64"),
        ("Windows 11 (arm64)", "arm64"),
        ("Windows 11 Home (China)", "win11-cn-home"),
        ("Windows 11 Pro (China)", "win11-cn-pro"),
        ("Windows 10", "win10"),
    ]
}

/// The edition and download page for a raw edition id: the given page, or
/// the Windows 11 x64 page.
pub fn explicit_edition(edition_id: &str, page_url: Option<&str>) -> (r: (String, String))
    ensures
        r.0@ == edition_id@,
        r.1@ == match page_url {
            Some(p) => p@,
            None => PAGE_URL_X64@,
        },
{
    let page = match page_url {
        Some(p) => p.to_owned(),
        None => PAGE_URL_X64.to_owned(),
    };
    (edition_id.to_owned(), page)
}

/// How an edition id is announced: operating system and architecture (or
/// market).
pub open spec fn edition_labels_spec(edition_id: Seq<char>) -> (Seq<char>, Seq<char>) {
    if edition_id == EDITION_X64@ {
        ("Windows 11"@, "x64"@)
    } else if edition_id == EDITION_ARM64@ {
        ("Windows 11"@, "arm64"@)
    } else if edition_id == EDITION_WIN10@ {
        ("Windows 10"@, "multi-edition"@)
    } else if edition_id == EDITION_CN_HOME@ {
        ("Windows 11 Home"@, "China"@)
    } else if edition_id == EDITION_CN_PRO@ {
        ("Windows 11 Pro"@, "China"@)
    } else {
        ("Windows"@, edition_id)
    }
}

/// The operating system and architecture that an edition id is announced
/// with; an unknown id is shown as itself.
pub fn edition_labels(edition_id: &str) -> (r: (String, String))
    ensures
        (r.0@, r.1@) == edition_labels_spec(edition_id@),
{
    if str_eq(edition_id, EDITION_X64) {
        (String::from_str("Windows 11"), String::from_str("x64"))
    } else if str_eq(edition_id, EDITION_ARM64) {
        (String::from_str("Windows 11"), String::from_str("arm64"))
    } else if str_eq(edition_id, EDITION_WIN10) {
        (String::from_str("Windows 10"), String::from_str("multi-edition"))
    } else if str_eq(edition_id, EDITION_CN_HOME) {
        (String::from_str("Windows 11 Home"), String::from_str("China"))
    } else if str_eq(edition_id, EDITION_CN_PRO) {
        (String::from_str("Windows 11 Pro"), String::from_str("China"))
    } else {
        (String::from_str("Windows"), edition_id.to_owned())
    }
}

/// The language preselected in the wizard: the first SKU whose language is
/// exactly `English`, else the first.
pub fn default_language_index(skus: &[Sku]) -> (r: usize)
    ensures
        (exists|i: int| 0 <= i < skus@.len() && (#[trigger] skus@[i]).language@ == "English"@)
            ==> r < skus@.len() && skus@[r as int].language@ == "English"@ && forall|j: int|
            0 <= j < r ==> (#[trigger] skus@[j]).language@ != "English"@,
        !(exists|i: int| 0 <= i < skus@.len() && (#[trigger] skus@[i]).language@ == "English"@)
            ==> r == 0,
{
    let mut i: usize = 0;
    while i < skus.len()
        invariant
            i <= skus@.len(),
            forall|j: int| 0 <= j < i ==> (#[trigger] skus@[j]).language@ != "English"@,
        decreases skus@.len() - i,
    {
        if str_eq(skus[i].language.as_str(), "English") {
            return i;
        }
        i += 1;
    }
    0
}

/// One line of the language list: the localized language padded to 30
/// characters, then the SKU id and its first file name.
pub open spec fn language_line(sku: Sku) -> Seq<char> {
    let name = sku.localized_language@;
    let padded = if name.len() < 30 {
        name + Seq::new((30 - name.len()) as nat, |i: int| ' ')
    } else {
        name
    };
    let file = if sku.friendly_file_names@.len() > 0 {
        sku.friendly_file_names@[0]@
    } else {
        Seq::empty()
    };
    "  "@ + padded + " (id: "@ + sku.id@ + ", file: "@ + file + ")"@
}

/// The line of the language list for `sku`.
pub fn language_list_line(sku: &Sku) -> (r: String)
    ensures
        r@ == language_line(*sku),
{
    let mut s = String::from_str("  ");
    s.append(sku.localized_language.as_str());
    let n = sku.localized_language.as_str().unicode_len();
    let ghost name = sku.localized_language@;
    let mut k = n;
    while k < 30
        invariant
            n == name.len(),
            n <= k <= 30 || (k == n && n >= 30),
            s@ == "  "@ + name + Seq::new((k - n) as nat, |i: int| ' '),
        decreases 30 - k,
    {
        push_char(&mut s, ' ');
        k += 1;
        assert(s@ =~= "  "@ + name + Seq::new((k - n) as nat, |i: int| ' '));
    }
    proof {
        if n >= 30 {
            assert(s@ =~= "  "@ + name);
        }
    }
    s.append(" (id: ");
    s.append(sku.id.as_str());
    s.append(", file: ");
    if sku.friendly_file_names.len() > 0 {
        s.append(sku.friendly_file_names[0].as_str());
    }
    s.append(")");
    s
}

/// The name the downloaded file is saved under: the SKU's first file name,
/// else the last path segment of the link.
pub fn iso_file_name(sku: &Sku, uri: &str) -> (r: String)
    ensures
        r@ == if sku.friendly_file_names@.len() > 0 {
            sku.friendly_file_names@[0]@
        } else {
            edition::url_file_name(uri@)
        },
{
    if sku.friendly_file_names.len() > 0 {
        sku.friendly_file_names[0].clone()
    } else {
        filename_from_url(uri)
    }
}

/// The digest the download is checked against: the one given on the command
/// line, lower-cased, else the one the page publishes for the language and
/// option.
pub fn expected_hash(
    verify: Option<&str>,
    page_hashes: &PageHashes,
    language: &str,
    option_name: &str,
) -> (r: Option<String>)
    ensures
        verify matches Some(v) ==> (r matches Some(h) && h@ == text::lower(v@)),
        verify is None ==> hashes::string_view(r) == hashes::page_hash_lookup(
            *page_hashes,
            language@,
            option_name@,
        ),
        verify is None && page_hashes@.contains_key(hashes::exact_label(language@, option_name@))
            ==> (r matches Some(h) && h@ == page_hashes@[hashes::exact_label(
            language@,
            option_name@,
        )]),
        verify is None && !page_hashes@.contains_key(hashes::exact_label(language@, option_name@))
            ==> (r is Some <==> exists|k: Seq<char>|
            #![trigger page_hashes@.contains_key(k)]
            page_hashes@.contains_key(k) && text::has_prefix(k, text::lower(language@))
                && text::has_suffix(k, hashes::arch_label(option_name@))),
{
    match verify {
        Some(v) => Some(to_ascii_lowercase(v)),
        None => lookup_page_hash(page_hashes, language, option_name),
    }
}

/// How the check of a downloaded file came out.
#[derive(Debug, Clone, Copy, PartialEq, Eq)]
pub enum HashVerdict {
    /// The digest equals the expected one.
    Verified,
    /// The digest differs from the expected one.
    Mismatch,
    /// There was no digest, or nothing to compare it with.
    Unchecked,
}

/// A computed digest is verified exactly when it equals the expected one.
pub fn hash_verdict(computed: Option<&str>, expected: Option<&str>) -> (r: HashVerdict)
    ensures
        match (computed, expected) {
            (Some(c), Some(e)) => if c@ == e@ {
                r == HashVerdict::Verified
            } else {
                r == HashVerdict::Mismatch
            },
            _ => r == HashVerdict::Unchecked,
        },
{
    match (computed, expected) {
        (Some(c), Some(e)) => if str_eq(c, e) {
            HashVerdict::Verified
        } else {
            HashVerdict::Mismatch
        },
        _ => HashVerdict::Unchecked,
    }
}

} // verus!
