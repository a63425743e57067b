//! Windows editions by alias, languages by name, and the file name of a
//! download link.
use vstd::prelude::*;

use crate::text::{self, str_eq, to_ascii_lowercase};
use crate::types::Sku;

verus! {

// ── Known edition constants ────────────────────────────────────────────────

pub const PAGE_URL_WIN10: &'static str =
    "https://www.microsoft.com/en-us/software-download/windows10ISO";

pub const PAGE_URL_X64: &'static str = "https://www.microsoft.com/en-us/software-download/windows11";

pub const PAGE_URL_ARM64: &'static str =
    "https://www.microsoft.com/en-us/software-download/windows11arm64";

pub const EDITION_WIN10: &'static str = "2618";

pub const EDITION_X64: &'static str = "3321";

pub const EDITION_ARM64: &'static str = "3324";

pub const EDITION_CN_HOME: &'static str = "3322";

pub const EDITION_CN_PRO: &'static str = "3323";

/// Why a named edition or a language could not be found.
#[derive(Debug, Clone)]
pub enum LookupError {
    /// The edition alias is none of the known ones.
    UnknownEdition { input: String },
    /// No SKU is in the requested language.
    LanguageNotFound { language: String },
}

pub open spec fn unknown_edition_text(input: Seq<char>) -> Seq<char> {
    "Unknown edition '"@ + input
        + "'. Use 'x64', 'arm64', 'win10', 'win11-cn-home', 'win11-cn-pro', or --edition-id <N>."@
}

pub open spec fn language_not_found_text(language: Seq<char>) -> Seq<char> {
    "Language '"@ + language + "' not found. Run with --list-languages to see options."@
}

impl LookupError {
    pub open spec fn text(self) -> Seq<char> {
        match self {
            LookupError::UnknownEdition { input } => unknown_edition_text(input@),
            LookupError::LanguageNotFound { language } => language_not_found_text(language@),
        }
    }

    /// The text a user sees for the error.
    pub fn message(&self) -> (r: String)
        ensures
            r@ == self.text(),
    {
        match self {
            LookupError::UnknownEdition { input } => {
                let mut s = String::from_str("Unknown edition '");
                s.append(input.as_str());
                s.append(
                    "'. Use 'x64', 'arm64', 'win10', 'win11-cn-home', 'win11-cn-pro', or --edition-id <N>.",
                );
                s
            },
            LookupError::LanguageNotFound { language } => {
                let mut s = String::from_str("Language '");
                s.append(language.as_str());
                s.append("' not found. Run with --list-languages to see options.");
                s
            },
        }
    }
}

/// The (edition id, download page) that a lower-cased alias names.
pub open spec fn edition_for_alias(a: Seq<char>) -> Option<(&'static str, &'static str)> {
    if a == "x64"@ || a == "x86_64"@ || a == "amd64"@ || a == "64"@ || a == "win11"@ || a
        == "win11-x64"@ {
        Some((EDITION_X64, PAGE_URL_X64))
    } else if a == "arm64"@ || a == "arm"@ || a == "aarch64"@ || a == "win11-arm64"@ {
        Some((EDITION_ARM64, PAGE_URL_ARM64))
    } else if a == "win10"@ || a == "windows10"@ || a == "10"@ {
        Some((EDITION_WIN10, PAGE_URL_WIN10))
    } else if a == "win11-cn-home"@ || a == "cn-home"@ {
        Some((EDITION_CN_HOME, PAGE_URL_X64))
    } else if a == "win11-cn-pro"@ || a == "cn-pro"@ {
        Some((EDITION_CN_PRO, PAGE_URL_X64))
    } else {
        None
    }
}

/// Resolves an edition alias, in any ASCII letter case, to its edition id
/// and download page.
pub fn resolve_edition(input: &str) -> (r: Result<(&'static str, &'static str), LookupError>)
    ensures
        match edition_for_alias(text::lower(input@)) {
            Some(found) => r == Ok::<(&'static str, &'static str), LookupError>(found),
            None => r matches Err(LookupError::UnknownEdition { input: i }) && i@ == input@,
        },
{
    let lowered = to_ascii_lowercase(input);
    let a = lowered.as_str();
    if str_eq(a, "x64") || str_eq(a, "x86_64") || str_eq(a, "amd64") || str_eq(a, "64") || str_eq(
        a,
        "win11",
    ) || str_eq(a, "win11-x64") {
        Ok((EDITION_X64, PAGE_URL_X64))
    } else if str_eq(a, "arm64") || str_eq(a, "arm") || str_eq(a, "aarch64") || str_eq(
        a,
        "win11-arm64",
    ) {
        Ok((EDITION_ARM64, PAGE_URL_ARM64))
    } else if str_eq(a, "win10") || str_eq(a, "windows10") || str_eq(a, "10") {
        Ok((EDITION_WIN10, PAGE_URL_WIN10))
    } else if str_eq(a, "win11-cn-home") || str_eq(a, "cn-home") {
        Ok((EDITION_CN_HOME, PAGE_URL_X64))
    } else if str_eq(a, "win11-cn-pro") || str_eq(a, "cn-pro") {
        Ok((EDITION_CN_PRO, PAGE_URL_X64))
    } else {
        Err(LookupError::UnknownEdition { input: input.to_owned() })
    }
}

/// Aliases that differ only in ASCII letter case resolve alike.
pub proof fn lemma_resolve_edition_ignores_case(a: Seq<char>, b: Seq<char>)
    requires
        text::lower(a) == text::lower(b),
    ensures
        edition_for_alias(text::lower(a)) == edition_for_alias(text::lower(b)),
{
}

/// The alias table: each documented alias names its edition and page.
pub proof fn lemma_alias_table()
    ensures
        edition_for_alias("x64"@) == Some((EDITION_X64, PAGE_URL_X64)),
        edition_for_alias("x86_64"@) == Some((EDITION_X64, PAGE_URL_X64)),
        edition_for_alias("amd64"@) == Some((EDITION_X64, PAGE_URL_X64)),
        edition_for_alias("64"@) == Some((EDITION_X64, PAGE_URL_X64)),
        edition_for_alias("win11"@) == Some((EDITION_X64, PAGE_URL_X64)),
        edition_for_alias("win11-x64"@) == Some((EDITION_X64, PAGE_URL_X64)),
        edition_for_alias("arm64"@) == Some((EDITION_ARM64, PAGE_URL_ARM64)),
        edition_for_alias("arm"@) == Some((EDITION_ARM64, PAGE_URL_ARM64)),
        edition_for_alias("aarch64"@) == Some((EDITION_ARM64, PAGE_URL_ARM64)),
        edition_for_alias("win11-arm64"@) == Some((EDITION_ARM64, PAGE_URL_ARM64)),
        edition_for_alias("win10"@) == Some((EDITION_WIN10, PAGE_URL_WIN10)),
        edition_for_alias("windows10"@) == Some((EDITION_WIN10, PAGE_URL_WIN10)),
        edition_for_alias("10"@) == Some((EDITION_WIN10, PAGE_URL_WIN10)),
        edition_for_alias("win11-cn-home"@) == Some((EDITION_CN_HOME, PAGE_URL_X64)),
        edition_for_alias("cn-home"@) == Some((EDITION_CN_HOME, PAGE_URL_X64)),
        edition_for_alias("win11-cn-pro"@) == Some((EDITION_CN_PRO, PAGE_URL_X64)),
        edition_for_alias("cn-pro"@) == Some((EDITION_CN_PRO, PAGE_URL_X64)),
{
    assert(edition_for_alias("x64"@) == Some((EDITION_X64, PAGE_URL_X64))) by {
        reveal_strlit("x64");
       
    }
    assert(edition_for_alias("x86_64"@) == Some((EDITION_X64, PAGE_URL_X64))) by {
        reveal_strlit("x86_64"); reveal_strlit("x64");
        assert("x86_64"@.len() != "x64"@.len());
    }
    assert(edition_for_alias("amd64"@) == Some((EDITION_X64, PAGE_URL_X64))) by {
        reveal_strlit("amd64"); reveal_strlit("x64"); reveal_strlit("x86_64");
        assert("amd64"@.len() != "x64"@.len()); assert("amd64"@.len() != "x86_64"@.len());
    }
    assert(edition_for_alias("64"@) == Some((EDITION_X64, PAGE_URL_X64))) by {
        reveal_strlit("64"); reveal_strlit("x64"); reveal_strlit("x86_64"); reveal_strlit("amd64");
        assert("64"@.len() != "x64"@.len()); assert("64"@.len() != "x86_64"@.len()); assert("64"@.len() != "amd64"@.len());
    }
    assert(edition_for_alias("win11"@) == Some((EDITION_X64, PAGE_URL_X64))) by {
        reveal_strlit("win11"); reveal_strlit("x64"); reveal_strlit("x86_64"); reveal_strlit("amd64"); reveal_strlit("64");
        assert("win11"@.len() != "x64"@.len()); assert("win11"@.len() != "x86_64"@.len()); assert("win11"@[0] != "amd64"@[0]); assert("win11"@.len() != "64"@.len());
    }
    assert(edition_for_alias("win11-x64"@) == Some((EDITION_X64, PAGE_URL_X64))) by {
        reveal_strlit("win11-x64"); reveal_strlit("x64"); reveal_strlit("x86_64"); reveal_strlit("amd64"); reveal_strlit("64"); reveal_strlit("win11");
        assert("win11-x64"@.len() != "x64"@.len()); assert("win11-x64"@.len() != "x86_64"@.len()); assert("win11-x64"@.len() != "amd64"@.len()); assert("win11-x64"@.len() != "64"@.len()); assert("win11-x64"@.len() != "win11"@.len());
    }
    assert(edition_for_alias("arm64"@) == Some((EDITION_ARM64, PAGE_URL_ARM64))) by {
        reveal_strlit("arm64"); reveal_strlit("x64"); reveal_strlit("x86_64"); reveal_strlit("amd64"); reveal_strlit("64"); reveal_strlit("win11"); reveal_strlit("win11-x64");
        assert("arm64"@.len() != "x64"@.len()); assert("arm64"@.len() != "x86_64"@.len()); assert("arm64"@[1] != "amd64"@[1]); assert("arm64"@.len() != "64"@.len()); assert("arm64"@[0] != "win11"@[0]); assert("arm64"@.len() != "win11-x64"@.len());
    }
    assert(edition_for_alias("arm"@) == Some((EDITION_ARM64, PAGE_URL_ARM64))) by {
        reveal_strlit("arm"); reveal_strlit("x64"); reveal_strlit("x86_64"); reveal_strlit("amd64"); reveal_strlit("64"); reveal_strlit("win11"); reveal_strlit("win11-x64"); reveal_strlit("arm64");
        assert("arm"@[0] != "x64"@[0]); assert("arm"@.len() != "x86_64"@.len()); assert("arm"@.len() != "amd64"@.len()); assert("arm"@.len() != "64"@.len()); assert("arm"@.len() != "win11"@.len()); assert("arm"@.len() != "win11-x64"@.len()); assert("arm"@.len() != "arm64"@.len());
    }
    assert(edition_for_alias("aarch64"@) == Some((EDITION_ARM64, PAGE_URL_ARM64))) by {
        reveal_strlit("aarch64"); reveal_strlit("x64"); reveal_strlit("x86_64"); reveal_strlit("amd64"); reveal_strlit("64"); reveal_strlit("win11"); reveal_strlit("win11-x64"); reveal_strlit("arm64"); reveal_strlit("arm");
        assert("aarch64"@.len() != "x64"@.len()); assert("aarch64"@.len() != "x86_64"@.len()); assert("aarch64"@.len() != "amd64"@.len()); assert("aarch64"@.len() != "64"@.len()); assert("aarch64"@.len() != "win11"@.len()); assert("aarch64"@.len() != "win11-x64"@.len()); assert("aarch64"@.len() != "arm64"@.len()); assert("aarch64"@.len() != "arm"@.len());
    }
    assert(edition_for_alias("win11-arm64"@) == Some((EDITION_ARM64, PAGE_URL_ARM64))) by {
        reveal_strlit("win11-arm64"); reveal_strlit("x64"); reveal_strlit("x86_64"); reveal_strlit("amd64"); reveal_strlit("64"); reveal_strlit("win11"); reveal_strlit("win11-x64"); reveal_strlit("arm64"); reveal_strlit("arm"); reveal_strlit("aarch64");
        assert("win11-arm64"@.len() != "x64"@.len()); assert("win11-arm64"@.len() != "x86_64"@.len()); assert("win11-arm64"@.len() != "amd64"@.len()); assert("win11-arm64"@.len() != "64"@.len()); assert("win11-arm64"@.len() != "win11"@.len()); assert("win11-arm64"@.len() != "win11-x64"@.len()); assert("win11-arm64"@.len() != "arm64"@.len()); assert("win11-arm64"@.len() != "arm"@.len()); assert("win11-arm64"@.len() != "aarch64"@.len());
    }
    assert(edition_for_alias("win10"@) == Some((EDITION_WIN10, PAGE_URL_WIN10))) by {
        reveal_strlit("win10"); reveal_strlit("x64"); reveal_strlit("x86_64"); reveal_strlit("amd64"); reveal_strlit("64"); reveal_strlit("win11"); reveal_strlit("win11-x64"); reveal_strlit("arm64"); reveal_strlit("arm"); reveal_strlit("aarch64"); reveal_strlit("win11-arm64");
        assert("win10"@.len() != "x64"@.len()); assert("win10"@.len() != "x86_64"@.len()); assert("win10"@[0] != "amd64"@[0]); assert("win10"@.len() != "64"@.len()); assert("win10"@[4] != "win11"@[4]); assert("win10"@.len() != "win11-x64"@.len()); assert("win10"@[0] != "arm64"@[0]); assert("win10"@.len() != "arm"@.len()); assert("win10"@.len() != "aarch64"@.len()); assert("win10"@.len() != "win11-arm64"@.len());
    }
    assert(edition_for_alias("windows10"@) == Some((EDITION_WIN10, PAGE_URL_WIN10))) by {
        reveal_strlit("windows10"); reveal_strlit("x64"); reveal_strlit("x86_64"); reveal_strlit("amd64"); reveal_strlit("64"); reveal_strlit("win11"); reveal_strlit("win11-x64"); reveal_strlit("arm64"); reveal_strlit("arm"); reveal_strlit("aarch64"); reveal_strlit("win11-arm64"); reveal_strlit("win10");
        assert("windows10"@.len() != "x64"@.len()); assert("windows10"@.len() != "x86_64"@.len()); assert("windows10"@.len() != "amd64"@.len()); assert("windows10"@.len() != "64"@.len()); assert("windows10"@.len() != "win11"@.len()); assert("windows10"@[3] != "win11-x64"@[3]); assert("windows10"@.len() != "arm64"@.len()); assert("windows10"@.len() != "arm"@.len()); assert("windows10"@.len() != "aarch64"@.len()); assert("windows10"@.len() != "win11-arm64"@.len()); assert("windows10"@.len() != "win10"@.len());
    }
    assert(edition_for_alias("10"@) == Some((EDITION_WIN10, PAGE_URL_WIN10))) by {
        reveal_strlit("10"); reveal_strlit("x64"); reveal_strlit("x86_64"); reveal_strlit("amd64"); reveal_strlit("64"); reveal_strlit("win11"); reveal_strlit("win11-x64"); reveal_strlit("arm64"); reveal_strlit("arm"); reveal_strlit("aarch64"); reveal_strlit("win11-arm64"); reveal_strlit("win10"); reveal_strlit("windows10");
        assert("10"@.len() != "x64"@.len()); assert("10"@.len() != "x86_64"@.len()); assert("10"@.len() != "amd64"@.len()); assert("10"@[0] != "64"@[0]); assert("10"@.len() != "win11"@.len()); assert("10"@.len() != "win11-x64"@.len()); assert("10"@.len() != "arm64"@.len()); assert("10"@.len() != "arm"@.len()); assert("10"@.len() != "aarch64"@.len()); assert("10"@.len() != "win11-arm64"@.len()); assert("10"@.len() != "win10"@.len()); assert("10"@.len() != "windows10"@.len());
    }
    assert(edition_for_alias("win11-cn-home"@) == Some((EDITION_CN_HOME, PAGE_URL_X64))) by {
        reveal_strlit("win11-cn-home"); reveal_strlit("x64"); reveal_strlit("x86_64"); reveal_strlit("amd64"); reveal_strlit("64"); reveal_strlit("win11"); reveal_strlit("win11-x64"); reveal_strlit("arm64"); reveal_strlit("arm"); reveal_strlit("aarch64"); reveal_strlit("win11-arm64"); reveal_strlit("win10"); reveal_strlit("windows10"); reveal_strlit("10");
        assert("win11-cn-home"@.len() != "x64"@.len()); assert("win11-cn-home"@.len() != "x86_64"@.len()); assert("win11-cn-home"@.len() != "amd64"@.len()); assert("win11-cn-home"@.len() != "64"@.len()); assert("win11-cn-home"@.len() != "win11"@.len()); assert("win11-cn-home"@.len() != "win11-x64"@.len()); assert("win11-cn-home"@.len() != "arm64"@.len()); assert("win11-cn-home"@.len() != "arm"@.len()); assert("win11-cn-home"@.len() != "aarch64"@.len()); assert("win11-cn-home"@.len() != "win11-arm64"@.len()); assert("win11-cn-home"@.len() != "win10"@.len()); assert("win11-cn-home"@.len() != "windows10"@.len()); assert("win11-cn-home"@.len() != "10"@.len());
    }
    assert(edition_for_alias("cn-home"@) == Some((EDITION_CN_HOME, PAGE_URL_X64))) by {
        reveal_strlit("cn-home"); reveal_strlit("x64"); reveal_strlit("x86_64"); reveal_strlit("amd64"); reveal_strlit("64"); reveal_strlit("win11"); reveal_strlit("win11-x64"); reveal_strlit("arm64"); reveal_strlit("arm"); reveal_strlit("aarch64"); reveal_strlit("win11-arm64"); reveal_strlit("win10"); reveal_strlit("windows10"); reveal_strlit("10"); reveal_strlit("win11-cn-home");
        assert("cn-home"@.len() != "x64"@.len()); assert("cn-home"@.len() != "x86_64"@.len()); assert("cn-home"@.len() != "amd64"@.len()); assert("cn-home"@.len() != "64"@.len()); assert("cn-home"@.len() != "win11"@.len()); assert("cn-home"@.len() != "win11-x64"@.len()); assert("cn-home"@.len() != "arm64"@.len()); assert("cn-home"@.len() != "arm"@.len()); assert("cn-home"@[0] != "aarch64"@[0]); assert("cn-home"@.len() != "win11-arm64"@.len()); assert("cn-home"@.len() != "win10"@.len()); assert("cn-home"@.len() != "windows10"@.len()); assert("cn-home"@.len() != "10"@.len()); assert("cn-home"@.len() != "win11-cn-home"@.len());
    }
    assert(edition_for_alias("win11-cn-pro"@) == Some((EDITION_CN_PRO, PAGE_URL_X64))) by {
        reveal_strlit("win11-cn-pro"); reveal_strlit("x64"); reveal_strlit("x86_64"); reveal_strlit("amd64"); reveal_strlit("64"); reveal_strlit("win11"); reveal_strlit("win11-x64"); reveal_strlit("arm64"); reveal_strlit("arm"); reveal_strlit("aarch64"); reveal_strlit("win11-arm64"); reveal_strlit("win10"); reveal_strlit("windows10"); reveal_strlit("10"); reveal_strlit("win11-cn-home"); reveal_strlit("cn-home");
        assert("win11-cn-pro"@.len() != "x64"@.len()); assert("win11-cn-pro"@.len() != "x86_64"@.len()); assert("win11-cn-pro"@.len() != "amd64"@.len()); assert("win11-cn-pro"@.len() != "64"@.len()); assert("win11-cn-pro"@.len() != "win11"@.len()); assert("win11-cn-pro"@.len() != "win11-x64"@.len()); assert("win11-cn-pro"@.len() != "arm64"@.len()); assert("win11-cn-pro"@.len() != "arm"@.len()); assert("win11-cn-pro"@.len() != "aarch64"@.len()); assert("win11-cn-pro"@.len() != "win11-arm64"@.len()); assert("win11-cn-pro"@.len() != "win10"@.len()); assert("win11-cn-pro"@.len() != "windows10"@.len()); assert("win11-cn-pro"@.len() != "10"@.len()); assert("win11-cn-pro"@.len() != "win11-cn-home"@.len()); assert("win11-cn-pro"@.len() != "cn-home"@.len());
    }
    assert(edition_for_alias("cn-pro"@) == Some((EDITION_CN_PRO, PAGE_URL_X64))) by {
        reveal_strlit("cn-pro"); reveal_strlit("x64"); reveal_strlit("x86_64"); reveal_strlit("amd64"); reveal_strlit("64"); reveal_strlit("win11"); reveal_strlit("win11-x64"); reveal_strlit("arm64"); reveal_strlit("arm"); reveal_strlit("aarch64"); reveal_strlit("win11-arm64"); reveal_strlit("win10"); reveal_strlit("windows10"); reveal_strlit("10"); reveal_strlit("win11-cn-home"); reveal_strlit("cn-home"); reveal_strlit("win11-cn-pro");
        assert("cn-pro"@.len() != "x64"@.len()); assert("cn-pro"@[0] != "x86_64"@[0]); assert("cn-pro"@.len() != "amd64"@.len()); assert("cn-pro"@.len() != "64"@.len()); assert("cn-pro"@.len() != "win11"@.len()); assert("cn-pro"@.len() != "win11-x64"@.len()); assert("cn-pro"@.len() != "arm64"@.len()); assert("cn-pro"@.len() != "arm"@.len()); assert("cn-pro"@.len() != "aarch64"@.len()); assert("cn-pro"@.len() != "win11-arm64"@.len()); assert("cn-pro"@.len() != "win10"@.len()); assert("cn-pro"@.len() != "windows10"@.len()); assert("cn-pro"@.len() != "10"@.len()); assert("cn-pro"@.len() != "win11-cn-home"@.len()); assert("cn-pro"@.len() != "cn-home"@.len()); assert("cn-pro"@.len() != "win11-cn-pro"@.len());
    }
}

/// Every alias that resolves names one of the five known editions, each with
/// the download page it is offered on.
pub proof fn lemma_resolved_editions_are_known(a: Seq<char>)
    ensures
        edition_for_alias(a) matches Some((e, p)) ==> {
            ||| (e == EDITION_X64 && p == PAGE_URL_X64)
            ||| (e == EDITION_ARM64 && p == PAGE_URL_ARM64)
            ||| (e == EDITION_WIN10 && p == PAGE_URL_WIN10)
            ||| (e == EDITION_CN_HOME && p == PAGE_URL_X64)
            ||| (e == EDITION_CN_PRO && p == PAGE_URL_X64)
        },
{
}

// ── Languages ──────────────────────────────────────────────────────────────

/// Index of the first SKU from `from` on that satisfies `p`.
pub open spec fn first_sku(skus: Seq<Sku>, p: spec_fn(Sku) -> bool, from: int) -> Option<int>
    decreases skus.len() - from,
{
    if from < 0 || from >= skus.len() {
        None
    } else if p(skus[from]) {
        Some(from)
    } else {
        first_sku(skus, p, from + 1)
    }
}

/// The SKU's language, compared case-insensitively, is `l`.
pub open spec fn language_is(l: Seq<char>) -> spec_fn(Sku) -> bool {
    |s: Sku| text::lower(s.language@) == l
}

/// The SKU's localized language, compared case-insensitively, is `l`.
pub open spec fn localized_language_is(l: Seq<char>) -> spec_fn(Sku) -> bool {
    |s: Sku| text::lower(s.localized_language@) == l
}

/// The SKU's language or localized language, lower-cased, begins with `l`.
pub open spec fn language_begins_with(l: Seq<char>) -> spec_fn(Sku) -> bool {
    |s: Sku|
        text::has_prefix(text::lower(s.language@), l) || text::has_prefix(
            text::lower(s.localized_language@),
            l,
        )
}

/// The SKU chosen for a language: the first whose language matches exactly,
/// else the first whose localized language matches exactly, else the first
/// whose language or localized language begins with it (all ignoring ASCII
/// case).
pub open spec fn sku_for_language(skus: Seq<Sku>, language: Seq<char>) -> Option<int> {
    let l = text::lower(language);
    match first_sku(skus, language_is(l), 0) {
        Some(i) => Some(i),
        None => match first_sku(skus, localized_language_is(l), 0) {
            Some(i) => Some(i),
            None => first_sku(skus, language_begins_with(l), 0),
        },
    }
}

pub proof fn lemma_first_sku_found(skus: Seq<Sku>, p: spec_fn(Sku) -> bool, from: int)
    ensures
        first_sku(skus, p, from) matches Some(i) ==> from <= i < skus.len() && p(skus[i]) && forall|
            j: int,
        |
            from <= j < i ==> !p(#[trigger] skus[j]),
        first_sku(skus, p, from) is None && 0 <= from ==> forall|j: int|
            from <= j < skus.len() ==> !p(#[trigger] skus[j]),
    decreases skus.len() - from,
{
    if from < 0 || from >= skus.len() {
    } else if p(skus[from]) {
    } else {
        lemma_first_sku_found(skus, p, from + 1);
    }
}

/// Index of the first SKU whose chosen name matches `l` as `kind` says:
/// 0 exact language, 1 exact localized language, otherwise a prefix of
/// either.
fn find_first_sku(skus: &[Sku], l: &str, kind: u8) -> (r: Option<usize>)
    ensures
        ({
            let p = if kind == 0 {
                language_is(l@)
            } else if kind == 1 {
                localized_language_is(l@)
            } else {
                language_begins_with(l@)
            };
            &&& r is Some <==> first_sku(skus@, p, 0) is Some
            &&& r matches Some(i) ==> first_sku(skus@, p, 0) == Some(i as int)
            &&& r matches Some(i) ==> i < skus@.len()
        }),
{
    let ghost p = if kind == 0 {
        language_is(l@)
    } else if kind == 1 {
        localized_language_is(l@)
    } else {
        language_begins_with(l@)
    };
    let mut i: usize = 0;
    while i < skus.len()
        invariant
            i <= skus@.len(),
            p == (if kind == 0 {
                language_is(l@)
            } else if kind == 1 {
                localized_language_is(l@)
            } else {
                language_begins_with(l@)
            }),
            first_sku(skus@, p, 0) == first_sku(skus@, p, i as int),
        decreases skus@.len() - i,
    {
        let s = &skus[i];
        let hit = if kind == 0 {
            let lang = to_ascii_lowercase(s.language.as_str());
            str_eq(lang.as_str(), l)
        } else if kind == 1 {
            let loc = to_ascii_lowercase(s.localized_language.as_str());
            str_eq(loc.as_str(), l)
        } else {
            let lang = to_ascii_lowercase(s.language.as_str());
            let loc = to_ascii_lowercase(s.localized_language.as_str());
            text::starts_with(lang.as_str(), l) || text::starts_with(loc.as_str(), l)
        };
        assert(hit == p(skus@[i as int]));
        if hit {
            return Some(i);
        }
        i += 1;
    }
    None
}

/// The SKU in `language`, matched case-insensitively against each SKU's
/// language, then its localized language, then as a prefix of either.
pub fn find_sku_by_language<'a>(skus: &'a [Sku], language: &str) -> (r: Result<
    &'a Sku,
    LookupError,
>)
    ensures
        match sku_for_language(skus@, language@) {
            Some(i) => r matches Ok(s) && *s == skus@[i],
            None => r matches Err(LookupError::LanguageNotFound { language: l }) && l@
                == language@,
        },
{
    let lowered = to_ascii_lowercase(language);
    let l = lowered.as_str();
    if let Some(i) = find_first_sku(skus, l, 0) {
        return Ok(&skus[i]);
    }
    if let Some(i) = find_first_sku(skus, l, 1) {
        return Ok(&skus[i]);
    }
    if let Some(i) = find_first_sku(skus, l, 2) {
        return Ok(&skus[i]);
    }
    Err(LookupError::LanguageNotFound { language: language.to_owned() })
}

/// A SKU is only ever chosen for a language that one of its names matches:
/// exactly, or as a prefix, ignoring ASCII case.
pub proof fn lemma_chosen_sku_matches(skus: Seq<Sku>, language: Seq<char>)
    ensures
        sku_for_language(skus, language) matches Some(i) ==> 0 <= i < skus.len() && ({
            let l = text::lower(language);
            let s = skus[i];
            ||| text::lower(s.language@) == l
            ||| text::lower(s.localized_language@) == l
            ||| text::has_prefix(text::lower(s.language@), l)
            ||| text::has_prefix(text::lower(s.localized_language@), l)
        }),
{
    let l = text::lower(language);
    lemma_first_sku_found(skus, language_is(l), 0);
    lemma_first_sku_found(skus, localized_language_is(l), 0);
    lemma_first_sku_found(skus, language_begins_with(l), 0);
}

/// Language names that differ only in ASCII letter case choose the same SKU.
pub proof fn lemma_language_ignores_case(skus: Seq<Sku>, a: Seq<char>, b: Seq<char>)
    requires
        text::lower(a) == text::lower(b),
    ensures
        sku_for_language(skus, a) == sku_for_language(skus, b),
{
}

/// The SKU chosen for a language, in three steps that each take the first
/// SKU that matches (all ignoring ASCII case): a SKU whose language equals
/// the request; failing that, one whose localized language equals it;
/// failing that, one whose language or localized language begins with it.
/// No SKU is chosen only when none matches in any of these ways.
pub proof fn lemma_sku_choice_steps(skus: Seq<Sku>, language: Seq<char>)
    ensures
        ({
            let l = text::lower(language);
            let by_language = exists|j: int|
                0 <= j < skus.len() && text::lower((#[trigger] skus[j]).language@) == l;
            let by_localized = exists|j: int|
                0 <= j < skus.len() && text::lower((#[trigger] skus[j]).localized_language@) == l;
            let by_prefix = exists|j: int|
                0 <= j < skus.len() && (text::has_prefix(
                    text::lower((#[trigger] skus[j]).language@),
                    l,
                ) || text::has_prefix(text::lower(skus[j].localized_language@), l));
            &&& by_language ==> (sku_for_language(skus, language) matches Some(i) && 0 <= i
                < skus.len() && text::lower(skus[i].language@) == l && forall|j: int|
                0 <= j < i ==> text::lower((#[trigger] skus[j]).language@) != l)
            &&& (!by_language && by_localized) ==> (sku_for_language(skus, language) matches Some(
                i,
            ) && 0 <= i < skus.len() && text::lower(skus[i].localized_language@) == l
                && forall|j: int|
                0 <= j < i ==> text::lower((#[trigger] skus[j]).localized_language@) != l)
            &&& (!by_language && !by_localized && by_prefix) ==> (sku_for_language(
                skus,
                language,
            ) matches Some(i) && 0 <= i < skus.len() && (text::has_prefix(
                text::lower(skus[i].language@),
                l,
            ) || text::has_prefix(text::lower(skus[i].localized_language@), l)) && forall|j: int|
                0 <= j < i ==> !text::has_prefix(text::lower((#[trigger] skus[j]).language@), l)
                    && !text::has_prefix(text::lower(skus[j].localized_language@), l))
            &&& (!by_language && !by_localized && !by_prefix) ==> sku_for_language(
                skus,
                language,
            ) is None
        }),
{
    let l = text::lower(language);
    lemma_first_sku_found(skus, language_is(l), 0);
    lemma_first_sku_found(skus, localized_language_is(l), 0);
    lemma_first_sku_found(skus, language_begins_with(l), 0);
    if exists|j: int| 0 <= j < skus.len() && text::lower((#[trigger] skus[j]).language@) == l {
        let j = choose|j: int| 0 <= j < skus.len() && text::lower((#[trigger] skus[j]).language@) == l;
        assert(language_is(l)(skus[j]));
    }
    if exists|j: int|
        0 <= j < skus.len() && text::lower((#[trigger] skus[j]).localized_language@) == l {
        let j = choose|j: int|
            0 <= j < skus.len() && text::lower((#[trigger] skus[j]).localized_language@) == l;
        assert(localized_language_is(l)(skus[j]));
    }
    if exists|j: int|
        0 <= j < skus.len() && (text::has_prefix(text::lower((#[trigger] skus[j]).language@), l)
            || text::has_prefix(text::lower(skus[j].localized_language@), l)) {
        let j = choose|j: int|
            0 <= j < skus.len() && (text::has_prefix(text::lower((#[trigger] skus[j]).language@), l)
                || text::has_prefix(text::lower(skus[j].localized_language@), l));
        assert(language_begins_with(l)(skus[j]));
    }
}

/// An exact match of the language takes precedence: when some SKU's
/// language equals the request (ignoring ASCII case), the first such SKU is
/// chosen.
pub proof fn lemma_exact_language_first(skus: Seq<Sku>, language: Seq<char>, j: int)
    requires
        0 <= j < skus.len(),
        text::lower(skus[j].language@) == text::lower(language),
    ensures
        sku_for_language(skus, language) matches Some(i) && i <= j && text::lower(
            skus[i].language@,
        ) == text::lower(language),
{
    let l = text::lower(language);
    lemma_first_sku_found(skus, language_is(l), 0);
    assert(language_is(l)(skus[j]));
}

// ── File names ─────────────────────────────────────────────────────────────

/// Index of the first `c` in `s`.
pub open spec fn first_index_of(s: Seq<char>, c: char) -> Option<int> {
    if exists|i: int| 0 <= i < s.len() && s[i] == c {
        Some(choose|i: int| 0 <= i < s.len() && s[i] == c && forall|j: int| 0 <= j < i ==> s[j] != c)
    } else {
        None
    }
}

/// The part of `s` before its first `c` (all of `s` when it has none).
pub open spec fn before_first(s: Seq<char>, c: char) -> Seq<char> {
    match first_index_of(s, c) {
        Some(i) => s.subrange(0, i),
        None => s,
    }
}

/// The part of `s` after its last `c` (all of `s` when it has none).
pub open spec fn after_last(s: Seq<char>, c: char) -> Seq<char> {
    if exists|i: int| 0 <= i < s.len() && s[i] == c {
        let i = choose|i: int|
            0 <= i < s.len() && s[i] == c && forall|j: int| i < j < s.len() ==> s[j] != c;
        s.subrange(i + 1, s.len() as int)
    } else {
        s
    }
}

/// The file name in a download link: the last path segment of the part
/// before the query string.
pub open spec fn url_file_name(url: Seq<char>) -> Seq<char> {
    after_last(before_first(url, '?'), '/')
}

/// The file name in a download link: what follows the last `/` of the part
/// of `url` before its first `?`.
pub fn filename_from_url(url: &str) -> (r: String)
    ensures
        r@ == url_file_name(url@),
        forall|i: int| 0 <= i < r@.len() ==> r@[i] != '/' && r@[i] != '?',
{
    let n = url.unicode_len();
    let mut q: usize = 0;
    while q < n && url.get_char(q) != '?'
        invariant
            n == url@.len(),
            q <= n,
            forall|j: int| 0 <= j < q ==> url@[j] != '?',
        decreases n - q,
    {
        q += 1;
    }
    let ghost head = url@.subrange(0, q as int);
    proof {
        if q < n {
            assert(url@[q as int] == '?');
            let k = choose|i: int|
                0 <= i < url@.len() && url@[i] == '?' && forall|j: int| 0 <= j < i ==> url@[j] != '?';
            assert(k == q) by {
                if k < q {
                    assert(url@[k] != '?');
                }
                if k > q {
                    assert(url@[q as int] != '?');
                }
            }
        } else {
            assert(url@.subrange(0, q as int) =~= url@);
        }
        assert(before_first(url@, '?') == head);
    }
    let mut start: usize = q;
    while start > 0 && url.get_char(start - 1) != '/'
        invariant
            start <= q <= n,
            n == url@.len(),
            head == url@.subrange(0, q as int),
            forall|j: int| start <= j < q ==> url@[j] != '/',
        decreases start,
    {
        start -= 1;
    }
    proof {
        if start > 0 {
            assert(head[start - 1] == '/');
            let k = choose|i: int|
                0 <= i < head.len() && head[i] == '/' && forall|j: int| i < j < head.len() ==> head[j] != '/';
            assert(k == start - 1) by {
                if k < start - 1 {
                    assert(head[start - 1] == '/');
                }
                if k > start - 1 {
                    assert(head[k] == url@[k]);
                }
            }
            assert(head.subrange(start as int, q as int) =~= url@.subrange(start as int, q as int));
        } else {
            assert forall|i: int| 0 <= i < head.len() implies head[i] != '/' by {
                assert(head[i] == url@[i]);
            }
        }
        assert(after_last(head, '/') =~= url@.subrange(start as int, q as int));
    }
    url.substring_char(start, q).to_owned()
}

} // verus!
