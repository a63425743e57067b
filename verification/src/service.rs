//! The decisions of the self-hosted HTTP API: which edition a request
//! names, which SKU it asks for, what the links answer holds, how long it is
//! cached, and which assets and cross-origin rules are served.
use vstd::prelude::*;

use crate::client::MsDownloadClient;
use crate::edition::{self, resolve_edition, PAGE_URL_X64};
use crate::hashes::PageHashes;
use crate::text::{self, str_eq, to_ascii_lowercase};
use crate::types::{DownloadResponse, Sku};

verus! {

broadcast use vstd::seq::group_seq_axioms;

/// A refusal of the API: the HTTP status and the `error` text.
#[derive(Debug, Clone)]
pub struct ServiceError {
    pub status: u16,
    pub message: String,
}

pub open spec fn all_digits(s: Seq<char>) -> bool {
    forall|i: int| 0 <= i < s.len() ==> text::is_digit_char(#[trigger] s[i])
}

pub open spec fn unknown_edition_or_id_text(edition: Seq<char>) -> Seq<char> {
    "Unknown edition '"@ + edition
        + "'. Use 'x64', 'arm64', 'win10', 'win11-cn-home', 'win11-cn-pro', or a numeric edition ID."@
}

/// What an `edition` parameter names: a known alias, or else a non-empty run
/// of ASCII digits taken as a raw edition id on the Windows 11 x64 page.
pub open spec fn edition_or_id(edition: Seq<char>) -> Option<(Seq<char>, Seq<char>)> {
    match edition::edition_for_alias(text::lower(edition)) {
        Some((e, p)) => Some((e@, p@)),
        None => if edition.len() > 0 && all_digits(edition) {
            Some((edition, PAGE_URL_X64@))
        } else {
            None
        },
    }
}

fn is_all_digits(s: &str) -> (r: bool)
    ensures
        r == all_digits(s@),
{
    let n = s.unicode_len();
    let mut i: usize = 0;
    while i < n
        invariant
            n == s@.len(),
            i <= n,
            forall|k: int| 0 <= k < i ==> text::is_digit_char(#[trigger] s@[k]),
        decreases n - i,
    {
        let c = s.get_char(i);
        if !('0' <= c && c <= '9') {
            return false;
        }
        i += 1;
    }
    true
}

/// Resolves an edition alias or a raw numeric edition id to the edition id
/// and its download page.
pub fn resolve_edition_or_id(edition: &str) -> (r: Result<(String, String), String>)
    ensures
        match edition_or_id(edition@) {
            Some((e, p)) => r matches Ok((re, rp)) && re@ == e && rp@ == p,
            None => r matches Err(m) && m@ == unknown_edition_or_id_text(edition@),
        },
{
    match resolve_edition(edition) {
        Ok((eid, purl)) => Ok((eid.to_owned(), purl.to_owned())),
        Err(_) => {
            if edition.unicode_len() > 0 && is_all_digits(edition) {
                Ok((edition.to_owned(), PAGE_URL_X64.to_owned()))
            } else {
                let mut m = String::from_str("Unknown edition '");
                m.append(edition);
                m.append(
                    "'. Use 'x64', 'arm64', 'win10', 'win11-cn-home', 'win11-cn-pro', or a numeric edition ID.",
                );
                Err(m)
            }
        },
    }
}

fn missing_edition() -> (e: ServiceError)
    ensures
        e.status == 400,
        e.message@ == "Missing ?edition= parameter"@,
{
    ServiceError { status: 400, message: String::from_str("Missing ?edition= parameter") }
}

/// Reads the `edition` parameter of a request: 400 when it is missing or
/// names nothing, else the edition id and its download page.
pub fn edition_param(edition: Option<&str>) -> (r: Result<(String, String), ServiceError>)
    ensures
        match edition {
            None => r matches Err(e) && e.status == 400 && e.message@
                == "Missing ?edition= parameter"@,
            Some(ed) => match edition_or_id(ed@) {
                Some((id, p)) => r matches Ok((ri, rp)) && ri@ == id && rp@ == p,
                None => r matches Err(e) && e.status == 400 && e.message@
                    == unknown_edition_or_id_text(ed@),
            },
        },
{
    match edition {
        None => Err(missing_edition()),
        Some(ed) => match resolve_edition_or_id(ed) {
            Ok(v) => Ok(v),
            Err(m) => Err(ServiceError { status: 400, message: m }),
        },
    }
}

/// Reads the `language` parameter of a links request: 400 when missing.
pub fn language_param(language: Option<&str>) -> (r: Result<String, ServiceError>)
    ensures
        match language {
            None => r matches Err(e) && e.status == 400 && e.message@
                == "Missing ?language= parameter"@,
            Some(l) => r matches Ok(s) && s@ == l@,
        },
{
    match language {
        None => Err(
            ServiceError { status: 400, message: String::from_str("Missing ?language= parameter") },
        ),
        Some(l) => Ok(l.to_owned()),
    }
}

/// Reads the parameters of a links request, refusing in this order: a
/// missing `edition`, a missing `language`, an edition that names nothing.
/// Else the edition id, its download page and the language.
pub fn links_params(edition: Option<&str>, language: Option<&str>) -> (r: Result<
    (String, String, String),
    ServiceError,
>)
    ensures
        match (edition, language) {
            (None, _) => r matches Err(e) && e.status == 400 && e.message@
                == "Missing ?edition= parameter"@,
            (Some(_), None) => r matches Err(e) && e.status == 400 && e.message@
                == "Missing ?language= parameter"@,
            (Some(ed), Some(l)) => match edition_or_id(ed@) {
                Some((id, p)) => r matches Ok((ri, rp, rl)) && ri@ == id && rp@ == p && rl@ == l@,
                None => r matches Err(e) && e.status == 400 && e.message@
                    == unknown_edition_or_id_text(ed@),
            },
        },
{
    let ed = match edition {
        None => {
            return Err(missing_edition());
        },
        Some(ed) => ed,
    };
    let lang = match language_param(language) {
        Ok(l) => l,
        Err(e) => {
            return Err(e);
        },
    };
    match resolve_edition_or_id(ed) {
        Ok((id, page)) => Ok((id, page, lang)),
        Err(m) => Err(ServiceError { status: 400, message: m }),
    }
}

/// A failure of the Microsoft side, reported as 500 with its text.
pub fn upstream_error(message: String) -> (r: ServiceError)
    ensures
        r.status == 500,
        r.message == message,
{
    ServiceError { status: 500, message }
}

// ── Choosing the SKU of a links request ────────────────────────────────────

/// The SKU a links request is answered with: the first whose language
/// matches exactly, else whose localized language matches exactly, else
/// whose language begins with the request (ignoring ASCII case).
pub open spec fn links_sku(skus: Seq<Sku>, language: Seq<char>) -> Option<int> {
    let l = text::lower(language);
    match edition::first_sku(skus, edition::language_is(l), 0) {
        Some(i) => Some(i),
        None => match edition::first_sku(skus, edition::localized_language_is(l), 0) {
            Some(i) => Some(i),
            None => edition::first_sku(
                skus,
                |s: Sku| text::has_prefix(text::lower(s.language@), l),
                0,
            ),
        },
    }
}

/// The SKU a links request is answered with, in three steps that each take
/// the first SKU that matches (all ignoring ASCII case): a SKU whose
/// language equals the request; failing that, one whose localized language
/// equals it; failing that, one whose language (not its localized language)
/// begins with it.  The request is refused only when none matches in any of
/// these ways.
pub proof fn lemma_links_sku_steps(skus: Seq<Sku>, language: Seq<char>)
    ensures
        ({
            let l = text::lower(language);
            let by_language = exists|j: int|
                0 <= j < skus.len() && text::lower((#[trigger] skus[j]).language@) == l;
            let by_localized = exists|j: int|
                0 <= j < skus.len() && text::lower((#[trigger] skus[j]).localized_language@) == l;
            let by_prefix = exists|j: int|
                0 <= j < skus.len() && text::has_prefix(
                    text::lower((#[trigger] skus[j]).language@),
                    l,
                );
            &&& by_language ==> (links_sku(skus, language) matches Some(i) && 0 <= i < skus.len()
                && text::lower(skus[i].language@) == l && forall|j: int|
                0 <= j < i ==> text::lower((#[trigger] skus[j]).language@) != l)
            &&& (!by_language && by_localized) ==> (links_sku(skus, language) matches Some(i) && 0
                <= i < skus.len() && text::lower(skus[i].localized_language@) == l && forall|j: int|
                0 <= j < i ==> text::lower((#[trigger] skus[j]).localized_language@) != l)
            &&& (!by_language && !by_localized && by_prefix) ==> (links_sku(skus, language) matches Some(
                i,
            ) && 0 <= i < skus.len() && text::has_prefix(text::lower(skus[i].language@), l)
                && forall|j: int|
                0 <= j < i ==> !text::has_prefix(text::lower((#[trigger] skus[j]).language@), l))
            &&& (!by_language && !by_localized && !by_prefix) ==> links_sku(skus, language) is None
        }),
{
    let l = text::lower(language);
    let pre = |s: Sku| text::has_prefix(text::lower(s.language@), l);
    edition::lemma_first_sku_found(skus, edition::language_is(l), 0);
    edition::lemma_first_sku_found(skus, edition::localized_language_is(l), 0);
    edition::lemma_first_sku_found(skus, pre, 0);
    if exists|j: int| 0 <= j < skus.len() && text::lower((#[trigger] skus[j]).language@) == l {
        let j = choose|j: int| 0 <= j < skus.len() && text::lower((#[trigger] skus[j]).language@) == l;
        assert(edition::language_is(l)(skus[j]));
    }
    if exists|j: int|
        0 <= j < skus.len() && text::lower((#[trigger] skus[j]).localized_language@) == l {
        let j = choose|j: int|
            0 <= j < skus.len() && text::lower((#[trigger] skus[j]).localized_language@) == l;
        assert(edition::localized_language_is(l)(skus[j]));
    }
    if exists|j: int| 0 <= j < skus.len() && text::has_prefix(text::lower((#[trigger] skus[j]).language@), l) {
        let j = choose|j: int|
            0 <= j < skus.len() && text::has_prefix(text::lower((#[trigger] skus[j]).language@), l);
        assert(pre(skus[j]));
    }
}

/// A known edition alias, in any ASCII letter case, resolves to that alias's
/// edition and page, before any reading as a raw numeric id: `10` is
/// Windows 10 and `64` is Windows 11 x64.
pub proof fn lemma_alias_before_numeric_id(edition: Seq<char>)
    ensures
        edition::edition_for_alias(text::lower(edition)) matches Some((id, page)) ==> edition_or_id(
            edition,
        ) == Some((id@, page@)),
        edition::edition_for_alias(text::lower(edition)) is None && edition.len() > 0 && (forall|
            i: int,
        | 0 <= i < edition.len() ==> '0' <= #[trigger] edition[i] <= '9') ==> edition_or_id(edition)
            == Some((edition, PAGE_URL_X64@)),
{
}

/// Links requests whose languages differ only in ASCII letter case are
/// answered with the same SKU, so one cache entry under the lower-cased
/// language serves them all.
pub proof fn lemma_links_language_ignores_case(skus: Seq<Sku>, a: Seq<char>, b: Seq<char>)
    requires
        text::lower(a) == text::lower(b),
    ensures
        links_sku(skus, a) == links_sku(skus, b),
{
}

/// The languages of `skus`, joined by `", "`.
pub open spec fn joined_languages(skus: Seq<Sku>) -> Seq<char>
    decreases skus.len(),
{
    if skus.len() == 0 {
        Seq::empty()
    } else if skus.len() == 1 {
        skus[0].language@
    } else {
        joined_languages(skus.drop_last()) + ", "@ + skus.last().language@
    }
}

pub open spec fn links_language_missing_text(language: Seq<char>, skus: Seq<Sku>) -> Seq<char> {
    "Language '"@ + language + "' not found. Available: "@ + joined_languages(skus)
}

fn first_links_match(skus: &[Sku], l: &str, kind: u8) -> (r: Option<usize>)
    ensures
        ({
            let p = if kind == 0 {
                edition::language_is(l@)
            } else if kind == 1 {
                edition::localized_language_is(l@)
            } else {
                |s: Sku| text::has_prefix(text::lower(s.language@), l@)
            };
            &&& r is Some <==> edition::first_sku(skus@, p, 0) is Some
            &&& r matches Some(i) ==> edition::first_sku(skus@, p, 0) == Some(i as int) && i
                < skus@.len()
        }),
{
    let ghost p = if kind == 0 {
        edition::language_is(l@)
    } else if kind == 1 {
        edition::localized_language_is(l@)
    } else {
        |s: Sku| text::has_prefix(text::lower(s.language@), l@)
    };
    let mut i: usize = 0;
    while i < skus.len()
        invariant
            i <= skus@.len(),
            p == (if kind == 0 {
                edition::language_is(l@)
            } else if kind == 1 {
                edition::localized_language_is(l@)
            } else {
                |s: Sku| text::has_prefix(text::lower(s.language@), l@)
            }),
            edition::first_sku(skus@, p, 0) == edition::first_sku(skus@, p, i as int),
        decreases skus@.len() - i,
    {
        let s = &skus[i];
        let hit = if kind == 1 {
            let loc = to_ascii_lowercase(s.localized_language.as_str());
            str_eq(loc.as_str(), l)
        } else {
            let lang = to_ascii_lowercase(s.language.as_str());
            if kind == 0 {
                str_eq(lang.as_str(), l)
            } else {
                text::starts_with(lang.as_str(), l)
            }
        };
        assert(hit == p(skus@[i as int]));
        if hit {
            return Some(i);
        }
        i += 1;
    }
    None
}

/// Index of the SKU that answers a links request for `language`, or a 400
/// that lists the languages on offer.
pub fn select_links_sku(skus: &[Sku], language: &str) -> (r: Result<usize, ServiceError>)
    ensures
        match links_sku(skus@, language@) {
            Some(i) => r == Ok::<usize, ServiceError>(i as usize) && i < skus@.len(),
            None => r matches Err(e) && e.status == 400 && e.message@
                == links_language_missing_text(language@, skus@),
        },
{
    let lowered = to_ascii_lowercase(language);
    let l = lowered.as_str();
    if let Some(i) = first_links_match(skus, l, 0) {
        return Ok(i);
    }
    if let Some(i) = first_links_match(skus, l, 1) {
        return Ok(i);
    }
    if let Some(i) = first_links_match(skus, l, 2) {
        return Ok(i);
    }
    let mut m = String::from_str("Language '");
    m.append(language);
    m.append("' not found. Available: ");
    let ghost head = m@;
    let mut k: usize = 0;
    while k < skus.len()
        invariant
            k <= skus@.len(),
            m@ == head + joined_languages(skus@.subrange(0, k as int)),
        decreases skus@.len() - k,
    {
        if k > 0 {
            m.append(", ");
        }
        m.append(skus[k].language.as_str());
        proof {
            let pre = skus@.subrange(0, k as int);
            let post = skus@.subrange(0, k + 1);
            assert(post.drop_last() =~= pre);
            assert(post.last() == skus@[k as int]);
        }
        k += 1;
        assert(m@ =~= head + joined_languages(skus@.subrange(0, k as int)));
    }
    assert(skus@.subrange(0, skus@.len() as int) =~= skus@);
    Err(ServiceError { status: 400, message: m })
}

// ── The links answer ───────────────────────────────────────────────────────

/// One download of a links answer.
#[derive(Debug, Clone)]
pub struct DownloadLink {
    pub name: String,
    pub url: String,
}

/// The answer to a links request.
pub struct LinksResult {
    pub edition: String,
    pub language: String,
    pub localized_language: String,
    pub filename: Option<String>,
    pub expires_at: Option<String>,
    pub downloads: Vec<DownloadLink>,
    pub hashes: PageHashes,
}

/// Assembles the links answer: the requested edition text, the chosen SKU's
/// languages and first file name, the links' expiry, every download option
/// (name and address, in order) and the page's digests.
pub fn links_result(edition: &str, sku: &Sku, resp: DownloadResponse, hashes: PageHashes) -> (r:
    LinksResult)
    ensures
        r.edition@ == edition@,
        r.language@ == sku.language@,
        r.localized_language@ == sku.localized_language@,
        match r.filename {
            Some(f) => sku.friendly_file_names@.len() > 0 && f@ == sku.friendly_file_names@[0]@,
            None => sku.friendly_file_names@.len() == 0,
        },
        r.expires_at == resp.download_expiration_datetime,
        r.downloads@.len() == resp.product_download_options@.len(),
        forall|i: int|
            0 <= i < r.downloads@.len() ==> (#[trigger] r.downloads@[i]).name@
                == resp.product_download_options@[i].name@ && r.downloads@[i].url@
                == resp.product_download_options@[i].uri@,
        r.hashes@ == hashes@,
{
    let filename = if sku.friendly_file_names.len() > 0 {
        Some(sku.friendly_file_names[0].clone())
    } else {
        None
    };
    let mut downloads: Vec<DownloadLink> = Vec::new();
    let mut i: usize = 0;
    while i < resp.product_download_options.len()
        invariant
            i <= resp.product_download_options@.len(),
            downloads@.len() == i,
            forall|k: int|
                0 <= k < i ==> (#[trigger] downloads@[k]).name@
                    == resp.product_download_options@[k].name@ && downloads@[k].url@
                    == resp.product_download_options@[k].uri@,
        decreases resp.product_download_options@.len() - i,
    {
        let o = &resp.product_download_options[i];
        downloads.push(DownloadLink { name: o.name.clone(), url: o.uri.clone() });
        i += 1;
    }
    LinksResult {
        edition: edition.to_owned(),
        language: sku.language.clone(),
        localized_language: sku.localized_language.clone(),
        filename,
        expires_at: resp.download_expiration_datetime,
        downloads,
        hashes,
    }
}

// ── Caching ────────────────────────────────────────────────────────────────

/// The Unix time in seconds that an RFC 3339 date-time text denotes; `None`
/// when the text is not one.
pub uninterp spec fn rfc3339_unix_seconds(s: Seq<char>) -> Option<i64>;

/// `time::OffsetDateTime::parse(s, &Rfc3339)` followed by
/// `unix_timestamp()`.
#[verifier::external_body]
fn parse_expires(s: &str) -> (r: Option<i64>)
    ensures
        r == rfc3339_unix_seconds(s@),
{
    match time::OffsetDateTime::parse(s, &time::format_description::well_known::Rfc3339) {
        Ok(d) => Some(d.unix_timestamp()),
        Err(_) => None,
    }
}

/// The cache expiry of a links answer: the links' own expiry when it parses,
/// else `now` plus the default lifetime.
pub open spec fn expiry_time(parsed: Option<i64>, now: i64, default_ttl: i64) -> int {
    match parsed {
        Some(t) => t as int,
        None => now + default_ttl,
    }
}

/// `expiry_time` of the parsed expiry; `None` only when there is none and
/// `now + default_ttl` leaves `i64`.
pub fn cache_expiry(parsed: Option<i64>, now: i64, default_ttl: i64) -> (r: Option<i64>)
    ensures
        r matches Some(x) ==> x == expiry_time(parsed, now, default_ttl),
        r is None <==> (i64::MIN > expiry_time(parsed, now, default_ttl) || expiry_time(
            parsed,
            now,
            default_ttl,
        ) > i64::MAX),
{
    match parsed {
        Some(t) => Some(t),
        None => now.checked_add(default_ttl),
    }
}

/// `cache_expiry` for the links' expiry text; `None` only when the text does
/// not parse and `now + default_ttl` leaves `i64`.
pub fn links_cache_expiry(expires_at: Option<&str>, now: i64, default_ttl: i64) -> (r: Option<
    i64,
>)
    ensures
        ({
            let parsed = match expires_at {
                Some(s) => rfc3339_unix_seconds(s@),
                None => None,
            };
            let e = expiry_time(parsed, now, default_ttl);
            &&& r matches Some(x) ==> x == e
            &&& r is None <==> (i64::MIN > e || e > i64::MAX)
        }),
{
    let parsed = match expires_at {
        Some(s) => parse_expires(s),
        None => None,
    };
    cache_expiry(parsed, now, default_ttl)
}

/// A links answer is cached only while it has not expired.
pub fn should_cache(expires_at: i64, now: i64) -> (r: bool)
    ensures
        r == (expires_at > now),
{
    expires_at > now
}

// ── Static assets and cross-origin rules ───────────────────────────────────

/// `s` without the `c` characters at its start.
pub open spec fn strip_leading(s: Seq<char>, c: char) -> Seq<char>
    decreases s.len(),
{
    if s.len() > 0 && s[0] == c {
        strip_leading(s.drop_first(), c)
    } else {
        s
    }
}

/// The asset a request path asks for: the path without its leading slashes,
/// or `index.html` for the root.
pub open spec fn asset_path(uri_path: Seq<char>) -> Seq<char> {
    let p = strip_leading(uri_path, '/');
    if p.len() == 0 {
        "index.html"@
    } else {
        p
    }
}

/// The MIME type `mime_guess` gives a path by its extension.
pub uninterp spec fn mime_for_path(path: Seq<char>) -> Seq<char>;

/// `mime_guess::from_path(path).first_or_octet_stream()`, as text.
#[verifier::external_body]
fn guess_mime(path: &str) -> (r: String)
    ensures
        r@ == mime_for_path(path@),
{
    mime_guess::from_path(path).first_or_octet_stream().to_string()
}

/// The asset a request path asks for, and its content type.
pub fn static_asset(uri_path: &str) -> (r: (String, String))
    ensures
        r.0@ == asset_path(uri_path@),
        r.1@ == mime_for_path(asset_path(uri_path@)),
{
    let n = uri_path.unicode_len();
    let mut i: usize = 0;
    assert(uri_path@.subrange(0, n as int) =~= uri_path@);
    while i < n && uri_path.get_char(i) == '/'
        invariant
            n == uri_path@.len(),
            i <= n,
            strip_leading(uri_path@, '/') == strip_leading(uri_path@.subrange(i as int, n as int), '/'),
        decreases n - i,
    {
        proof {
            assert(uri_path@.subrange(i as int, n as int).drop_first() =~= uri_path@.subrange(
                i + 1,
                n as int,
            ));
        }
        i += 1;
    }
    proof {
        assert(uri_path@.subrange(0, n as int) =~= uri_path@);
    }
    let p = if i == n {
        String::from_str("index.html")
    } else {
        uri_path.substring_char(i, n).to_owned()
    };
    let mime = guess_mime(p.as_str());
    (p, mime)
}

/// Which cross-origin requests the API allows.
#[derive(Debug, Clone)]
pub enum CorsPolicy {
    /// Any origin, method and header.
    Permissive,
    /// GET from the listed origins, with the `content-type` header.
    AllowList(Vec<String>),
    /// No cross-origin requests.
    SameOrigin,
}

/// `*` among the configured origins allows every origin; other origins are
/// allowed by name; none configured allows none.
pub fn cors_policy(origins: &Vec<String>) -> (r: CorsPolicy)
    ensures
        (exists|i: int| 0 <= i < origins@.len() && (#[trigger] origins@[i])@ == "*"@) ==> r
            is Permissive,
        !(exists|i: int| 0 <= i < origins@.len() && (#[trigger] origins@[i])@ == "*"@) ==> if origins@.len()
            == 0 {
            r is SameOrigin
        } else {
            r matches CorsPolicy::AllowList(list) && list@ == origins@
        },
{
    let mut i: usize = 0;
    while i < origins.len()
        invariant
            i <= origins@.len(),
            forall|k: int| 0 <= k < i ==> (#[trigger] origins@[k])@ != "*"@,
        decreases origins@.len() - i,
    {
        if str_eq(origins[i].as_str(), "*") {
            return CorsPolicy::Permissive;
        }
        i += 1;
    }
    if origins.len() == 0 {
        CorsPolicy::SameOrigin
    } else {
        CorsPolicy::AllowList(origins.clone())
    }
}

/// A session for a request on the download page `page_url`, forwarding the
/// request's cookies.
pub fn session_for(page_url: String, cookie: Option<String>) -> (c: MsDownloadClient)
    ensures
        c.page_url@ == page_url@,
        c.browser_cookie == cookie,
        !c.debug,
        c.cfg.is_default(),
        crate::client::is_uuid_v4_text(c.session_id@),
{
    MsDownloadClient::start(page_url, cookie, false)
}

} // verus!
