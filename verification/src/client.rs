//! A download session with Microsoft's software-download service: the
//! requests it sends, in the order the service expects them, and what it
//! makes of the answers.  Sending the requests is the caller's part.
use vstd::prelude::*;
use vstd::utf8::*;
use vstd::string::StringSliceAdditionalSpecFns;

use crate::page::{
    self, extract_from_sds_js, extract_hidden_input, extract_sds_js_url,
};
use crate::pattern::{self, apostrophe_bytes, ticks_field_bytes, ticks_param_bytes};
use crate::text::{self, ByteClass, find_bytes, find_outside, push_char, push_decimal, substr};
use crate::types::{self, ApiError, DownloadResponse, PageConfig, Sku};

verus! {

broadcast use vstd::seq::group_seq_axioms;

/// The browser that the session presents itself as: Chrome on a Mac.  With
/// a Windows agent the download page offers the Media Creation Tool instead
/// of the ISO form.
pub const USER_AGENT: &'static str =
    "Mozilla/5.0 (Macintosh; Intel Mac OS X 10_15_7) AppleWebKit/537.36 (KHTML, like Gecko) Chrome/134.0.0.0 Safari/537.36";

/// A GET request: its address and its extra headers, in order.
#[derive(Debug, Clone)]
pub struct HttpRequest {
    pub url: String,
    pub headers: Vec<(String, String)>,
}

pub open spec fn header_views(hs: Seq<(String, String)>) -> Seq<(Seq<char>, Seq<char>)> {
    hs.map_values(|h: (String, String)| (h.0@, h.1@))
}

impl HttpRequest {
    pub open spec fn header_list(&self) -> Seq<(Seq<char>, Seq<char>)> {
        header_views(self.headers@)
    }

    fn get(url: String) -> (r: Self)
        ensures
            r.url@ == url@,
            r.header_list() == Seq::<(Seq<char>, Seq<char>)>::empty(),
    {
        let r = HttpRequest { url, headers: Vec::new() };
        assert(r.header_list() =~= Seq::<(Seq<char>, Seq<char>)>::empty());
        r
    }

    fn with_header(self, name: &str, value: &str) -> (r: Self)
        ensures
            r.url@ == self.url@,
            r.header_list() == self.header_list().push((name@, value@)),
    {
        let mut hs = self.headers;
        let ghost old_hs = hs@;
        hs.push((name.to_owned(), value.to_owned()));
        let r = HttpRequest { url: self.url, headers: hs };
        assert(r.header_list() =~= header_views(old_hs).push((name@, value@)));
        r
    }
}

/// Hyphenated lower-case text of a random (version 4, RFC 4122 variant)
/// UUID.
pub open spec fn is_uuid_v4_text(s: Seq<char>) -> bool {
    &&& s.len() == 36
    &&& forall|i: int|
        0 <= i < 36 ==> if i == 8 || i == 13 || i == 18 || i == 23 {
            s[i] == '-'
        } else {
            ('0' <= #[trigger] s[i] <= '9') || ('a' <= s[i] <= 'f')
        }
    &&& s[14] == '4'
    &&& (s[19] == '8' || s[19] == '9' || s[19] == 'a' || s[19] == 'b')
}

/// `uuid::Uuid::new_v4()` formatted by `to_string()`: the hyphenated,
/// lower-case text of a random version-4 UUID.  Which UUID comes out is
/// chance; only its form is stated.
#[verifier::external_body]
fn new_session_id() -> (r: String)
    ensures
        is_uuid_v4_text(r@),
{
    uuid::Uuid::new_v4().to_string()
}

/// `s` without the `c` characters at its end.
pub open spec fn strip_trailing(s: Seq<char>, c: char) -> Seq<char>
    decreases s.len(),
{
    if s.len() > 0 && s.last() == c {
        strip_trailing(s.drop_last(), c)
    } else {
        s
    }
}

/// `str::trim_end_matches('/')`.
fn trim_trailing_slashes(s: &str) -> (r: String)
    ensures
        r@ == strip_trailing(s@, '/'),
{
    let mut n = s.unicode_len();
    assert(s@.subrange(0, n as int) =~= s@);
    while n > 0 && s.get_char(n - 1) == '/'
        invariant
            n <= s@.len(),
            strip_trailing(s@, '/') == strip_trailing(s@.subrange(0, n as int), '/'),
        decreases n,
    {
        proof {
            assert(s@.subrange(0, n as int).drop_last() =~= s@.subrange(0, n - 1));
        }
        n -= 1;
    }
    s.substring_char(0, n).to_owned()
}

/// The id of the hidden input that carries the API base address.
pub open spec fn endpoint_input_id() -> Seq<u8> {
    encode_utf8("endpoint-svc"@)
}

/// The API base a page publishes: its `endpoint-svc` input without trailing
/// slashes.
pub open spec fn page_api_base(page: Seq<u8>) -> Option<Seq<char>> {
    match page::hidden_input_value(page, endpoint_input_id()) {
        Some(v) => Some(strip_trailing(v, '/')),
        None => None,
    }
}

// ── Answers of the API ─────────────────────────────────────────────────────

/// The endpoint whose answer could not be read.
#[derive(Debug, Clone, Copy)]
pub enum Endpoint {
    Skus,
    DownloadLinks,
}

/// Why an answer of the API is refused.
#[derive(Debug, Clone)]
pub enum ClientError {
    /// The answer lists errors.
    Api { errors: Vec<ApiError> },
    /// The answer is not the expected JSON; `excerpt` is its first 500 bytes.
    Malformed { endpoint: Endpoint, body_len: usize, excerpt: String },
    /// The SKU list is empty.
    NoSkus,
    /// The list of download options is empty.
    NoDownloadLinks,
}

pub open spec fn api_error_line(e: ApiError) -> Seq<char> {
    "["@ + e.key@ + "] "@ + e.value@ + " (type "@ + text::signed_decimal(e.error_type as int)
        + ")"@
}

/// The error lines, each after a line break and two spaces but the first.
pub open spec fn api_error_lines(es: Seq<ApiError>) -> Seq<char>
    decreases es.len(),
{
    if es.len() == 0 {
        Seq::empty()
    } else if es.len() == 1 {
        api_error_line(es[0])
    } else {
        api_error_lines(es.drop_last()) + "\n  "@ + api_error_line(es.last())
    }
}

/// What a refused request is told to try: the cookies of a browser session.
pub const COOKIE_HINT: &'static str =
    "\n\nMicrosoft may have blocked this session. Retry with your browser's cookies:\n  --cookie \"<Cookie header of a request to microsoft.com>\"";

pub open spec fn cookie_hint() -> Seq<char> {
    COOKIE_HINT@
}

impl ClientError {
    pub open spec fn text(self) -> Seq<char> {
        match self {
            ClientError::Api { errors } => "Microsoft API returned error(s):\n  "@ + api_error_lines(
                errors@,
            ) + cookie_hint(),
            ClientError::Malformed { endpoint, body_len, excerpt } => (match endpoint {
                Endpoint::Skus => "Failed to parse SKU JSON."@,
                Endpoint::DownloadLinks => "Failed to parse download JSON."@,
            }) + "\nBody ("@ + text::decimal(body_len as nat) + " bytes): "@ + excerpt@,
            ClientError::NoSkus =>
                "No SKUs returned \u{2013} the product edition ID may be invalid or expired"@,
            ClientError::NoDownloadLinks =>
                "No download links returned \u{2013} the SKU may be invalid"@,
        }
    }

    /// The text a user sees for the error.
    pub fn message(&self) -> (r: String)
        ensures
            r@ == self.text(),
    {
        match self {
            ClientError::Api { errors } => {
                let mut s = String::from_str("Microsoft API returned error(s):\n  ");
                let mut i: usize = 0;
                while i < errors.len()
                    invariant
                        i <= errors@.len(),
                        s@ == "Microsoft API returned error(s):\n  "@ + api_error_lines(
                            errors@.subrange(0, i as int),
                        ),
                    decreases errors@.len() - i,
                {
                    let ghost before = s@;
                    if i > 0 {
                        s.append("\n  ");
                    }
                    let e = &errors[i];
                    s.append("[");
                    s.append(e.key.as_str());
                    s.append("] ");
                    s.append(e.value.as_str());
                    s.append(" (type ");
                    text::push_signed_decimal(&mut s, e.error_type as i64);
                    s.append(")");
                    proof {
                        let pre = errors@.subrange(0, i as int);
                        let post = errors@.subrange(0, i + 1);
                        assert(post.drop_last() =~= pre);
                        assert(post.last() == errors@[i as int]);
                        if i == 0 {
                            assert(pre.len() == 0);
                        }
                    }
                    i += 1;
                    proof {
                        assert(s@ =~= "Microsoft API returned error(s):\n  "@ + api_error_lines(
                            errors@.subrange(0, i as int),
                        ));
                    }
                }
                assert(errors@.subrange(0, errors@.len() as int) =~= errors@);
                s.append(COOKIE_HINT);
                s
            },
            ClientError::Malformed { endpoint, body_len, excerpt } => {
                let mut s = match endpoint {
                    Endpoint::Skus => String::from_str("Failed to parse SKU JSON."),
                    Endpoint::DownloadLinks => String::from_str("Failed to parse download JSON."),
                };
                s.append("\nBody (");
                push_decimal(&mut s, *body_len as u128);
                s.append(" bytes): ");
                s.append(excerpt.as_str());
                s
            },
            ClientError::NoSkus => String::from_str(
                "No SKUs returned \u{2013} the product edition ID may be invalid or expired",
            ),
            ClientError::NoDownloadLinks => String::from_str(
                "No download links returned \u{2013} the SKU may be invalid",
            ),
        }
    }
}

pub open spec fn errors_view(errors: Option<Vec<ApiError>>) -> Option<Seq<ApiError>> {
    match errors {
        Some(es) => Some(es@),
        None => None,
    }
}

/// The error list of an answer, when the answer parses as one.
pub open spec fn api_refusal(errors: Option<Seq<ApiError>>) -> bool {
    errors matches Some(es) && es.len() > 0
}

/// An answer whose error list parsed and is not empty is refused with those
/// errors.
pub fn check_api_errors(errors: Option<Vec<ApiError>>) -> (r: Result<(), ClientError>)
    ensures
        match errors {
            Some(es) if es@.len() > 0 => r matches Err(ClientError::Api { errors: e }) && e@
                == es@,
            _ => r is Ok,
        },
{
    match errors {
        Some(es) => {
            if es.len() > 0 {
                Err(ClientError::Api { errors: es })
            } else {
                Ok(())
            }
        },
        None => Ok(()),
    }
}

/// Where an excerpt of at most 500 bytes of an answer ends.
pub open spec fn excerpt_end(body: Seq<u8>) -> int {
    if body.len() < 500 {
        body.len() as int
    } else {
        500
    }
}

/// An answer that did not parse can be quoted: its first 500 bytes end on a
/// character boundary.
pub open spec fn excerpt_in_bounds(body: Seq<u8>) -> bool {
    is_char_boundary(body, excerpt_end(body))
}

/// `excerpt_in_bounds` of `body`.
pub fn body_excerpt_in_bounds(body: &str) -> (r: bool)
    ensures
        r == excerpt_in_bounds(body.spec_bytes()),
{
    let n = body.as_bytes().len();
    let end = if n < 500 {
        n
    } else {
        500
    };
    body.is_char_boundary(end)
}

fn malformed(endpoint: Endpoint, body: &str) -> (r: ClientError)
    requires
        excerpt_in_bounds(body.spec_bytes()),
    ensures
        r matches ClientError::Malformed { endpoint: ep, body_len, excerpt } && ep == endpoint
            && body_len == body.spec_bytes().len() && excerpt@ == decode_utf8(
            body.spec_bytes().subrange(0, excerpt_end(body.spec_bytes())),
        ),
{
    let n = body.as_bytes().len();
    let end = if n < 500 {
        n
    } else {
        500
    };
    proof {
        encode_utf8_valid_utf8(body@);
        is_char_boundary_start_end_of_seq(body.spec_bytes());
    }
    ClientError::Malformed { endpoint, body_len: n, excerpt: substr(body, 0, end).to_owned() }
}

/// What an SKU answer yields: its error list refuses it first, then a body
/// that did not parse, then an empty list.
pub fn finish_skus(body: &str, errors: Option<Vec<ApiError>>, parsed: Option<Vec<Sku>>) -> (r:
    Result<Vec<Sku>, ClientError>)
    requires
        !api_refusal(errors_view(errors)) && parsed is None ==> excerpt_in_bounds(
            body.spec_bytes(),
        ),
    ensures
        api_refusal(errors_view(errors)) ==> (r matches Err(ClientError::Api { errors: e }) && e@
            == errors.unwrap()@),
        !api_refusal(errors_view(errors)) ==> match parsed {
            None => r matches Err(ClientError::Malformed { endpoint: Endpoint::Skus, body_len, excerpt })
                && body_len == body.spec_bytes().len() && excerpt@ == decode_utf8(
                body.spec_bytes().subrange(0, excerpt_end(body.spec_bytes())),
            ),
            Some(skus) => if skus@.len() == 0 {
                r matches Err(ClientError::NoSkus)
            } else {
                r == Ok::<Vec<Sku>, ClientError>(skus)
            },
        },
{
    if let Err(e) = check_api_errors(errors) {
        return Err(e);
    }
    match parsed {
        None => Err(malformed(Endpoint::Skus, body)),
        Some(skus) => {
            if skus.len() == 0 {
                Err(ClientError::NoSkus)
            } else {
                Ok(skus)
            }
        },
    }
}

/// What a download-links answer yields: its error list refuses it first,
/// then a body that did not parse, then an empty list of options.
pub fn finish_download_links(
    body: &str,
    errors: Option<Vec<ApiError>>,
    parsed: Option<DownloadResponse>,
) -> (r: Result<DownloadResponse, ClientError>)
    requires
        !api_refusal(errors_view(errors)) && parsed is None ==> excerpt_in_bounds(
            body.spec_bytes(),
        ),
    ensures
        api_refusal(errors_view(errors)) ==> (r matches Err(ClientError::Api { errors: e }) && e@
            == errors.unwrap()@),
        !api_refusal(errors_view(errors)) ==> match parsed {
            None => r matches Err(
                ClientError::Malformed { endpoint: Endpoint::DownloadLinks, body_len, excerpt },
            ) && body_len == body.spec_bytes().len() && excerpt@ == decode_utf8(
                body.spec_bytes().subrange(0, excerpt_end(body.spec_bytes())),
            ),
            Some(resp) => if resp.product_download_options@.len() == 0 {
                r matches Err(ClientError::NoDownloadLinks)
            } else {
                r == Ok::<DownloadResponse, ClientError>(resp)
            },
        },
{
    if let Err(e) = check_api_errors(errors) {
        return Err(e);
    }
    match parsed {
        None => Err(malformed(Endpoint::DownloadLinks, body)),
        Some(resp) => {
            if resp.product_download_options.len() == 0 {
                Err(ClientError::NoDownloadLinks)
            } else {
                Ok(resp)
            }
        },
    }
}

// ── The fingerprint token ──────────────────────────────────────────────────

/// The `ticks` token a fingerprint script carries: the hex digits after its
/// first `&w=` when something other than a hex digit follows them; else the
/// text between its first `ticks:'` and the next `'`; else a fixed token.
pub open spec fn mdt_ticks(b: Seq<u8>) -> Seq<char> {
    let from_param = match text::find_from(b, pattern::ticks_param(), 0) {
        None => None,
        Some(i) => match text::find_outside_class(b, ByteClass::HexDigit, i + 3) {
            None => None,
            Some(j) => Some(decode_utf8(b.subrange(i + 3, j))),
        },
    };
    let from_field = match text::find_from(b, pattern::ticks_field(), 0) {
        None => None,
        Some(i) => match text::find_from(b, pattern::apostrophe(), i + 7) {
            None => None,
            Some(j) => Some(decode_utf8(b.subrange(i + 7, j))),
        },
    };
    match from_param {
        Some(t) => t,
        None => match from_field {
            Some(t) => t,
            None => "8DE86C5F9B41AD4"@,
        },
    }
}

/// The `ticks` token of the fingerprint script `mdt_body`.
pub fn extract_ticks(mdt_body: &str) -> (r: String)
    ensures
        r@ == mdt_ticks(mdt_body.spec_bytes()),
{
    let b = mdt_body.as_bytes();
    let n = b.len();
    let ghost bs = mdt_body.spec_bytes();
    proof {
        encode_utf8_valid_utf8(mdt_body@);
    }
    if let Some(i) = find_bytes(b, ticks_param_bytes(), 0) {
        proof {
            text::lemma_find_from_bounds(bs, pattern::ticks_param(), 0);
        }
        let rs = i + 3;
        if let Some(j) = find_outside(b, ByteClass::HexDigit, rs) {
            proof {
                text::lemma_find_outside_class_bounds(bs, ByteClass::HexDigit, rs as int);
                assert(bs.subrange(i as int, i + 3)[2] == bs[i + 2]);
                text::lemma_boundary_after_ascii(bs, rs as int);
                if j > rs {
                    assert(text::in_class(ByteClass::HexDigit, bs[j - 1]));
                    text::lemma_boundary_after_ascii(bs, j as int);
                }
            }
            return substr(mdt_body, rs, j).to_owned();
        }
    }
    if let Some(i) = find_bytes(b, ticks_field_bytes(), 0) {
        proof {
            text::lemma_find_from_bounds(bs, pattern::ticks_field(), 0);
        }
        let rs = i + 7;
        if let Some(j) = find_bytes(b, apostrophe_bytes(), rs) {
            proof {
                text::lemma_find_from_bounds(bs, pattern::apostrophe(), rs as int);
                assert(bs.subrange(i as int, i + 7)[6] == bs[i + 6]);
                assert(bs.subrange(j as int, j + 1)[0] == bs[j as int]);
                text::lemma_boundary_after_ascii(bs, rs as int);
                text::lemma_boundary_at_ascii(bs, j as int);
            }
            return substr(mdt_body, rs, j).to_owned();
        }
    }
    String::from_str("8DE86C5F9B41AD4")
}

// ── The session ────────────────────────────────────────────────────────────

/// A session: the download page it was opened on, its random id, the
/// identifiers it uses, and the browser cookies it forwards.
#[derive(Debug, Clone)]
pub struct MsDownloadClient {
    pub session_id: String,
    pub page_url: String,
    pub cfg: PageConfig,
    pub browser_cookie: Option<String>,
    pub debug: bool,
}

pub open spec fn vlsc_tags_js_url(org_id: Seq<char>, session_id: Seq<char>) -> Seq<char> {
    "https://vlscppe.microsoft.com/fp/tags.js?org_id="@ + org_id + "&session_id="@ + session_id
}

pub open spec fn vlsc_tags_url(org_id: Seq<char>, session_id: Seq<char>) -> Seq<char> {
    "https://vlscppe.microsoft.com/tags?org_id="@ + org_id + "&session_id="@ + session_id
}

pub open spec fn mdt_url(instance_id: Seq<char>, session_id: Seq<char>) -> Seq<char> {
    "https://ov-df.microsoft.com/mdt.js?instanceId="@ + instance_id + "&pageId=si&session_id="@
        + session_id
}

pub open spec fn fpt_url(
    session_id: Seq<char>,
    instance_id: Seq<char>,
    ticks: Seq<char>,
    now_ms: nat,
) -> Seq<char> {
    "https://ov-df.microsoft.com/?session_id="@ + session_id + "&CustomerId="@ + instance_id
        + "&PageId=si&w="@ + ticks + "&mdt="@ + text::decimal(now_ms) + "&rticks="@
        + text::decimal(now_ms)
}

pub open spec fn sku_url(
    api_base: Seq<char>,
    profile: Seq<char>,
    product_edition_id: Seq<char>,
    session_id: Seq<char>,
) -> Seq<char> {
    api_base + "/getskuinformationbyproductedition?profile="@ + profile + "&ProductEditionId="@
        + product_edition_id
        + "&SKU=undefined&friendlyFileName=undefined&Locale=en-US&sessionID="@ + session_id
}

pub open spec fn download_links_url(
    api_base: Seq<char>,
    profile: Seq<char>,
    sku_id: Seq<char>,
    session_id: Seq<char>,
) -> Seq<char> {
    api_base + "/GetProductDownloadLinksBySku?profile="@ + profile
        + "&ProductEditionId=undefined&SKU="@ + sku_id
        + "&friendlyFileName=undefined&Locale=en-US&sessionID="@ + session_id
}

/// The headers that the API endpoints are called with, after the first ones
/// given: language, referring page, the XHR markers, and the browser cookies
/// when there are any.
pub open spec fn api_headers(
    page_url: Seq<char>,
    cookie: Option<Seq<char>>,
) -> Seq<(Seq<char>, Seq<char>)> {
    let base = seq![
        ("accept-language"@, "en-US,en;q=0.9"@),
        ("referer"@, page_url),
        ("X-Requested-With"@, "XMLHttpRequest"@),
        ("Sec-Fetch-Site"@, "same-origin"@),
        ("Sec-Fetch-Mode"@, "cors"@),
        ("Sec-Fetch-Dest"@, "empty"@),
    ];
    match cookie {
        Some(c) => base.push(("cookie"@, c)),
        None => base,
    }
}

pub open spec fn cookie_view(c: Option<String>) -> Option<Seq<char>> {
    match c {
        Some(s) => Some(s@),
        None => None,
    }
}

impl MsDownloadClient {
    /// Opens a session on the download page `page_url` with a fresh random
    /// session id and the built-in identifiers.
    pub fn start(page_url: String, browser_cookie: Option<String>, debug: bool) -> (c: Self)
        ensures
            c.page_url@ == page_url@,
            c.browser_cookie == browser_cookie,
            c.debug == debug,
            c.cfg.is_default(),
            is_uuid_v4_text(c.session_id@),
    {
        MsDownloadClient {
            session_id: new_session_id(),
            page_url,
            cfg: PageConfig::default(),
            browser_cookie,
            debug,
        }
    }

    /// The request that loads the download page.
    pub fn page_request(&self) -> (r: HttpRequest)
        ensures
            r.url@ == self.page_url@,
            r.header_list() == seq![
                ("accept"@, "text/html,*/*;q=0.8"@),
                ("accept-language"@, "en-US,en;q=0.5"@),
            ],
    {
        HttpRequest::get(self.page_url.clone()).with_header("accept", "text/html,*/*;q=0.8").with_header(
            "accept-language",
            "en-US,en;q=0.5",
        )
    }

    /// Takes the API base from the loaded download page (its `endpoint-svc`
    /// input without trailing slashes; the built-in base when it has none)
    /// and returns the address of the script bundle it loads.
    pub fn configure_from_page(&mut self, page_html: &str) -> (js_url: Option<String>)
        ensures
            final(self).cfg.api_base@ == match page_api_base(page_html.spec_bytes()) {
                Some(b) => b,
                None => types::default_api_base(),
            },
            final(self).cfg.profile@ == types::default_profile(),
            final(self).cfg.instance_id@ == types::default_instance_id(),
            final(self).cfg.org_id@ == types::default_org_id(),
            final(self).session_id == old(self).session_id,
            final(self).page_url == old(self).page_url,
            final(self).browser_cookie == old(self).browser_cookie,
            final(self).debug == old(self).debug,
            match page::sds_js_url(page_html.spec_bytes()) {
                None => js_url is None,
                Some(u) => js_url matches Some(s) && s@ == u,
            },
    {
        let mut cfg = PageConfig::default();
        let id = "endpoint-svc";
        proof {
            assert(id.spec_bytes() == endpoint_input_id());
        }
        if let Some(ep) = extract_hidden_input(page_html, id) {
            cfg.api_base = trim_trailing_slashes(ep.as_str());
        }
        self.cfg = cfg;
        extract_sds_js_url(page_html)
    }

    /// Takes the profile and fingerprint identifiers from the script bundle;
    /// the API base stays.
    pub fn configure_from_sds_js(&mut self, js: &str)
        ensures
            final(self).cfg.api_base == old(self).cfg.api_base,
            final(self).cfg.profile@ == page::or_default(
                page::sds_profile(js.spec_bytes()),
                types::default_profile(),
            ),
            final(self).cfg.instance_id@ == page::or_default(
                page::sds_instance_id(js.spec_bytes()),
                types::default_instance_id(),
            ),
            final(self).cfg.org_id@ == page::or_default(
                page::sds_org_id(js.spec_bytes()),
                types::default_org_id(),
            ),
            final(self).session_id == old(self).session_id,
            final(self).page_url == old(self).page_url,
            final(self).browser_cookie == old(self).browser_cookie,
            final(self).debug == old(self).debug,
    {
        let api_base = self.cfg.api_base.clone();
        let mut cfg = extract_from_sds_js(js);
        cfg.api_base = api_base;
        self.cfg = cfg;
    }

    /// The two requests of the ThreatMetrix fingerprint: its script, then its
    /// frame.
    pub fn vlsc_requests(&self) -> (r: (HttpRequest, HttpRequest))
        ensures
            r.0.url@ == vlsc_tags_js_url(self.cfg.org_id@, self.session_id@),
            r.0.header_list() == seq![("referer"@, self.page_url@)],
            r.1.url@ == vlsc_tags_url(self.cfg.org_id@, self.session_id@),
            r.1.header_list() == seq![("referer"@, self.page_url@)],
    {
        let mut js = String::from_str("https://vlscppe.microsoft.com/fp/tags.js?org_id=");
        js.append(self.cfg.org_id.as_str());
        js.append("&session_id=");
        js.append(self.session_id.as_str());
        let mut frame = String::from_str("https://vlscppe.microsoft.com/tags?org_id=");
        frame.append(self.cfg.org_id.as_str());
        frame.append("&session_id=");
        frame.append(self.session_id.as_str());
        (
            HttpRequest::get(js).with_header("referer", self.page_url.as_str()),
            HttpRequest::get(frame).with_header("referer", self.page_url.as_str()),
        )
    }

    /// The request for the device-fingerprint script, whose answer carries
    /// the `ticks` token.
    pub fn mdt_request(&self) -> (r: HttpRequest)
        ensures
            r.url@ == mdt_url(self.cfg.instance_id@, self.session_id@),
            r.header_list() == seq![("referer"@, self.page_url@), ("accept"@, "*/*"@)],
    {
        let mut url = String::from_str("https://ov-df.microsoft.com/mdt.js?instanceId=");
        url.append(self.cfg.instance_id.as_str());
        url.append("&pageId=si&session_id=");
        url.append(self.session_id.as_str());
        HttpRequest::get(url).with_header("referer", self.page_url.as_str()).with_header(
            "accept",
            "*/*",
        )
    }

    /// The device-fingerprint frame request, for the `ticks` token and the
    /// current time in milliseconds since the Unix epoch.
    pub fn fpt_request(&self, ticks: &str, now_ms: u128) -> (r: HttpRequest)
        ensures
            r.url@ == fpt_url(self.session_id@, self.cfg.instance_id@, ticks@, now_ms as nat),
            r.header_list() == seq![("referer"@, self.page_url@)],
    {
        let mut url = String::from_str("https://ov-df.microsoft.com/?session_id=");
        url.append(self.session_id.as_str());
        url.append("&CustomerId=");
        url.append(self.cfg.instance_id.as_str());
        url.append("&PageId=si&w=");
        url.append(ticks);
        url.append("&mdt=");
        push_decimal(&mut url, now_ms);
        url.append("&rticks=");
        push_decimal(&mut url, now_ms);
        HttpRequest::get(url).with_header("referer", self.page_url.as_str())
    }

    fn with_api_headers(&self, r: HttpRequest) -> (out: HttpRequest)
        ensures
            out.url@ == r.url@,
            out.header_list() == r.header_list() + api_headers(
                self.page_url@,
                cookie_view(self.browser_cookie),
            ),
    {
        let ghost first = r.header_list();
        let mut out = r.with_header("accept-language", "en-US,en;q=0.9").with_header(
            "referer",
            self.page_url.as_str(),
        ).with_header("X-Requested-With", "XMLHttpRequest").with_header(
            "Sec-Fetch-Site",
            "same-origin",
        ).with_header("Sec-Fetch-Mode", "cors").with_header("Sec-Fetch-Dest", "empty");
        match &self.browser_cookie {
            Some(c) => {
                out = out.with_header("cookie", c.as_str());
            },
            None => {},
        }
        assert(out.header_list() =~= first + api_headers(
            self.page_url@,
            cookie_view(self.browser_cookie),
        ));
        out
    }

    /// The request for the SKUs (languages) of a product edition.
    pub fn sku_request(&self, product_edition_id: &str) -> (r: HttpRequest)
        ensures
            r.url@ == sku_url(
                self.cfg.api_base@,
                self.cfg.profile@,
                product_edition_id@,
                self.session_id@,
            ),
            r.header_list() == api_headers(self.page_url@, cookie_view(self.browser_cookie)),
    {
        let mut url = self.cfg.api_base.clone();
        url.append("/getskuinformationbyproductedition?profile=");
        url.append(self.cfg.profile.as_str());
        url.append("&ProductEditionId=");
        url.append(product_edition_id);
        url.append("&SKU=undefined&friendlyFileName=undefined&Locale=en-US&sessionID=");
        url.append(self.session_id.as_str());
        let r = self.with_api_headers(HttpRequest::get(url));
        assert(r.header_list() =~= api_headers(self.page_url@, cookie_view(self.browser_cookie)));
        r
    }

    /// The request for the download links of a SKU.
    pub fn download_links_request(&self, sku_id: &str) -> (r: HttpRequest)
        ensures
            r.url@ == download_links_url(
                self.cfg.api_base@,
                self.cfg.profile@,
                sku_id@,
                self.session_id@,
            ),
            r.header_list() == seq![
                ("accept"@, "application/json, text/javascript, */*; q=0.01"@),
            ] + api_headers(self.page_url@, cookie_view(self.browser_cookie)),
    {
        let mut url = self.cfg.api_base.clone();
        url.append("/GetProductDownloadLinksBySku?profile=");
        url.append(self.cfg.profile.as_str());
        url.append("&ProductEditionId=undefined&SKU=");
        url.append(sku_id);
        url.append("&friendlyFileName=undefined&Locale=en-US&sessionID=");
        url.append(self.session_id.as_str());
        let r = HttpRequest::get(url).with_header(
            "accept",
            "application/json, text/javascript, */*; q=0.01",
        );
        self.with_api_headers(r)
    }
}

} // verus!
