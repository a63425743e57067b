//! Configuration scraped from the download page and from the script bundle
//! that the page loads.
use vstd::prelude::*;
use vstd::utf8::*;
use vstd::string::StringSliceAdditionalSpecFns;

use crate::pattern::{
    self, apostrophe_bytes, id_attr_open_bytes, instance_id_escaped_bytes, instance_id_plain_bytes,
    min_js_bytes, org_id_open_bytes, profile_escaped_bytes, profile_plain_bytes, quote_bytes,
    sds_marker_bytes, src_attr_open_bytes, value_attr_open_bytes,
};
use crate::text::{
    self, ByteClass, find_bytes, find_bytes_before, find_outside, rfind_bytes_within, starts_with,
    substr, trim,
};
use crate::types::{self, PageConfig};

verus! {

broadcast use vstd::seq::group_seq_axioms;

// ── Hidden inputs ──────────────────────────────────────────────────────────

/// `id="<id>"`
pub open spec fn id_pattern(id: Seq<u8>) -> Seq<u8> {
    pattern::id_attr_open() + id + pattern::quote()
}

/// The attribute `id="<id>"` first occurs at `idx`; its value is looked for
/// in the bytes from `idx` up to `end`, at most 300 bytes on.
pub open spec fn hidden_input_window(b: Seq<u8>, id: Seq<u8>) -> Option<(int, int)> {
    match text::find_from(b, id_pattern(id), 0) {
        None => None,
        Some(idx) => Some((idx, if idx + 300 < b.len() { idx + 300 } else { b.len() as int })),
    }
}

/// The trimmed `value="…"` that follows `id="<id>"` inside the window, when
/// it is not empty.
pub open spec fn hidden_input_value(b: Seq<u8>, id: Seq<u8>) -> Option<Seq<char>> {
    match hidden_input_window(b, id) {
        None => None,
        Some((idx, end)) => {
            let w = b.subrange(0, end);
            match text::find_from(w, pattern::value_attr_open(), idx) {
                None => None,
                Some(v) => {
                    let vs = v + 7;
                    match text::find_from(w, pattern::quote(), vs) {
                        None => None,
                        Some(ve) => {
                            let val = text::trimmed(decode_utf8(b.subrange(vs, ve)));
                            if val.len() == 0 {
                                None
                            } else {
                                Some(val)
                            }
                        },
                    }
                },
            }
        },
    }
}

fn hidden_input_window_exec(html: &str, id: &str) -> (r: Option<(usize, usize)>)
    ensures
        r is None <==> hidden_input_window(html.spec_bytes(), id.spec_bytes()) is None,
        r matches Some((idx, end)) ==> hidden_input_window(html.spec_bytes(), id.spec_bytes())
            == Some((idx as int, end as int)),
        r matches Some((idx, end)) ==> idx <= end <= html.spec_bytes().len() && text::matches_at(
            html.spec_bytes(),
            id_pattern(id.spec_bytes()),
            idx as int,
        ),
{
    let b = html.as_bytes();
    let n = b.len();
    let mut pat: Vec<u8> = Vec::new();
    let open = id_attr_open_bytes();
    let idb = id.as_bytes();
    let mut i: usize = 0;
    while i < open.len()
        invariant
            i <= open@.len(),
            pat@ == open@.subrange(0, i as int),
        decreases open@.len() - i,
    {
        pat.push(open[i]);
        i += 1;
        assert(pat@ =~= open@.subrange(0, i as int));
    }
    let mut j: usize = 0;
    while j < idb.len()
        invariant
            j <= idb@.len(),
            pat@ == open@ + idb@.subrange(0, j as int),
        decreases idb@.len() - j,
    {
        pat.push(idb[j]);
        j += 1;
        assert(pat@ =~= open@ + idb@.subrange(0, j as int));
    }
    pat.push(quote_bytes()[0]);
    assert(pat@ =~= id_pattern(id.spec_bytes()));
    match find_bytes(b, pat.as_slice(), 0) {
        None => None,
        Some(idx) => {
            proof {
                text::lemma_find_from_bounds(b@, pat@, 0);
            }
            let end = if b.len() - idx > 300 {
                idx + 300
            } else {
                b.len()
            };
            Some((idx, end))
        },
    }
}

/// The value of the hidden `<input>` whose `id` attribute is `id`: the
/// trimmed text of the first `value="…"` within 300 bytes of `id="<id>"`,
/// or `None` when there is none or it is empty.
pub fn extract_hidden_input(html: &str, id: &str) -> (r: Option<String>)
    ensures
        match hidden_input_value(html.spec_bytes(), id.spec_bytes()) {
            None => r is None,
            Some(v) => r matches Some(s) && s@ == v,
        },
{
    let b = html.as_bytes();
    let n = b.len();
    let ghost bs = html.spec_bytes();
    proof {
        encode_utf8_valid_utf8(html@);
    }
    let (idx, end) = match hidden_input_window_exec(html, id) {
        None => {
            return None;
        },
        Some(w) => w,
    };
    let ghost w = bs.subrange(0, end as int);
    let v = match find_bytes_before(b, value_attr_open_bytes(), idx, end) {
        None => {
            return None;
        },
        Some(v) => v,
    };
    proof {
        text::lemma_find_from_bounds(w, pattern::value_attr_open(), idx as int);
    }
    let vs = v + 7;
    let ve = match find_bytes_before(b, quote_bytes(), vs, end) {
        None => {
            return None;
        },
        Some(ve) => ve,
    };
    proof {
        text::lemma_find_from_bounds(w, pattern::quote(), vs as int);
        assert(w.subrange(v as int, v + 7)[6] == bs[v + 6]);
        assert(w.subrange(ve as int, ve + 1)[0] == bs[ve as int]);
        text::lemma_boundary_after_ascii(bs, vs as int);
        text::lemma_boundary_at_ascii(bs, ve as int);
    }
    let val = trim(substr(html, vs, ve));
    if val.unicode_len() == 0 {
        None
    } else {
        Some(val.to_owned())
    }
}

// ── The script bundle's address ────────────────────────────────────────────

/// Walks the occurrences of the bundle marker from byte `search` on.  At an
/// occurrence `mp` whose next 120 bytes contain `.min.js`, the last `src="`
/// within the 300 bytes before `mp` opens the address, which runs to the next
/// `"`.  The markers are ASCII, so where a window's edge cuts a character
/// the search is the same as in the window narrowed to whole characters.
/// `Some((start, end))` gives the address's byte range.
pub open spec fn sds_scan(b: Seq<u8>, search: int) -> Option<(int, int)>
    decreases b.len() - search + 1,
{
    if search < 0 || search > b.len() {
        None
    } else {
        match text::find_from(b, pattern::sds_marker(), search) {
            None => None,
            Some(mp) => {
                proof {
                    text::lemma_find_from_bounds(b, pattern::sds_marker(), search);
                }
                let next = mp + 35;
                let tail_end = if mp + 120 < b.len() {
                    mp + 120
                } else {
                    b.len() as int
                };
                if !text::contains_within(b, pattern::min_js(), mp, tail_end) {
                    sds_scan(b, next)
                } else {
                    let ws = if mp >= 300 {
                        mp - 300
                    } else {
                        0
                    };
                    match text::rfind_within(b, pattern::src_attr_open(), ws, mp) {
                        None => sds_scan(b, next),
                        Some(sr) => {
                            let ss = sr + 5;
                            match text::find_from(b, pattern::quote(), ss) {
                                None => sds_scan(b, next),
                                Some(se) => Some((ss, se)),
                            }
                        },
                    }
                }
            },
        }
    }
}

/// The bundle's address `b[ss..se]` is the `src` attribute of the script tag
/// that names the bundle: at some occurrence `mp` of the marker, followed
/// within 120 bytes by `.min.js`, the address starts right after the last
/// `src="` that begins at most 300 bytes before `mp` and ends before it, and
/// runs to the first `"` after that.
pub open spec fn is_bundle_src(b: Seq<u8>, ss: int, se: int) -> bool {
    exists|mp: int|
        #![trigger text::matches_at(b, pattern::sds_marker(), mp)]
        text::matches_at(b, pattern::sds_marker(), mp) && text::contains_within(
            b,
            pattern::min_js(),
            mp,
            if mp + 120 < b.len() {
                mp + 120
            } else {
                b.len() as int
            },
        ) && mp - 300 <= ss - 5 && ss <= mp && text::matches_at(b, pattern::src_attr_open(), ss - 5)
            && (forall|j: int|
            #![trigger text::matches_at(b, pattern::src_attr_open(), j)]
            ss - 5 < j && j + 5 <= mp ==> !text::matches_at(b, pattern::src_attr_open(), j)) && ss
            <= se && text::matches_at(b, pattern::quote(), se) && (forall|k: int|
            #![trigger text::matches_at(b, pattern::quote(), k)]
            ss <= k < se ==> !text::matches_at(b, pattern::quote(), k))
}

proof fn lemma_sds_scan_from(b: Seq<u8>, search: int)
    ensures
        sds_scan(b, search) matches Some((ss, se)) ==> is_bundle_src(b, ss, se),
    decreases b.len() - search + 1,
{
    if search < 0 || search > b.len() {
    } else {
        match text::find_from(b, pattern::sds_marker(), search) {
            None => {},
            Some(mp) => {
                text::lemma_find_from_bounds(b, pattern::sds_marker(), search);
                let next = mp + 35;
                let tail_end = if mp + 120 < b.len() {
                    mp + 120
                } else {
                    b.len() as int
                };
                if !text::contains_within(b, pattern::min_js(), mp, tail_end) {
                    lemma_sds_scan_from(b, next);
                } else {
                    let ws = if mp >= 300 {
                        mp - 300
                    } else {
                        0
                    };
                    text::lemma_rfind_down_bounds(b, pattern::src_attr_open(), ws, mp - 5);
                    text::lemma_rfind_down_last(b, pattern::src_attr_open(), ws, mp - 5);
                    match text::rfind_within(b, pattern::src_attr_open(), ws, mp) {
                        None => {
                            lemma_sds_scan_from(b, next);
                        },
                        Some(sr) => {
                            let ss = sr + 5;
                            text::lemma_find_from_bounds(b, pattern::quote(), ss);
                            match text::find_from(b, pattern::quote(), ss) {
                                None => {
                                    lemma_sds_scan_from(b, next);
                                },
                                Some(se) => {
                                    assert(text::matches_at(b, pattern::sds_marker(), mp));
                                },
                            }
                        },
                    }
                }
            },
        }
    }
}

/// The address read from a page is the `src` of the tag that names the
/// bundle, not of another script tag before it.
pub proof fn lemma_sds_address_is_bundle_src(b: Seq<u8>)
    ensures
        sds_scan(b, 0) matches Some((ss, se)) ==> is_bundle_src(b, ss, se),
{
    lemma_sds_scan_from(b, 0);
}

pub open spec fn microsoft_origin() -> Seq<char> {
    "https://www.microsoft.com"@
}

/// The bundle's address, made absolute on `https://www.microsoft.com` when
/// the page gives a path.
pub open spec fn sds_js_url(b: Seq<u8>) -> Option<Seq<char>> {
    match sds_scan(b, 0) {
        Some((ss, se)) => {
            let path = text::trimmed(decode_utf8(b.subrange(ss, se)));
            if text::has_prefix(path, "http"@) {
                Some(path)
            } else {
                Some(microsoft_origin() + path)
            }
        },
        None => None,
    }
}

fn sds_scan_exec(html: &str) -> (r: Option<(usize, usize)>)
    ensures
        r is None <==> sds_scan(html.spec_bytes(), 0) is None,
        r matches Some((ss, se)) ==> sds_scan(html.spec_bytes(), 0) == Some((ss as int, se as int)),
        r matches Some((ss, se)) ==> 5 <= ss <= se < html.spec_bytes().len()
            && html.spec_bytes()[ss - 1] == '"' as u8 && html.spec_bytes()[se as int] == '"' as u8,
{
    let b = html.as_bytes();
    let ghost bs = html.spec_bytes();
    let n = b.len();
    let marker = sds_marker_bytes();
    let minjs = min_js_bytes();
    let src = src_attr_open_bytes();
    let q = quote_bytes();
    let mut search: usize = 0;
    loop
        invariant
            b@ == bs,
            n == bs.len(),
            bs == html.spec_bytes(),
            marker@ == pattern::sds_marker(),
            minjs@ == pattern::min_js(),
            src@ == pattern::src_attr_open(),
            q@ == pattern::quote(),
            search <= bs.len(),
            sds_scan(bs, 0) == sds_scan(bs, search as int),
        decreases bs.len() - search,
    {
        let mp = match find_bytes(b, marker, search) {
            None => {
                return None;
            },
            Some(mp) => mp,
        };
        proof {
            text::lemma_find_from_bounds(bs, pattern::sds_marker(), search as int);
        }
        let next = mp + 35;
        let tail_end = if b.len() - mp > 120 {
            mp + 120
        } else {
            b.len()
        };
        if rfind_bytes_within(b, minjs, mp, tail_end).is_some() {
            let ws = if mp >= 300 {
                mp - 300
            } else {
                0
            };
            match rfind_bytes_within(b, src, ws, mp) {
                Some(sr) => {
                    proof {
                        text::lemma_rfind_down_bounds(bs, pattern::src_attr_open(), ws as int, mp - 5);
                    }
                    let ss = sr + 5;
                    match find_bytes(b, q, ss) {
                        Some(se) => {
                            proof {
                                text::lemma_find_from_bounds(bs, pattern::quote(), ss as int);
                                assert(bs.subrange(sr as int, sr + 5)[4] == bs[sr + 4]);
                                assert(bs.subrange(se as int, se + 1)[0] == bs[se as int]);
                            }
                            return Some((ss, se));
                        },
                        None => {},
                    }
                },
                None => {},
            }
        }
        search = next;
    }
}

/// The address of the SDS script bundle that the page loads.
pub fn extract_sds_js_url(html: &str) -> (r: Option<String>)
    ensures
        match sds_js_url(html.spec_bytes()) {
            None => r is None,
            Some(u) => r matches Some(s) && s@ == u,
        },
{
    let ghost bs = html.spec_bytes();
    proof {
        encode_utf8_valid_utf8(html@);
    }
    match sds_scan_exec(html) {
        Some((ss, se)) => {
            proof {
                text::lemma_boundary_after_ascii(bs, ss as int);
                text::lemma_boundary_at_ascii(bs, se as int);
            }
            let path = trim(substr(html, ss, se));
            if starts_with(path, "http") {
                Some(path.to_owned())
            } else {
                let mut url = String::from_str("https://www.microsoft.com");
                url.append(path);
                Some(url)
            }
        },
        None => None,
    }
}

// ── Identifiers in the script bundle ───────────────────────────────────────

/// The run of `class` bytes that follows the first `escaped` marker, or, when
/// there is none, the first `plain` marker; `None` when there is no marker,
/// the run is empty or it reaches the end of the text.
pub open spec fn marked_run(b: Seq<u8>, escaped: Seq<u8>, plain: Seq<u8>, class: ByteClass) -> Option<
    Seq<char>,
> {
    let start = match text::find_from(b, escaped, 0) {
        Some(i) => Some(i + escaped.len()),
        None => match text::find_from(b, plain, 0) {
            Some(i) => Some(i + plain.len()),
            None => None,
        },
    };
    match start {
        None => None,
        Some(rs) => match text::find_outside_class(b, class, rs) {
            None => None,
            Some(e) => if e > rs {
                Some(decode_utf8(b.subrange(rs, e)))
            } else {
                None
            },
        },
    }
}

pub open spec fn sds_profile(b: Seq<u8>) -> Option<Seq<char>> {
    marked_run(b, pattern::profile_escaped(), pattern::profile_plain(), ByteClass::AlphaNumeric)
}

pub open spec fn sds_instance_id(b: Seq<u8>) -> Option<Seq<char>> {
    marked_run(
        b,
        pattern::instance_id_escaped(),
        pattern::instance_id_plain(),
        ByteClass::AlphaNumericOrDash,
    )
}

/// The first non-empty `orgId:"…"` value from byte `s` on.
pub open spec fn sds_org_id_from(b: Seq<u8>, s: int) -> Option<Seq<char>>
    decreases b.len() - s + 1,
{
    if s < 0 || s > b.len() {
        None
    } else {
        match text::find_from(b, pattern::org_id_open(), s) {
            None => None,
            Some(p) => {
                proof {
                    text::lemma_find_from_bounds(b, pattern::org_id_open(), s);
                }
                let rs = p + 7;
                match text::find_from(b, pattern::quote(), rs) {
                    Some(e) => if e > rs {
                        Some(decode_utf8(b.subrange(rs, e)))
                    } else {
                        sds_org_id_from(b, rs)
                    },
                    None => sds_org_id_from(b, rs),
                }
            },
        }
    }
}

pub open spec fn sds_org_id(b: Seq<u8>) -> Option<Seq<char>> {
    sds_org_id_from(b, 0)
}

pub open spec fn or_default(v: Option<Seq<char>>, d: Seq<char>) -> Seq<char> {
    match v {
        Some(x) => x,
        None => d,
    }
}

/// The run found by `marked_run`, as text.
fn marked_run_exec(js: &str, escaped: &[u8], plain: &[u8], class: ByteClass) -> (r: Option<String>)
    requires
        escaped@.len() > 0,
        plain@.len() > 0,
        escaped@[escaped@.len() - 1] < 0x80,
        plain@[plain@.len() - 1] < 0x80,
    ensures
        match marked_run(js.spec_bytes(), escaped@, plain@, class) {
            None => r is None,
            Some(v) => r matches Some(s) && s@ == v,
        },
{
    let b = js.as_bytes();
    let n = b.len();
    let ghost bs = js.spec_bytes();
    proof {
        encode_utf8_valid_utf8(js@);
    }
    let rs = match find_bytes(b, escaped, 0) {
        Some(i) => {
            proof {
                text::lemma_find_from_bounds(bs, escaped@, 0);
                assert(bs.subrange(i as int, i + escaped@.len())[escaped@.len() - 1] == bs[i
                    + escaped@.len() - 1]);
            }
            i + escaped.len()
        },
        None => match find_bytes(b, plain, 0) {
            Some(i) => {
                proof {
                    text::lemma_find_from_bounds(bs, plain@, 0);
                    assert(bs.subrange(i as int, i + plain@.len())[plain@.len() - 1] == bs[i
                        + plain@.len() - 1]);
                }
                i + plain.len()
            },
            None => {
                return None;
            },
        },
    };
    let ghost cls = class;
    match find_outside(b, class, rs) {
        None => None,
        Some(e) => {
            if e > rs {
                proof {
                    text::lemma_find_outside_class_bounds(bs, cls, rs as int);
                    assert(text::in_class(cls, bs[e - 1]));
                    text::lemma_boundary_after_ascii(bs, rs as int);
                    text::lemma_boundary_after_ascii(bs, e as int);
                }
                Some(substr(js, rs, e).to_owned())
            } else {
                None
            }
        },
    }
}

fn org_id_exec(js: &str) -> (r: Option<String>)
    ensures
        match sds_org_id(js.spec_bytes()) {
            None => r is None,
            Some(v) => r matches Some(s) && s@ == v,
        },
{
    let b = js.as_bytes();
    let ghost bs = js.spec_bytes();
    proof {
        encode_utf8_valid_utf8(js@);
    }
    let n = b.len();
    let open = org_id_open_bytes();
    let q = quote_bytes();
    let mut s: usize = 0;
    loop
        invariant
            b@ == bs,
            n == bs.len(),
            bs == js.spec_bytes(),
            valid_utf8(bs),
            open@ == pattern::org_id_open(),
            q@ == pattern::quote(),
            s <= bs.len(),
            sds_org_id(bs) == sds_org_id_from(bs, s as int),
        decreases bs.len() - s,
    {
        let p = match find_bytes(b, open, s) {
            None => {
                return None;
            },
            Some(p) => p,
        };
        proof {
            text::lemma_find_from_bounds(bs, pattern::org_id_open(), s as int);
        }
        let rs = p + 7;
        match find_bytes(b, q, rs) {
            Some(e) => {
                if e > rs {
                    proof {
                        text::lemma_find_from_bounds(bs, pattern::quote(), rs as int);
                        assert(bs.subrange(p as int, p + 7)[6] == bs[p + 6]);
                        assert(bs.subrange(e as int, e + 1)[0] == bs[e as int]);
                        text::lemma_boundary_after_ascii(bs, rs as int);
                        text::lemma_boundary_at_ascii(bs, e as int);
                    }
                    return Some(substr(js, rs, e).to_owned());
                }
            },
            None => {},
        }
        s = rs;
    }
}

/// The identifiers published in the SDS script bundle, each falling back to
/// its built-in value: `profile` (after `profile\x3d` or `profile=`, ASCII
/// letters and digits), `instanceId` (after `instanceId\x3d` or
/// `instanceId=`, letters, digits and `-`) and the first non-empty
/// `orgId:"…"`.  The API base keeps its built-in value.
pub fn extract_from_sds_js(js: &str) -> (cfg: PageConfig)
    ensures
        cfg.api_base@ == types::default_api_base(),
        cfg.profile@ == or_default(sds_profile(js.spec_bytes()), types::default_profile()),
        cfg.instance_id@ == or_default(
            sds_instance_id(js.spec_bytes()),
            types::default_instance_id(),
        ),
        cfg.org_id@ == or_default(sds_org_id(js.spec_bytes()), types::default_org_id()),
{
    let mut cfg = PageConfig::default();
    let pe = profile_escaped_bytes();
    let pp = profile_plain_bytes();
    let ie = instance_id_escaped_bytes();
    let ip = instance_id_plain_bytes();
    if let Some(v) = marked_run_exec(js, pe, pp, ByteClass::AlphaNumeric) {
        cfg.profile = v;
    }
    if let Some(v) = marked_run_exec(js, ie, ip, ByteClass::AlphaNumericOrDash) {
        cfg.instance_id = v;
    }
    if let Some(v) = org_id_exec(js) {
        cfg.org_id = v;
    }
    cfg
}

} // verus!
