//! The fixed ASCII markers that the page and script scanners look for, as
//! bytes.
use vstd::prelude::*;
use vstd::string::StringSliceAdditionalSpecFns;

verus! {

broadcast use vstd::string::group_string_axioms;

pub open spec fn td_open() -> Seq<u8> {
    seq!['<' as u8, 't' as u8, 'd' as u8, '>' as u8]
}

pub open spec fn td_close() -> Seq<u8> {
    seq!['<' as u8, '/' as u8, 't' as u8, 'd' as u8, '>' as u8]
}

pub open spec fn quote() -> Seq<u8> {
    seq!['"' as u8]
}

pub open spec fn apostrophe() -> Seq<u8> {
    seq!['\'' as u8]
}

/// `id="`
pub open spec fn id_attr_open() -> Seq<u8> {
    seq!['i' as u8, 'd' as u8, '=' as u8, '"' as u8]
}

/// `value="`
pub open spec fn value_attr_open() -> Seq<u8> {
    seq!['v' as u8, 'a' as u8, 'l' as u8, 'u' as u8, 'e' as u8, '=' as u8, '"' as u8]
}

/// `src="`
pub open spec fn src_attr_open() -> Seq<u8> {
    seq!['s' as u8, 'r' as u8, 'c' as u8, '=' as u8, '"' as u8]
}

/// `.min.js`
pub open spec fn min_js() -> Seq<u8> {
    seq!['.' as u8, 'm' as u8, 'i' as u8, 'n' as u8, '.' as u8, 'j' as u8, 's' as u8]
}

/// `sdsbase/v1/sdsbase/clientlibs/site.`
pub open spec fn sds_marker() -> Seq<u8> {
    seq![
        's' as u8, 'd' as u8, 's' as u8, 'b' as u8, 'a' as u8, 's' as u8, 'e' as u8, '/' as u8,
        'v' as u8, '1' as u8, '/' as u8, 's' as u8, 'd' as u8, 's' as u8, 'b' as u8, 'a' as u8,
        's' as u8, 'e' as u8, '/' as u8, 'c' as u8, 'l' as u8, 'i' as u8, 'e' as u8, 'n' as u8,
        't' as u8, 'l' as u8, 'i' as u8, 'b' as u8, 's' as u8, '/' as u8, 's' as u8, 'i' as u8,
        't' as u8, 'e' as u8, '.' as u8,
    ]
}

/// `profile\x3d` (the backslash escape as it appears in the script text)
pub open spec fn profile_escaped() -> Seq<u8> {
    seq![
        'p' as u8, 'r' as u8, 'o' as u8, 'f' as u8, 'i' as u8, 'l' as u8, 'e' as u8, '\\' as u8,
        'x' as u8, '3' as u8, 'd' as u8,
    ]
}

/// `profile=`
pub open spec fn profile_plain() -> Seq<u8> {
    seq!['p' as u8, 'r' as u8, 'o' as u8, 'f' as u8, 'i' as u8, 'l' as u8, 'e' as u8, '=' as u8]
}

/// `instanceId\x3d`
pub open spec fn instance_id_escaped() -> Seq<u8> {
    seq![
        'i' as u8, 'n' as u8, 's' as u8, 't' as u8, 'a' as u8, 'n' as u8, 'c' as u8, 'e' as u8,
        'I' as u8, 'd' as u8, '\\' as u8, 'x' as u8, '3' as u8, 'd' as u8,
    ]
}

/// `instanceId=`
pub open spec fn instance_id_plain() -> Seq<u8> {
    seq![
        'i' as u8, 'n' as u8, 's' as u8, 't' as u8, 'a' as u8, 'n' as u8, 'c' as u8, 'e' as u8,
        'I' as u8, 'd' as u8, '=' as u8,
    ]
}

/// `orgId:"`
pub open spec fn org_id_open() -> Seq<u8> {
    seq!['o' as u8, 'r' as u8, 'g' as u8, 'I' as u8, 'd' as u8, ':' as u8, '"' as u8]
}

/// `&w=`
pub open spec fn ticks_param() -> Seq<u8> {
    seq!['&' as u8, 'w' as u8, '=' as u8]
}

/// `ticks:'`
pub open spec fn ticks_field() -> Seq<u8> {
    seq!['t' as u8, 'i' as u8, 'c' as u8, 'k' as u8, 's' as u8, ':' as u8, '\'' as u8]
}

pub fn td_open_bytes() -> (r: &'static [u8])
    ensures
        r@ == td_open(),
{
    let s = "<td>";
    proof {
        reveal_strlit("<td>");
        assert(vstd::string::is_ascii(s));
    }
    let r = s.as_bytes();
    assert(r@ =~= td_open());
    r
}

pub fn td_close_bytes() -> (r: &'static [u8])
    ensures
        r@ == td_close(),
{
    let s = "</td>";
    proof {
        reveal_strlit("</td>");
        assert(vstd::string::is_ascii(s));
    }
    let r = s.as_bytes();
    assert(r@ =~= td_close());
    r
}

pub fn quote_bytes() -> (r: &'static [u8])
    ensures
        r@ == quote(),
{
    let s = "\"";
    proof {
        reveal_strlit("\"");
        assert(vstd::string::is_ascii(s));
    }
    let r = s.as_bytes();
    assert(r@ =~= quote());
    r
}

pub fn apostrophe_bytes() -> (r: &'static [u8])
    ensures
        r@ == apostrophe(),
{
    let s = "'";
    proof {
        reveal_strlit("'");
        assert(vstd::string::is_ascii(s));
    }
    let r = s.as_bytes();
    assert(r@ =~= apostrophe());
    r
}

pub fn id_attr_open_bytes() -> (r: &'static [u8])
    ensures
        r@ == id_attr_open(),
{
    let s = "id=\"";
    proof {
        reveal_strlit("id=\"");
        assert(vstd::string::is_ascii(s));
    }
    let r = s.as_bytes();
    assert(r@ =~= id_attr_open());
    r
}

pub fn value_attr_open_bytes() -> (r: &'static [u8])
    ensures
        r@ == value_attr_open(),
{
    let s = "value=\"";
    proof {
        reveal_strlit("value=\"");
        assert(vstd::string::is_ascii(s));
    }
    let r = s.as_bytes();
    assert(r@ =~= value_attr_open());
    r
}

pub fn src_attr_open_bytes() -> (r: &'static [u8])
    ensures
        r@ == src_attr_open(),
{
    let s = "src=\"";
    proof {
        reveal_strlit("src=\"");
        assert(vstd::string::is_ascii(s));
    }
    let r = s.as_bytes();
    assert(r@ =~= src_attr_open());
    r
}

pub fn min_js_bytes() -> (r: &'static [u8])
    ensures
        r@ == min_js(),
{
    let s = ".min.js";
    proof {
        reveal_strlit(".min.js");
        assert(vstd::string::is_ascii(s));
    }
    let r = s.as_bytes();
    assert(r@ =~= min_js());
    r
}

pub fn sds_marker_bytes() -> (r: &'static [u8])
    ensures
        r@ == sds_marker(),
{
    let s = "sdsbase/v1/sdsbase/clientlibs/site.";
    proof {
        reveal_strlit("sdsbase/v1/sdsbase/clientlibs/site.");
        assert(vstd::string::is_ascii(s));
    }
    let r = s.as_bytes();
    assert(r@ =~= sds_marker());
    r
}

pub fn profile_escaped_bytes() -> (r: &'static [u8])
    ensures
        r@ == profile_escaped(),
{
    let s = "profile\\x3d";
    proof {
        reveal_strlit("profile\\x3d");
        assert(vstd::string::is_ascii(s));
    }
    let r = s.as_bytes();
    assert(r@ =~= profile_escaped());
    r
}

pub fn profile_plain_bytes() -> (r: &'static [u8])
    ensures
        r@ == profile_plain(),
{
    let s = "profile=";
    proof {
        reveal_strlit("profile=");
        assert(vstd::string::is_ascii(s));
    }
    let r = s.as_bytes();
    assert(r@ =~= profile_plain());
    r
}

pub fn instance_id_escaped_bytes() -> (r: &'static [u8])
    ensures
        r@ == instance_id_escaped(),
{
    let s = "instanceId\\x3d";
    proof {
        reveal_strlit("instanceId\\x3d");
        assert(vstd::string::is_ascii(s));
    }
    let r = s.as_bytes();
    assert(r@ =~= instance_id_escaped());
    r
}

pub fn instance_id_plain_bytes() -> (r: &'static [u8])
    ensures
        r@ == instance_id_plain(),
{
    let s = "instanceId=";
    proof {
        reveal_strlit("instanceId=");
        assert(vstd::string::is_ascii(s));
    }
    let r = s.as_bytes();
    assert(r@ =~= instance_id_plain());
    r
}

pub fn org_id_open_bytes() -> (r: &'static [u8])
    ensures
        r@ == org_id_open(),
{
    let s = "orgId:\"";
    proof {
        reveal_strlit("orgId:\"");
        assert(vstd::string::is_ascii(s));
    }
    let r = s.as_bytes();
    assert(r@ =~= org_id_open());
    r
}

pub fn ticks_param_bytes() -> (r: &'static [u8])
    ensures
        r@ == ticks_param(),
{
    let s = "&w=";
    proof {
        reveal_strlit("&w=");
        assert(vstd::string::is_ascii(s));
    }
    let r = s.as_bytes();
    assert(r@ =~= ticks_param());
    r
}

pub fn ticks_field_bytes() -> (r: &'static [u8])
    ensures
        r@ == ticks_field(),
{
    let s = "ticks:'";
    proof {
        reveal_strlit("ticks:'");
        assert(vstd::string::is_ascii(s));
    }
    let r = s.as_bytes();
    assert(r@ =~= ticks_field());
    r
}

} // verus!
