//! The SHA-256 table that Microsoft publishes on each download page, and the
//! lookup of the digest that belongs to a download option.
use vstd::prelude::*;
use vstd::utf8::*;
use vstd::string::StringSliceAdditionalSpecFns;

use crate::pattern::{self, td_close_bytes, td_open_bytes};
use crate::text::{
    self, ByteClass, bytes_match_at, find_outside, is_hex_digit, contains, ends_with, find_bytes, starts_with, str_eq, substr, to_ascii_lowercase, trim,
};

verus! {

broadcast use vstd::seq::group_seq_axioms;

/// A table from lower-case `"<language> <arch>"` labels to lower-case hex
/// digests.  Later entries for a label replace earlier ones.
pub struct PageHashes {
    entries: Vec<(String, String)>,
}

/// The table that a sequence of insertions, applied in order, leaves.
pub open spec fn entries_map(es: Seq<(String, String)>) -> Map<Seq<char>, Seq<char>>
    decreases es.len(),
{
    if es.len() == 0 {
        Map::empty()
    } else {
        entries_map(es.drop_last()).insert(es.last().0@, es.last().1@)
    }
}

impl View for PageHashes {
    type V = Map<Seq<char>, Seq<char>>;

    closed spec fn view(&self) -> Map<Seq<char>, Seq<char>> {
        entries_map(self.entries@)
    }
}

proof fn lemma_entries_map_dom(es: Seq<(String, String)>, k: Seq<char>)
    ensures
        entries_map(es).contains_key(k) <==> exists|i: int| 0 <= i < es.len() && (#[trigger] es[i]).0@ == k,
    decreases es.len(),
{
    if es.len() > 0 {
        let init = es.drop_last();
        lemma_entries_map_dom(init, k);
        if entries_map(es).contains_key(k) {
            if es.last().0@ != k {
                let i = choose|i: int| 0 <= i < init.len() && (#[trigger] init[i]).0@ == k;
                assert(es[i] == init[i]);
            }
        }
        if exists|i: int| 0 <= i < es.len() && (#[trigger] es[i]).0@ == k {
            let i = choose|i: int| 0 <= i < es.len() && (#[trigger] es[i]).0@ == k;
            if i < es.len() - 1 {
                assert(init[i] == es[i]);
            }
        }
    }
}

proof fn lemma_entries_map_value(es: Seq<(String, String)>, i: int)
    requires
        0 <= i < es.len(),
        forall|j: int| i < j < es.len() ==> (#[trigger] es[j]).0@ != es[i].0@,
    ensures
        entries_map(es).contains_key(es[i].0@),
        entries_map(es)[es[i].0@] == es[i].1@,
    decreases es.len(),
{
    if i < es.len() - 1 {
        let init = es.drop_last();
        assert(init[i] == es[i]);
        assert forall|j: int| i < j < init.len() implies (#[trigger] init[j]).0@ != init[i].0@ by {
            assert(init[j] == es[j]);
        }
        lemma_entries_map_value(init, i);
    }
}

/// The text of an optional string.
pub open spec fn string_view(o: Option<String>) -> Option<Seq<char>> {
    match o {
        Some(s) => Some(s@),
        None => None,
    }
}

/// The digest of the last of `es` whose label begins with `prefix` and ends
/// with `suffix`.
pub open spec fn latest_labelled(
    es: Seq<(String, String)>,
    prefix: Seq<char>,
    suffix: Seq<char>,
) -> Option<Seq<char>>
    decreases es.len(),
{
    if es.len() == 0 {
        None
    } else if text::has_prefix(es.last().0@, prefix) && text::has_suffix(es.last().0@, suffix) {
        Some(es.last().1@)
    } else {
        latest_labelled(es.drop_last(), prefix, suffix)
    }
}

impl PageHashes {
    /// The digest of the most recently inserted label that begins with
    /// `prefix` and ends with `suffix`.
    pub closed spec fn labelled(&self, prefix: Seq<char>, suffix: Seq<char>) -> Option<Seq<char>> {
        latest_labelled(self.entries@, prefix, suffix)
    }
}

impl PageHashes {
    /// An empty table.
    pub fn new() -> (r: Self)
        ensures
            r@ == Map::<Seq<char>, Seq<char>>::empty(),
    {
        PageHashes { entries: Vec::new() }
    }

    /// Sets the digest of `label`, replacing any earlier one.
    pub fn insert(&mut self, label: String, digest: String)
        ensures
            final(self)@ == old(self)@.insert(label@, digest@),
    {
        let ghost es = self.entries@;
        self.entries.push((label, digest));
        assert(self.entries@.drop_last() =~= es);
    }

    /// The digest of `label`, if the table has one.
    pub fn get(&self, label: &str) -> (r: Option<String>)
        ensures
            r is Some <==> self@.contains_key(label@),
            r matches Some(d) ==> d@ == self@[label@],
    {
        let mut i = self.entries.len();
        while i > 0
            invariant
                i <= self.entries@.len(),
                forall|j: int| i <= j < self.entries@.len() ==> (#[trigger] self.entries@[j]).0@ != label@,
            decreases i,
        {
            i -= 1;
            if str_eq(self.entries[i].0.as_str(), label) {
                proof {
                    lemma_entries_map_value(self.entries@, i as int);
                }
                return Some(self.entries[i].1.clone());
            }
        }
        proof {
            lemma_entries_map_dom(self.entries@, label@);
        }
        None
    }

    /// The digest of the most recently inserted label that begins with
    /// `prefix` and ends with `suffix`, if the table has such a label.
    pub fn find_labelled(&self, prefix: &str, suffix: &str) -> (r: Option<String>)
        ensures
            string_view(r) == self.labelled(prefix@, suffix@),
            r is Some <==> exists|k: Seq<char>|
                #![trigger self@.contains_key(k)]
                self@.contains_key(k) && text::has_prefix(k, prefix@) && text::has_suffix(k, suffix@),
            r matches Some(d) ==> exists|k: Seq<char>|
                #![trigger self@.contains_key(k)]
                self@.contains_key(k) && text::has_prefix(k, prefix@) && text::has_suffix(k, suffix@) && d@
                    == self@[k],
    {
        let mut i = self.entries.len();
        assert(self.entries@.subrange(0, i as int) =~= self.entries@);
        while i > 0
            invariant
                i <= self.entries@.len(),
                forall|j: int|
                    i <= j < self.entries@.len() ==> !(text::has_prefix((#[trigger] self.entries@[j]).0@, prefix@)
                        && text::has_suffix(self.entries@[j].0@, suffix@)),
                self.labelled(prefix@, suffix@) == latest_labelled(
                    self.entries@.subrange(0, i as int),
                    prefix@,
                    suffix@,
                ),
            decreases i,
        {
            proof {
                let es = self.entries@.subrange(0, i as int);
                assert(es.drop_last() =~= self.entries@.subrange(0, i - 1));
                assert(es.last() == self.entries@[i - 1]);
            }
            i -= 1;
            let k = self.entries[i].0.as_str();
            if starts_with(k, prefix) && ends_with(k, suffix) {
                proof {
                    let es = self.entries@;
                    assert forall|j: int| i < j < es.len() implies (#[trigger] es[j]).0@ != es[i as int].0@ by {}
                    lemma_entries_map_value(es, i as int);
                    assert(self@.contains_key(es[i as int].0@));
                }
                return Some(self.entries[i].1.clone());
            }
        }
        proof {
            assert forall|k: Seq<char>|
                #![trigger self@.contains_key(k)]
                self@.contains_key(k) implies !(text::has_prefix(k, prefix@) && text::has_suffix(k, suffix@)) by {
                lemma_entries_map_dom(self.entries@, k);
                let j = choose|j: int| 0 <= j < self.entries@.len() && (#[trigger] self.entries@[j]).0@ == k;
            }
        }
        None
    }

    /// The (label, digest) pairs in insertion order; applying them in order
    /// rebuilds the table.
    pub fn pairs(&self) -> (r: Vec<(String, String)>)
        ensures
            entries_map(r@) == self@,
    {
        let mut out: Vec<(String, String)> = Vec::new();
        let mut i: usize = 0;
        while i < self.entries.len()
            invariant
                i <= self.entries@.len(),
                out@.len() == i,
                forall|j: int| 0 <= j < i ==> (#[trigger] out@[j]).0@ == self.entries@[j].0@ && out@[j].1@ == self.entries@[j].1@,
            decreases self.entries@.len() - i,
        {
            let k = self.entries[i].0.clone();
            let v = self.entries[i].1.clone();
            out.push((k, v));
            i += 1;
        }
        proof {
            lemma_entries_map_same_views(out@, self.entries@);
        }
        out
    }
}

proof fn lemma_entries_map_same_views(a: Seq<(String, String)>, b: Seq<(String, String)>)
    requires
        a.len() == b.len(),
        forall|j: int| 0 <= j < a.len() ==> (#[trigger] a[j]).0@ == b[j].0@ && a[j].1@ == b[j].1@,
    ensures
        entries_map(a) == entries_map(b),
    decreases a.len(),
{
    if a.len() > 0 {
        let ai = a.drop_last();
        let bi = b.drop_last();
        assert forall|j: int| 0 <= j < ai.len() implies (#[trigger] ai[j]).0@ == bi[j].0@ && ai[j].1@ == bi[j].1@ by {
            assert(ai[j] == a[j]);
            assert(bi[j] == b[j]);
        }
        lemma_entries_map_same_views(ai, bi);
    }
}

// ── Scraping the table ─────────────────────────────────────────────────────

/// 64 hexadecimal digits: the text of a SHA-256 digest.
pub open spec fn is_sha256_text(s: Seq<char>) -> bool {
    s.len() == 64 && forall|i: int| 0 <= i < s.len() ==> text::is_hex_char(#[trigger] s[i])
}

/// The text of the cell `b[start..end]`, without surrounding white space.
pub open spec fn cell(b: Seq<u8>, start: int, end: int) -> Seq<char> {
    text::trimmed(decode_utf8(b.subrange(start, end)))
}

/// Where the white space that follows byte `after` ends.
pub open spec fn cell_gap_end(b: Seq<u8>, after: int) -> int {
    match text::find_outside_class(b, ByteClass::AsciiSpace, after) {
        Some(j) => j,
        None => b.len() as int,
    }
}

/// The (label, digest) rows found in `b` from byte `pos` on, in page order.
///
/// A row is a cell `<td>label</td>` followed, after nothing but ASCII white
/// space, by a cell `<td>digest</td>` whose trimmed text is 64 hex digits; both are kept
/// lower-cased.  After a label cell with no second cell behind it
/// the scan goes on right after that label cell; after a second cell, right
/// after the second cell.
pub open spec fn hash_rows(b: Seq<u8>, pos: int) -> Seq<(Seq<char>, Seq<char>)>
    decreases b.len() - pos,
{
    if pos < 0 || pos >= b.len() {
        seq![]
    } else {
        match text::find_from(b, pattern::td_open(), pos) {
            None => seq![],
            Some(o) => {
                let ls = o + 4;
                match text::find_from(b, pattern::td_close(), ls) {
                    None => seq![],
                    Some(le) => {
                        proof {
                            text::lemma_find_from_bounds(b, pattern::td_open(), pos);
                            text::lemma_find_from_bounds(b, pattern::td_close(), ls);
                        }
                        let after = le + 5;
                        let next = cell_gap_end(b, after);
                        proof {
                            text::lemma_find_outside_class_bounds(b, ByteClass::AsciiSpace, after);
                        }
                        if next < b.len() && text::matches_at(b, pattern::td_open(), next) {
                            let hs = next + 4;
                            match text::find_from(b, pattern::td_close(), hs) {
                                None => hash_rows(b, after),
                                Some(he) => {
                                    proof {
                                        text::lemma_find_from_bounds(b, pattern::td_close(), hs);
                                    }
                                    let rest = hash_rows(b, he + 5);
                                    let label = cell(b, ls, le);
                                    let digest = cell(b, hs, he);
                                    if is_sha256_text(digest) {
                                        seq![(text::lower(label), text::lower(digest))] + rest
                                    } else {
                                        rest
                                    }
                                }
                            }
                        } else {
                            hash_rows(b, after)
                        }
                    }
                }
            }
        }
    }
}

/// The table after inserting `rows` into `m` in order.
pub open spec fn insert_rows(
    m: Map<Seq<char>, Seq<char>>,
    rows: Seq<(Seq<char>, Seq<char>)>,
) -> Map<Seq<char>, Seq<char>>
    decreases rows.len(),
{
    if rows.len() == 0 {
        m
    } else {
        insert_rows(m.insert(rows[0].0, rows[0].1), rows.drop_first())
    }
}

/// The table published on a page whose UTF-8 bytes are `b`.
pub open spec fn page_hash_table(b: Seq<u8>) -> Map<Seq<char>, Seq<char>> {
    insert_rows(Map::empty(), hash_rows(b, 0))
}

fn all_hex(s: &str) -> (r: bool)
    ensures
        r == forall|i: int| 0 <= i < s@.len() ==> text::is_hex_char(#[trigger] s@[i]),
{
    let n = s.unicode_len();
    let mut i: usize = 0;
    while i < n
        invariant
            n == s@.len(),
            i <= n,
            forall|k: int| 0 <= k < i ==> text::is_hex_char(#[trigger] s@[k]),
        decreases n - i,
    {
        if !is_hex_digit(s.get_char(i)) {
            return false;
        }
        i += 1;
    }
    true
}

proof fn lemma_hex_is_ascii(s: Seq<char>)
    requires
        forall|i: int| 0 <= i < s.len() ==> text::is_hex_char(#[trigger] s[i]),
    ensures
        encode_utf8(s).len() == s.len(),
{
    assert(is_ascii_chars(s));
    is_ascii_chars_encode_utf8(s);
}

/// Trimmed text of the cell `html[start..end]`.
fn cell_text<'a>(html: &'a str, start: usize, end: usize) -> (r: &'a str)
    requires
        start <= end <= html.spec_bytes().len(),
        is_char_boundary(html.spec_bytes(), start as int),
        is_char_boundary(html.spec_bytes(), end as int),
    ensures
        r@ == cell(html.spec_bytes(), start as int, end as int),
{
    trim(substr(html, start, end))
}

/// Scrapes the SHA-256 table of a download page.
pub fn parse_page_hashes(html: &str) -> (hashes: PageHashes)
    ensures
        hashes@ == page_hash_table(html.spec_bytes()),
{
    let b = html.as_bytes();
    let ghost bs = html.spec_bytes();
    proof {
        encode_utf8_valid_utf8(html@);
    }
    let open = td_open_bytes();
    let close = td_close_bytes();
    let mut table = PageHashes::new();
    let mut pos: usize = 0;
    while pos < b.len()
        invariant
            b@ == bs,
            bs == html.spec_bytes(),
            valid_utf8(bs),
            open@ == pattern::td_open(),
            close@ == pattern::td_close(),
            insert_rows(table@, hash_rows(bs, pos as int)) == page_hash_table(bs),
        decreases bs.len() - pos,
    {
        let o = match find_bytes(b, open, pos) {
            Some(o) => o,
            None => {
                return table;
            },
        };
        proof {
            text::lemma_find_from_bounds(bs, pattern::td_open(), pos as int);
        }
        let ls = o + 4;
        let le = match find_bytes(b, close, ls) {
            Some(le) => le,
            None => {
                return table;
            },
        };
        proof {
            text::lemma_find_from_bounds(bs, pattern::td_close(), ls as int);
            assert(bs.subrange(o as int, o + 4)[3] == bs[o + 3]);
            assert(bs.subrange(le as int, le + 5)[0] == bs[le as int]);
            text::lemma_boundary_after_ascii(bs, ls as int);
            text::lemma_boundary_at_ascii(bs, le as int);
        }
        let after = le + 5;
        let next = match find_outside(b, ByteClass::AsciiSpace, after) {
            Some(j) => j,
            None => b.len(),
        };
        proof {
            text::lemma_find_outside_class_bounds(bs, ByteClass::AsciiSpace, after as int);
            assert(next as int == cell_gap_end(bs, after as int));
        }
        if next < b.len() && b.len() - next >= 4 && bytes_match_at(b, open, next) {
            let hs = next + 4;
            match find_bytes(b, close, hs) {
                Some(he) => {
                    proof {
                        text::lemma_find_from_bounds(bs, pattern::td_close(), hs as int);
                        assert(bs.subrange(next as int, next + 4)[3] == bs[next + 3]);
                        assert(bs.subrange(he as int, he + 5)[0] == bs[he as int]);
                        text::lemma_boundary_after_ascii(bs, hs as int);
                        text::lemma_boundary_at_ascii(bs, he as int);
                    }
                    let label = cell_text(html, ls, le);
                    let digest = cell_text(html, hs, he);
                    let ghost rest = hash_rows(bs, he + 5);
                    let byte_len = digest.as_bytes().len();
                    let ok = if byte_len == 64 {
                        all_hex(digest)
                    } else {
                        false
                    };
                    proof {
                        let hexes = forall|i: int| 0 <= i < digest@.len() ==> text::is_hex_char(#[trigger] digest@[i]);
                        assert(digest.spec_bytes() == encode_utf8(digest@));
                        if hexes {
                            lemma_hex_is_ascii(digest@);
                            assert(digest.spec_bytes().len() == digest@.len());
                        }
                        assert(byte_len == digest.spec_bytes().len());
                        assert(ok == is_sha256_text(digest@));
                    }
                    if ok {
                        let key = to_ascii_lowercase(label);
                        let val = to_ascii_lowercase(digest);
                        let ghost before = table@;
                        table.insert(key, val);
                        proof {
                            let rows = seq![(text::lower(label@), text::lower(digest@))] + rest;
                            assert(rows[0] == (text::lower(label@), text::lower(digest@)));
                            assert(rows.drop_first() =~= rest);
                        }
                    }
                    pos = he + 5;
                },
                None => {
                    pos = after;
                },
            }
        } else {
            pos = after;
        }
    }
    table
}

// ── Choosing the digest of a download ──────────────────────────────────────

/// The architecture label that a download option's name implies.
pub open spec fn arch_label(option_name: Seq<char>) -> Seq<char> {
    let name = text::lower(option_name);
    if text::has_infix(name, "32-bit"@) || text::has_infix(name, "32 bit"@) {
        "32-bit"@
    } else {
        "64-bit"@
    }
}

/// The table label `"<language> <arch>"` looked up first.
pub open spec fn exact_label(language: Seq<char>, option_name: Seq<char>) -> Seq<char> {
    text::lower(language) + " "@ + arch_label(option_name)
}

/// The digest looked up for a download option: the entry labelled exactly
/// `"<language> <arch>"`, else the most recently inserted entry whose label
/// begins with the lower-cased language and ends with the arch.
pub open spec fn page_hash_lookup(
    hashes: PageHashes,
    language: Seq<char>,
    option_name: Seq<char>,
) -> Option<Seq<char>> {
    let exact = exact_label(language, option_name);
    if hashes@.contains_key(exact) {
        Some(hashes@[exact])
    } else {
        hashes.labelled(text::lower(language), arch_label(option_name))
    }
}

/// Finds the published digest of the download option `option_name` in
/// language `language`: the entry labelled exactly `"<language> <arch>"`
/// (lower-cased, arch `32-bit` when the name mentions 32 bits, else `64-bit`),
/// or else the most recently inserted entry whose label begins with the
/// language and ends with the arch.
pub fn lookup_page_hash(hashes: &PageHashes, language: &str, option_name: &str) -> (r: Option<
    String,
>)
    ensures
        string_view(r) == page_hash_lookup(*hashes, language@, option_name@),
        hashes@.contains_key(exact_label(language@, option_name@)) ==> (r matches Some(d) && d@
            == hashes@[exact_label(language@, option_name@)]),
        !hashes@.contains_key(exact_label(language@, option_name@)) ==> {
            &&& (r is Some <==> exists|k: Seq<char>|
                #![trigger hashes@.contains_key(k)]
                hashes@.contains_key(k) && text::has_prefix(k, text::lower(language@)) && text::has_suffix(
                    k,
                    arch_label(option_name@),
                ))
            &&& (r matches Some(d) ==> exists|k: Seq<char>|
                #![trigger hashes@.contains_key(k)]
                hashes@.contains_key(k) && text::has_prefix(k, text::lower(language@)) && text::has_suffix(
                    k,
                    arch_label(option_name@),
                ) && d@ == hashes@[k])
        },
{
    let lang_lower = to_ascii_lowercase(language);
    let name_lower = to_ascii_lowercase(option_name);
    let arch: &str = if contains(name_lower.as_str(), "32-bit") || contains(
        name_lower.as_str(),
        "32 bit",
    ) {
        "32-bit"
    } else {
        "64-bit"
    };
    let mut exact = lang_lower.clone();
    exact.append(" ");
    exact.append(arch);
    if let Some(h) = hashes.get(exact.as_str()) {
        return Some(h);
    }
    hashes.find_labelled(lang_lower.as_str(), arch)
}

/// A download's digest is the one published under its exact label when the
/// table has it: the lower-cased language, a space, then `32-bit` when the
/// option's name mentions `32-bit` or `32 bit` (in any ASCII case), else
/// `64-bit`.  A label that merely begins with the language is only a
/// fallback.
pub proof fn lemma_lookup_exact_label(hashes: PageHashes, language: Seq<char>, option_name: Seq<char>)
    ensures
        ({
            let name = text::lower(option_name);
            let is32 = text::has_infix(name, "32-bit"@) || text::has_infix(name, "32 bit"@);
            let label = text::lower(language) + if is32 {
                " 32-bit"@
            } else {
                " 64-bit"@
            };
            hashes@.contains_key(label) ==> page_hash_lookup(hashes, language, option_name) == Some(
                hashes@[label],
            )
        }),
{
    reveal_strlit(" ");
    reveal_strlit("32-bit");
    reveal_strlit("64-bit");
    reveal_strlit(" 32-bit");
    reveal_strlit(" 64-bit");
    let l = text::lower(language);
    assert(l + " "@ + "32-bit"@ =~= l + " 32-bit"@);
    assert(l + " "@ + "64-bit"@ =~= l + " 64-bit"@);
}

/// The lookup ignores the ASCII letter case of the language and of the
/// option name: names that agree once lower-cased find the same digest, and
/// so does each name lower-cased.
pub proof fn lemma_lookup_ignores_case(
    hashes: PageHashes,
    language: Seq<char>,
    other_language: Seq<char>,
    option_name: Seq<char>,
    other_option_name: Seq<char>,
)
    requires
        text::lower(language) == text::lower(other_language),
        text::lower(option_name) == text::lower(other_option_name),
    ensures
        page_hash_lookup(hashes, language, option_name) == page_hash_lookup(
            hashes,
            other_language,
            other_option_name,
        ),
        page_hash_lookup(hashes, language, option_name) == page_hash_lookup(
            hashes,
            text::lower(language),
            text::lower(option_name),
        ),
{
    text::lemma_lower_idempotent(language);
    text::lemma_lower_idempotent(option_name);
}

// ── What every table holds ─────────────────────────────────────────────────

/// `s` has no upper-case ASCII letter.
pub open spec fn is_lower(s: Seq<char>) -> bool {
    forall|i: int| 0 <= i < s.len() ==> !('A' <= #[trigger] s[i] <= 'Z')
}

/// 64 lower-case hexadecimal digits.
pub open spec fn is_lower_sha256_text(s: Seq<char>) -> bool {
    is_sha256_text(s) && is_lower(s)
}

proof fn lemma_lower_is_lower(s: Seq<char>)
    ensures
        is_lower(text::lower(s)),
        text::lower(s).len() == s.len(),
{
    assert forall|i: int| 0 <= i < text::lower(s).len() implies !('A' <= #[trigger] text::lower(s)[i] <= 'Z') by {
        let c = s[i];
        if 'A' <= c <= 'Z' {
            assert((c as u32) + 32 <= 'z' as u32);
        }
    }
}

proof fn lemma_rows_well_formed(b: Seq<u8>, pos: int)
    ensures
        forall|i: int|
            0 <= i < hash_rows(b, pos).len() ==> is_lower((#[trigger] hash_rows(b, pos)[i]).0)
                && is_lower_sha256_text(hash_rows(b, pos)[i].1),
    decreases b.len() - pos,
{
    if pos < 0 || pos >= b.len() {
    } else {
        match text::find_from(b, pattern::td_open(), pos) {
            None => {},
            Some(o) => {
                let ls = o + 4;
                text::lemma_find_from_bounds(b, pattern::td_open(), pos);
                match text::find_from(b, pattern::td_close(), ls) {
                    None => {},
                    Some(le) => {
                        text::lemma_find_from_bounds(b, pattern::td_close(), ls);
                        let after = le + 5;
                        let next = cell_gap_end(b, after);
                        text::lemma_find_outside_class_bounds(b, ByteClass::AsciiSpace, after);
                        if next < b.len() && text::matches_at(b, pattern::td_open(), next) {
                            let hs = next + 4;
                            match text::find_from(b, pattern::td_close(), hs) {
                                None => {
                                    lemma_rows_well_formed(b, after);
                                    assert(hash_rows(b, pos) == hash_rows(b, after));
                                },
                                Some(he) => {
                                    text::lemma_find_from_bounds(b, pattern::td_close(), hs);
                                    lemma_rows_well_formed(b, he + 5);
                                    let label = cell(b, ls, le);
                                    let digest = cell(b, hs, he);
                                    lemma_lower_is_lower(label);
                                    lemma_lower_is_lower(digest);
                                    if !is_sha256_text(digest) {
                                        assert(hash_rows(b, pos) == hash_rows(b, he + 5));
                                    } else {
                                        assert forall|i: int| 0 <= i < text::lower(digest).len() implies text::is_hex_char(
                                            #[trigger] text::lower(digest)[i],
                                        ) by {
                                            assert(text::is_hex_char(digest[i]));
                                        }
                                        let row = (text::lower(label), text::lower(digest));
                                        let rest = hash_rows(b, he + 5);
                                        assert(hash_rows(b, pos) == seq![row] + rest);
                                        assert forall|i: int| 0 <= i < hash_rows(b, pos).len() implies is_lower(
                                            (#[trigger] hash_rows(b, pos)[i]).0,
                                        ) && is_lower_sha256_text(hash_rows(b, pos)[i].1) by {
                                            if i > 0 {
                                                assert(hash_rows(b, pos)[i] == rest[i - 1]);
                                            }
                                        }
                                    }
                                },
                            }
                        } else {
                            lemma_rows_well_formed(b, after);
                            assert(hash_rows(b, pos) == hash_rows(b, after));
                        }
                    },
                }
            },
        }
    }
}

proof fn lemma_insert_rows_well_formed(
    m: Map<Seq<char>, Seq<char>>,
    rows: Seq<(Seq<char>, Seq<char>)>,
)
    requires
        forall|k: Seq<char>| #[trigger]
            m.contains_key(k) ==> is_lower(k) && is_lower_sha256_text(m[k]),
        forall|i: int|
            0 <= i < rows.len() ==> is_lower((#[trigger] rows[i]).0) && is_lower_sha256_text(
                rows[i].1,
            ),
    ensures
        forall|k: Seq<char>| #[trigger]
            insert_rows(m, rows).contains_key(k) ==> is_lower(k) && is_lower_sha256_text(
                insert_rows(m, rows)[k],
            ),
    decreases rows.len(),
{
    if rows.len() > 0 {
        assert(is_lower(rows[0].0) && is_lower_sha256_text(rows[0].1));
        let m2 = m.insert(rows[0].0, rows[0].1);
        assert forall|k: Seq<char>| #[trigger] m2.contains_key(k) implies is_lower(k)
            && is_lower_sha256_text(m2[k]) by {
            if k != rows[0].0 {
                assert(m.contains_key(k));
            }
        }
        assert forall|i: int|
            0 <= i < rows.drop_first().len() implies is_lower((#[trigger] rows.drop_first()[i]).0)
            && is_lower_sha256_text(rows.drop_first()[i].1) by {
            assert(rows.drop_first()[i] == rows[i + 1]);
        }
        lemma_insert_rows_well_formed(m2, rows.drop_first());
        assert(insert_rows(m, rows) == insert_rows(m2, rows.drop_first()));
    }
}

/// Every label of a scraped table is lower-case, and every digest is 64
/// lower-case hexadecimal digits.
pub proof fn lemma_page_hash_table_well_formed(b: Seq<u8>)
    ensures
        forall|k: Seq<char>| #[trigger]
            page_hash_table(b).contains_key(k) ==> is_lower(k) && is_lower_sha256_text(
                page_hash_table(b)[k],
            ),
{
    lemma_rows_well_formed(b, 0);
    lemma_insert_rows_well_formed(Map::empty(), hash_rows(b, 0));
}

} // verus!
