//! Byte-level searching over UTF-8 text, and the small set of string
//! operations the scanners and request builders are written with.
use vstd::prelude::*;
use vstd::utf8::*;
use vstd::string::StringSliceAdditionalSpecFns;

verus! {

broadcast use vstd::seq::group_seq_axioms;

// ── Searching ──────────────────────────────────────────────────────────────

/// `pat` occurs in `hay` starting at index `i`.
pub open spec fn matches_at(hay: Seq<u8>, pat: Seq<u8>, i: int) -> bool {
    0 <= i && i + pat.len() <= hay.len() && hay.subrange(i, i + pat.len()) == pat
}

/// Index of the first occurrence of `pat` in `hay` that starts at or after `from`.
pub open spec fn find_from(hay: Seq<u8>, pat: Seq<u8>, from: int) -> Option<int>
    decreases hay.len() - from + 1,
{
    if from < 0 || from + pat.len() > hay.len() {
        None
    } else if matches_at(hay, pat, from) {
        Some(from)
    } else {
        find_from(hay, pat, from + 1)
    }
}

/// Index of the last occurrence of `pat` that starts at or after `lo` and
/// starts no later than `c`.
pub open spec fn rfind_down(hay: Seq<u8>, pat: Seq<u8>, lo: int, c: int) -> Option<int>
    decreases c - lo + 1,
{
    if c < lo {
        None
    } else if matches_at(hay, pat, c) {
        Some(c)
    } else {
        rfind_down(hay, pat, lo, c - 1)
    }
}

/// Index of the last occurrence of `pat` lying wholly inside `hay[lo..hi]`.
pub open spec fn rfind_within(hay: Seq<u8>, pat: Seq<u8>, lo: int, hi: int) -> Option<int> {
    rfind_down(hay, pat, lo, hi - pat.len())
}

/// `hay` contains `pat` anywhere inside `hay[lo..hi]`.
pub open spec fn contains_within(hay: Seq<u8>, pat: Seq<u8>, lo: int, hi: int) -> bool {
    rfind_within(hay, pat, lo, hi) is Some
}

/// Character classes by which a run of bytes is delimited.
pub enum ByteClass {
    /// `0-9`, `a-f`, `A-F`
    HexDigit,
    /// `0-9`, `a-z`, `A-Z`
    AlphaNumeric,
    /// `0-9`, `a-z`, `A-Z` and `-`
    AlphaNumericOrDash,
    /// ASCII white space: space, tab, line feed, form feed, carriage return
    AsciiSpace,
}

pub open spec fn is_ascii_digit_byte(b: u8) -> bool {
    0x30 <= b <= 0x39
}

pub open spec fn is_ascii_alpha_byte(b: u8) -> bool {
    (0x41 <= b <= 0x5a) || (0x61 <= b <= 0x7a)
}

pub open spec fn is_ascii_hex_byte(b: u8) -> bool {
    is_ascii_digit_byte(b) || (0x41 <= b <= 0x46) || (0x61 <= b <= 0x66)
}

pub open spec fn in_class(class: ByteClass, b: u8) -> bool {
    match class {
        ByteClass::HexDigit => is_ascii_hex_byte(b),
        ByteClass::AlphaNumeric => is_ascii_digit_byte(b) || is_ascii_alpha_byte(b),
        ByteClass::AlphaNumericOrDash => is_ascii_digit_byte(b) || is_ascii_alpha_byte(b) || b
            == 0x2d,
        ByteClass::AsciiSpace => b == 0x20 || b == 0x09 || b == 0x0a || b == 0x0c || b == 0x0d,
    }
}

/// Index of the first byte at or after `from` that is outside `class`.
pub open spec fn find_outside_class(hay: Seq<u8>, class: ByteClass, from: int) -> Option<int>
    decreases hay.len() - from,
{
    if from < 0 || from >= hay.len() {
        None
    } else if !in_class(class, hay[from]) {
        Some(from)
    } else {
        find_outside_class(hay, class, from + 1)
    }
}

pub proof fn lemma_find_from_bounds(hay: Seq<u8>, pat: Seq<u8>, from: int)
    ensures
        find_from(hay, pat, from) matches Some(i) ==> from <= i && matches_at(hay, pat, i),
        find_from(hay, pat, from) matches Some(i) ==> forall|j: int|
            from <= j < i ==> !matches_at(hay, pat, j),
    decreases hay.len() - from + 1,
{
    if from < 0 || from + pat.len() > hay.len() {
    } else if matches_at(hay, pat, from) {
    } else {
        lemma_find_from_bounds(hay, pat, from + 1);
    }
}

pub proof fn lemma_find_from_none(hay: Seq<u8>, pat: Seq<u8>, from: int, j: int)
    requires
        find_from(hay, pat, from) is None,
        0 <= from <= j,
    ensures
        !matches_at(hay, pat, j),
    decreases hay.len() - from + 1,
{
    if from + pat.len() > hay.len() {
    } else if matches_at(hay, pat, from) {
    } else if from < j {
        lemma_find_from_none(hay, pat, from + 1, j);
    }
}

pub proof fn lemma_rfind_down_bounds(hay: Seq<u8>, pat: Seq<u8>, lo: int, c: int)
    ensures
        rfind_down(hay, pat, lo, c) matches Some(i) ==> lo <= i <= c && matches_at(hay, pat, i),
    decreases c - lo + 1,
{
    if c < lo {
    } else if matches_at(hay, pat, c) {
    } else {
        lemma_rfind_down_bounds(hay, pat, lo, c - 1);
    }
}

/// What `rfind_down` finds is the last occurrence from `lo` to `c`; when it
/// finds none, there is none.
pub proof fn lemma_rfind_down_last(hay: Seq<u8>, pat: Seq<u8>, lo: int, c: int)
    ensures
        rfind_down(hay, pat, lo, c) matches Some(i) ==> forall|j: int|
            i < j <= c ==> !matches_at(hay, pat, j),
        rfind_down(hay, pat, lo, c) is None ==> forall|j: int|
            lo <= j <= c ==> !matches_at(hay, pat, j),
    decreases c - lo + 1,
{
    if c < lo {
    } else if matches_at(hay, pat, c) {
    } else {
        lemma_rfind_down_last(hay, pat, lo, c - 1);
    }
}

pub proof fn lemma_find_outside_class_bounds(hay: Seq<u8>, class: ByteClass, from: int)
    ensures
        find_outside_class(hay, class, from) matches Some(i) ==> from <= i < hay.len()
            && !in_class(class, hay[i]),
        find_outside_class(hay, class, from) matches Some(i) ==> forall|j: int|
            from <= j < i ==> in_class(class, #[trigger] hay[j]),
        find_outside_class(hay, class, from) is None && 0 <= from ==> forall|j: int|
            from <= j < hay.len() ==> in_class(class, #[trigger] hay[j]),
    decreases hay.len() - from,
{
    if from < 0 || from >= hay.len() {
    } else if !in_class(class, hay[from]) {
    } else {
        lemma_find_outside_class_bounds(hay, class, from + 1);
    }
}

/// `hay[i..i + pat.len()] == pat`, for `i + pat.len() <= hay.len()`.
pub fn bytes_match_at(hay: &[u8], pat: &[u8], i: usize) -> (r: bool)
    requires
        i + pat@.len() <= hay@.len(),
    ensures
        r == matches_at(hay@, pat@, i as int),
{
    let mut j: usize = 0;
    assert(hay@.len() == hay.len());
    while j < pat.len()
        invariant
            hay@.len() == hay.len(),
            j <= pat@.len(),
            i + pat@.len() <= hay@.len(),
            forall|k: int| 0 <= k < j ==> hay@[i + k] == pat@[k],
        decreases pat@.len() - j,
    {
        if hay[i + j] != pat[j] {
            assert(hay@.subrange(i as int, i + pat@.len())[j as int] != pat@[j as int]);
            return false;
        }
        j += 1;
    }
    assert(hay@.subrange(i as int, i + pat@.len()) =~= pat@);
    true
}

/// First occurrence of `pat` in `hay` at or after `from`.
pub fn find_bytes(hay: &[u8], pat: &[u8], from: usize) -> (r: Option<usize>)
    requires
        pat@.len() > 0,
    ensures
        r is Some <==> find_from(hay@, pat@, from as int) is Some,
        r matches Some(i) ==> find_from(hay@, pat@, from as int) == Some(i as int),
{
    let mut i = from;
    while i <= hay.len() && hay.len() - i >= pat.len()
        invariant
            pat@.len() > 0,
            from <= i,
            find_from(hay@, pat@, from as int) == find_from(hay@, pat@, i as int),
        decreases hay@.len() - i,
    {
        if bytes_match_at(hay, pat, i) {
            return Some(i);
        }
        i += 1;
    }
    None
}

/// First occurrence of `pat` at or after `from` that ends no later than `hi`.
pub fn find_bytes_before(hay: &[u8], pat: &[u8], from: usize, hi: usize) -> (r: Option<usize>)
    requires
        pat@.len() > 0,
        hi <= hay@.len(),
    ensures
        r is Some <==> find_from(hay@.subrange(0, hi as int), pat@, from as int) is Some,
        r matches Some(i) ==> find_from(hay@.subrange(0, hi as int), pat@, from as int) == Some(
            i as int,
        ),
{
    let ghost w = hay@.subrange(0, hi as int);
    let mut i = from;
    while i <= hi && hi - i >= pat.len()
        invariant
            pat@.len() > 0,
            hi <= hay@.len(),
            w == hay@.subrange(0, hi as int),
            from <= i,
            find_from(w, pat@, from as int) == find_from(w, pat@, i as int),
        decreases hi - i,
    {
        let m = bytes_match_at(hay, pat, i);
        assert(w.subrange(i as int, i + pat@.len()) =~= hay@.subrange(i as int, i + pat@.len()));
        if m {
            return Some(i);
        }
        i += 1;
    }
    None
}

/// Last occurrence of `pat` lying wholly inside `hay[lo..hi]`.
pub fn rfind_bytes_within(hay: &[u8], pat: &[u8], lo: usize, hi: usize) -> (r: Option<usize>)
    requires
        lo <= hi <= hay@.len(),
    ensures
        r is Some <==> rfind_within(hay@, pat@, lo as int, hi as int) is Some,
        r matches Some(i) ==> rfind_within(hay@, pat@, lo as int, hi as int) == Some(i as int),
{
    if hi - lo < pat.len() {
        return None;
    }
    let mut c = hi - pat.len();
    loop
        invariant
            lo <= c,
            c + pat@.len() <= hi <= hay@.len(),
            rfind_within(hay@, pat@, lo as int, hi as int) == rfind_down(
                hay@,
                pat@,
                lo as int,
                c as int,
            ),
        decreases c - lo,
    {
        if bytes_match_at(hay, pat, c) {
            return Some(c);
        }
        if c == lo {
            assert(rfind_down(hay@, pat@, lo as int, c - 1) is None);
            return None;
        }
        c -= 1;
    }
}

pub fn byte_in_class(class: &ByteClass, b: u8) -> (r: bool)
    ensures
        r == in_class(*class, b),
{
    let digit = 0x30 <= b && b <= 0x39;
    let alpha = (0x41 <= b && b <= 0x5a) || (0x61 <= b && b <= 0x7a);
    match class {
        ByteClass::HexDigit => digit || (0x41 <= b && b <= 0x46) || (0x61 <= b && b <= 0x66),
        ByteClass::AlphaNumeric => digit || alpha,
        ByteClass::AlphaNumericOrDash => digit || alpha || b == 0x2d,
        ByteClass::AsciiSpace => b == 0x20 || b == 0x09 || b == 0x0a || b == 0x0c || b == 0x0d,
    }
}

/// First byte at or after `from` that lies outside `class`.
pub fn find_outside(hay: &[u8], class: ByteClass, from: usize) -> (r: Option<usize>)
    ensures
        r is Some <==> find_outside_class(hay@, class, from as int) is Some,
        r matches Some(i) ==> find_outside_class(hay@, class, from as int) == Some(i as int),
{
    let mut i = from;
    while i < hay.len()
        invariant
            from <= i,
            find_outside_class(hay@, class, from as int) == find_outside_class(
                hay@,
                class,
                i as int,
            ),
        decreases hay@.len() - i,
    {
        if !byte_in_class(&class, hay[i]) {
            return Some(i);
        }
        i += 1;
    }
    None
}

// ── UTF-8 boundaries ───────────────────────────────────────────────────────

pub proof fn lemma_boundary_at_ascii(b: Seq<u8>, i: int)
    requires
        valid_utf8(b),
        0 <= i < b.len(),
        b[i] < 0x80,
    ensures
        is_char_boundary(b, i),
{
    is_char_boundary_iff_not_is_continuation_byte(b, i);
}

pub proof fn lemma_boundary_after_ascii(b: Seq<u8>, i: int)
    requires
        valid_utf8(b),
        0 < i <= b.len(),
        b[i - 1] < 0x80,
    ensures
        is_char_boundary(b, i),
{
    if i == b.len() {
        is_char_boundary_start_end_of_seq(b);
    } else {
        lemma_boundary_at_ascii(b, i - 1);
        valid_utf8_split(b, i - 1);
        let s = b.subrange(i - 1, b.len() as int);
        assert(s[0] == b[i - 1]);
        assert(pop_first_scalar(s) =~= b.subrange(i, b.len() as int));
        let t = b.subrange(i, b.len() as int);
        assert(t.len() > 0);
        assert(valid_utf8(s));
        assert(valid_first_scalar(s) && valid_utf8(pop_first_scalar(s)));
        assert(valid_utf8(t));
        assert(valid_first_scalar(t));
        assert(t[0] == b[i]);
        is_char_boundary_iff_not_is_continuation_byte(b, i);
    }
}

/// A boundary of `b` that lies at or after another boundary `start` is a
/// boundary of the suffix `b[start..]`.
pub proof fn lemma_boundary_in_suffix(b: Seq<u8>, start: int, end: int)
    requires
        valid_utf8(b),
        0 <= start <= end <= b.len(),
        is_char_boundary(b, start),
        is_char_boundary(b, end),
    ensures
        valid_utf8(b.subrange(start, b.len() as int)),
        is_char_boundary(b.subrange(start, b.len() as int), end - start),
{
    valid_utf8_split(b, start);
    let s = b.subrange(start, b.len() as int);
    if end == b.len() {
        is_char_boundary_start_end_of_seq(s);
    } else {
        is_char_boundary_iff_not_is_continuation_byte(b, end);
        assert(s[end - start] == b[end]);
        is_char_boundary_iff_not_is_continuation_byte(s, end - start);
    }
}

/// The bytes of `s` from `start` up to `end`, both on character boundaries.
pub fn substr<'a>(s: &'a str, start: usize, end: usize) -> (r: &'a str)
    requires
        start <= end <= s.spec_bytes().len(),
        is_char_boundary(s.spec_bytes(), start as int),
        is_char_boundary(s.spec_bytes(), end as int),
    ensures
        r.spec_bytes() == s.spec_bytes().subrange(start as int, end as int),
        r@ == decode_utf8(s.spec_bytes().subrange(start as int, end as int)),
{
    proof {
        encode_utf8_valid_utf8(s@);
        lemma_boundary_in_suffix(s.spec_bytes(), start as int, end as int);
    }
    let (_, rest) = s.split_at(start);
    proof {
        assert(rest.spec_bytes() =~= s.spec_bytes().subrange(start as int, s.spec_bytes().len() as int));
    }
    let (r, _) = rest.split_at(end - start);
    proof {
        assert(r.spec_bytes() =~= s.spec_bytes().subrange(start as int, end as int));
        encode_utf8_decode_utf8(r@);
    }
    r
}

// ── Characters ─────────────────────────────────────────────────────────────

/// Unicode `White_Space`, the set that `char::is_whitespace` and `str::trim` use.
pub open spec fn is_white_space(c: char) -> bool {
    let u = c as u32;
    (0x09 <= u <= 0x0d) || u == 0x20 || u == 0x85 || u == 0xa0 || u == 0x1680 || (0x2000 <= u
        <= 0x200a) || u == 0x2028 || u == 0x2029 || u == 0x202f || u == 0x205f || u == 0x3000
}

/// `s` without its leading and trailing white space.
pub open spec fn trimmed(s: Seq<char>) -> Seq<char>
    decreases s.len(),
{
    if s.len() > 0 && is_white_space(s[0]) {
        trimmed(s.drop_first())
    } else if s.len() > 0 && is_white_space(s.last()) {
        trimmed(s.drop_last())
    } else {
        s
    }
}

pub open spec fn ascii_lower(c: char) -> char {
    if 'A' <= c <= 'Z' {
        ((c as u32) + 32) as char
    } else {
        c
    }
}

/// `s` with `A-Z` mapped to `a-z` and every other character kept.
pub open spec fn lower(s: Seq<char>) -> Seq<char> {
    s.map_values(|c: char| ascii_lower(c))
}

/// Lower-casing twice is lower-casing once.
pub proof fn lemma_lower_idempotent(s: Seq<char>)
    ensures
        lower(lower(s)) == lower(s),
{
    assert(lower(lower(s)) =~= lower(s));
}

pub open spec fn is_hex_char(c: char) -> bool {
    ('0' <= c <= '9') || ('a' <= c <= 'f') || ('A' <= c <= 'F')
}

pub open spec fn is_digit_char(c: char) -> bool {
    '0' <= c <= '9'
}

/// `str::trim`: `s` without leading and trailing Unicode white space.
#[verifier::external_body]
pub(crate) fn trim(s: &str) -> (r: &str)
    ensures
        r@ == trimmed(s@),
{
    s.trim()
}

/// `str::to_ascii_lowercase`: a copy of `s` with `A-Z` mapped to `a-z`.
#[verifier::external_body]
pub(crate) fn to_ascii_lowercase(s: &str) -> (r: String)
    ensures
        r@ == lower(s@),
{
    s.to_ascii_lowercase()
}

/// `String::push`: appends one character.
#[verifier::external_body]
pub(crate) fn push_char(s: &mut String, c: char)
    ensures
        final(s)@ == old(s)@.push(c),
{
    s.push(c)
}

pub fn is_hex_digit(c: char) -> (r: bool)
    ensures
        r == is_hex_char(c),
{
    ('0' <= c && c <= '9') || ('a' <= c && c <= 'f') || ('A' <= c && c <= 'F')
}

/// `a@ == b@`.
pub fn str_eq(a: &str, b: &str) -> (r: bool)
    ensures
        r == (a@ == b@),
{
    let n = a.unicode_len();
    if n != b.unicode_len() {
        return false;
    }
    let mut i: usize = 0;
    while i < n
        invariant
            n == a@.len() == b@.len(),
            i <= n,
            forall|k: int| 0 <= k < i ==> a@[k] == b@[k],
        decreases n - i,
    {
        if a.get_char(i) != b.get_char(i) {
            return false;
        }
        i += 1;
    }
    assert(a@ =~= b@);
    true
}

pub open spec fn has_prefix(s: Seq<char>, p: Seq<char>) -> bool {
    p.len() <= s.len() && s.subrange(0, p.len() as int) == p
}

pub open spec fn has_suffix(s: Seq<char>, p: Seq<char>) -> bool {
    p.len() <= s.len() && s.subrange(s.len() - p.len(), s.len() as int) == p
}

pub open spec fn occurs_at(s: Seq<char>, p: Seq<char>, i: int) -> bool {
    0 <= i && i + p.len() <= s.len() && s.subrange(i, i + p.len()) == p
}

pub open spec fn has_infix(s: Seq<char>, p: Seq<char>) -> bool {
    exists|i: int| occurs_at(s, p, i)
}

/// `s@[at..at + p@.len()] == p@`, for a window inside `s`.
fn chars_match_at(s: &str, p: &str, at: usize, n: usize, m: usize) -> (r: bool)
    requires
        n == s@.len(),
        m == p@.len(),
        at + m <= n,
    ensures
        r == occurs_at(s@, p@, at as int),
{
    let mut j: usize = 0;
    while j < m
        invariant
            n == s@.len(),
            m == p@.len(),
            at + m <= n,
            j <= m,
            forall|k: int| 0 <= k < j ==> s@[at + k] == p@[k],
        decreases m - j,
    {
        if s.get_char(at + j) != p.get_char(j) {
            assert(s@.subrange(at as int, at + m)[j as int] != p@[j as int]);
            return false;
        }
        j += 1;
    }
    assert(s@.subrange(at as int, at + m) =~= p@);
    true
}

/// `str::starts_with` on characters.
pub fn starts_with(s: &str, p: &str) -> (r: bool)
    ensures
        r == has_prefix(s@, p@),
{
    let n = s.unicode_len();
    let m = p.unicode_len();
    if m > n {
        return false;
    }
    chars_match_at(s, p, 0, n, m)
}

/// `str::ends_with` on characters.
pub fn ends_with(s: &str, p: &str) -> (r: bool)
    ensures
        r == has_suffix(s@, p@),
{
    let n = s.unicode_len();
    let m = p.unicode_len();
    if m > n {
        return false;
    }
    chars_match_at(s, p, n - m, n, m)
}

/// `str::contains` on characters.
pub fn contains(s: &str, p: &str) -> (r: bool)
    ensures
        r == has_infix(s@, p@),
{
    let n = s.unicode_len();
    let m = p.unicode_len();
    if m == 0 {
        assert(s@.subrange(0, 0) =~= p@);
        assert(occurs_at(s@, p@, 0));
        return true;
    }
    if m > n {
        assert forall|i: int| !occurs_at(s@, p@, i) by {}
        return false;
    }
    let mut at: usize = 0;
    while at <= n - m
        invariant
            n == s@.len(),
            m == p@.len(),
            0 < m <= n,
            forall|i: int| 0 <= i < at ==> !occurs_at(s@, p@, i),
        decreases n - m + 1 - at,
    {
        if chars_match_at(s, p, at, n, m) {
            return true;
        }
        at += 1;
    }
    assert forall|i: int| !occurs_at(s@, p@, i) by {
        if 0 <= i && i + m <= n {
            assert(i < at);
        }
    }
    false
}

// ── Numbers ────────────────────────────────────────────────────────────────

pub open spec fn digit_char(d: nat) -> char {
    (('0' as u32) + d) as char
}

/// Decimal digits of `n`, without leading zeros.
pub open spec fn decimal(n: nat) -> Seq<char>
    decreases n,
{
    if n < 10 {
        seq![digit_char(n)]
    } else {
        decimal(n / 10).push(digit_char(n % 10))
    }
}

/// Decimal text of `v`, with a leading `-` when negative.
pub open spec fn signed_decimal(v: int) -> Seq<char> {
    if v < 0 {
        seq!['-'] + decimal((-v) as nat)
    } else {
        decimal(v as nat)
    }
}

/// Appends the decimal digits of `n` to `s`.
pub fn push_decimal(s: &mut String, n: u128)
    ensures
        final(s)@ == old(s)@ + decimal(n as nat),
    decreases n,
{
    if n >= 10 {
        push_decimal(s, n / 10);
    }
    let d = (n % 10) as u32;
    let c = char_from_digit(d);
    push_char(s, c);
    proof {
        if n >= 10 {
            assert(old(s)@ + decimal(n as nat) =~= old(s)@ + decimal((n / 10) as nat) + seq![
                digit_char((n % 10) as nat),
            ]);
        } else {
            assert(old(s)@ + decimal(n as nat) =~= old(s)@.push(digit_char(n as nat)));
        }
    }
}

fn char_from_digit(d: u32) -> (c: char)
    requires
        d < 10,
    ensures
        c == digit_char(d as nat),
{
    if d == 0 {
        '0'
    } else if d == 1 {
        '1'
    } else if d == 2 {
        '2'
    } else if d == 3 {
        '3'
    } else if d == 4 {
        '4'
    } else if d == 5 {
        '5'
    } else if d == 6 {
        '6'
    } else if d == 7 {
        '7'
    } else if d == 8 {
        '8'
    } else {
        '9'
    }
}

/// Appends the decimal text of `v` to `s`.
pub fn push_signed_decimal(s: &mut String, v: i64)
    ensures
        final(s)@ == old(s)@ + signed_decimal(v as int),
{
    if v < 0 {
        push_char(s, '-');
        let m: u128 = (-(v as i128)) as u128;
        push_decimal(s, m);
        assert(final(s)@ =~= old(s)@ + signed_decimal(v as int));
    } else {
        push_decimal(s, v as u128);
    }
}

} // verus!
