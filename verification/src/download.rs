//! How a download is split into ranged requests, and the SHA-256 digest that
//! is computed over the downloaded bytes.
use vstd::prelude::*;

use sha2::Digest;

use crate::text::{self, contains};

verus! {

broadcast use vstd::seq::group_seq_axioms;

/// One MiB: the smallest file that is fetched in parallel ranges is larger
/// than this, and no range is made much smaller.
pub const MIB: u64 = 1048576;

/// The server advertises byte ranges: its `Accept-Ranges` header is readable
/// text that mentions `bytes`.
pub fn accepts_ranges(accept_ranges: Option<&str>) -> (r: bool)
    ensures
        r == (accept_ranges matches Some(v) && text::has_infix(v@, "bytes"@)),
{
    match accept_ranges {
        Some(v) => contains(v, "bytes"),
        None => false,
    }
}

/// An inclusive byte range `first..=last` of the file.
#[derive(Debug, Clone, Copy)]
pub struct ChunkRange {
    pub first: u64,
    pub last: u64,
}

pub open spec fn div_ceil(a: nat, b: nat) -> nat
    recommends
        b > 0,
{
    ((a + b - 1) as nat) / b
}

/// How many ranges a file of `total` bytes is fetched in, for `threads`
/// requested connections: at most one per started MiB, at least one.
pub open spec fn range_count(total: u64, threads: usize) -> nat {
    let by_size = div_ceil(total as nat, MIB as nat);
    let n = if (threads as nat) < by_size {
        threads as nat
    } else {
        by_size
    };
    if n < 1 {
        1
    } else {
        n
    }
}

/// The length of every range but possibly the last.
pub open spec fn range_len(total: u64, threads: usize) -> nat {
    div_ceil(total as nat, range_count(total, threads))
}

/// The `i`-th range: it starts at `i * range_len` and ends a range length
/// later, or at the end of the file.
pub open spec fn range_at(total: u64, threads: usize, i: nat) -> (int, int) {
    let len = range_len(total, threads);
    let first = i * len;
    let last = if first + len - 1 < total - 1 {
        first + len - 1
    } else {
        total - 1
    };
    (first as int, last as int)
}

/// The download is fetched in parallel ranges: more than one connection was
/// asked for, the server takes ranges, and the file is larger than one MiB.
pub open spec fn is_multi(total: u64, ranges_ok: bool, threads: usize) -> bool {
    threads > 1 && ranges_ok && total > MIB
}

/// How a download proceeds.
#[derive(Debug, Clone)]
pub struct DownloadPlan {
    /// Fetch in parallel ranges (else in one streamed request).
    pub multi: bool,
    /// The ranges, in file order, when `multi`.
    pub ranges: Vec<ChunkRange>,
    /// Hash the stream as it arrives.
    pub hash_while_streaming: bool,
    /// Hash the finished file in a second pass.
    pub hash_after: bool,
}

impl DownloadPlan {
    pub open spec fn ranges_view(&self) -> Seq<(int, int)> {
        self.ranges@.map_values(|c: ChunkRange| (c.first as int, c.last as int))
    }
}

proof fn lemma_range_count_bounds(total: u64, threads: usize)
    requires
        total > MIB,
    ensures
        1 <= range_count(total, threads),
        range_count(total, threads) <= div_ceil(total as nat, MIB as nat),
        div_ceil(total as nat, MIB as nat) <= total,
        range_len(total, threads) >= 1,
        range_count(total, threads) * range_len(total, threads) >= total,
{
    let n = range_count(total, threads);
    let t = total as nat;
    assert(div_ceil(t, MIB as nat) >= 2) by (nonlinear_arith)
        requires
            t > 1048576,
            div_ceil(t, 1048576) == (t + 1048575) / 1048576,
    ;
    assert(div_ceil(t, MIB as nat) <= t) by (nonlinear_arith)
        requires
            t > 1048576,
            div_ceil(t, 1048576) == (t + 1048575) / 1048576,
    ;
    let len = range_len(total, threads);
    assert(len >= 1 && n * len >= t) by (nonlinear_arith)
        requires
            1 <= n,
            len == ((t + n - 1) as nat) / n,
            t >= 1,
    ;
}

/// The ranges' arithmetic stays within `u64`: `range_count * range_len`
/// does not exceed `u64::MAX`.
pub open spec fn plan_fits(total: u64, ranges_ok: bool, threads: usize) -> bool {
    is_multi(total, ranges_ok, threads) ==> range_count(total, threads) * range_len(total, threads)
        <= u64::MAX
}

/// `plan_fits` of the arguments.
pub fn plan_fits_u64(total: u64, ranges_ok: bool, threads: usize) -> (r: bool)
    ensures
        r == plan_fits(total, ranges_ok, threads),
{
    if !(threads > 1 && ranges_ok && total > MIB) {
        return true;
    }
    proof {
        lemma_range_count_bounds(total, threads);
    }
    let (n, len) = count_and_len(total, threads);
    assert((n as u128) * (len as u128) <= u128::MAX) by (nonlinear_arith)
        requires
            n <= u64::MAX,
            len <= u64::MAX,
    ;
    let prod: u128 = (n as u128) * (len as u128);
    prod <= u64::MAX as u128
}

fn count_and_len(total: u64, threads: usize) -> (r: (u64, u64))
    requires
        total > MIB,
        threads > 1,
    ensures
        r.0 == range_count(total, threads),
        r.1 == range_len(total, threads),
{
    proof {
        lemma_range_count_bounds(total, threads);
    }
    let by_size: u64 = total / MIB + if total % MIB == 0 {
        0
    } else {
        1
    };
    assert(by_size == div_ceil(total as nat, MIB as nat)) by (nonlinear_arith)
        requires
            by_size == total / 1048576 + if total % 1048576 == 0 {
                0int
            } else {
                1int
            },
    ;
    let n: u64 = if (threads as u64) < by_size {
        threads as u64
    } else {
        by_size
    };
    assert(n == range_count(total, threads));
    assert(total / n + 1 <= u64::MAX || total % n == 0) by (nonlinear_arith)
        requires
            n >= 1,
            total <= u64::MAX,
    ;
    let len: u64 = total / n + if total % n == 0 {
        0
    } else {
        1
    };
    assert(len == range_len(total, threads)) by (nonlinear_arith)
        requires
            n >= 1,
            len == total / n + if total % n == 0 {
                0int
            } else {
                1int
            },
            range_len(total, threads) == ((total + n - 1) as nat) / (n as nat),
    ;
    (n, len)
}

/// Plans the download of a file of `total` bytes with `threads` requested
/// connections to a server that does (`ranges_ok`) or does not take byte
/// ranges; `compute_hash` asks for the file's SHA-256 digest.
pub fn plan_download(total: u64, ranges_ok: bool, threads: usize, compute_hash: bool) -> (p:
    DownloadPlan)
    requires
        plan_fits(total, ranges_ok, threads),
    ensures
        p.multi == is_multi(total, ranges_ok, threads),
        p.multi ==> p.ranges@.len() == range_count(total, threads),
        p.multi ==> forall|i: int|
            0 <= i < p.ranges@.len() ==> p.ranges_view()[i] == range_at(total, threads, i as nat),
        !p.multi ==> p.ranges@.len() == 0,
        p.hash_while_streaming == (compute_hash && !p.multi),
        p.hash_after == (compute_hash && p.multi),
{
    let multi = threads > 1 && ranges_ok && total > MIB;
    let mut ranges: Vec<ChunkRange> = Vec::new();
    if multi {
        proof {
            lemma_range_count_bounds(total, threads);
        }
        let (n, len) = count_and_len(total, threads);
        let mut i: u64 = 0;
        while i < n
            invariant
                n == range_count(total, threads),
                len == range_len(total, threads),
                n * len >= total,
                n * len <= u64::MAX,
                len >= 1,
                n <= total,
                i <= n,
                ranges@.len() == i,
                forall|k: int|
                    0 <= k < i ==> (ranges@[k].first as int, ranges@[k].last as int) == range_at(
                        total,
                        threads,
                        k as nat,
                    ),
            decreases n - i,
        {
            assert(i * len + len <= n * len) by (nonlinear_arith)
                requires
                    i < n,
                    len >= 1,
            ;
            let first = i * len;
            let last = if first + len - 1 < total - 1 {
                first + len - 1
            } else {
                total - 1
            };
            ranges.push(ChunkRange { first, last });
            i += 1;
        }
    }
    let p = DownloadPlan {
        multi,
        ranges,
        hash_while_streaming: compute_hash && !multi,
        hash_after: compute_hash && multi,
    };
    p
}

/// Every range starts inside the file.  This fails only for files of
/// several TiB fetched over more than a million connections.
pub open spec fn ranges_start_in_file(total: u64, threads: usize) -> bool {
    (range_count(total, threads) - 1) * range_len(total, threads) < total
}

/// The ranges of a parallel download cover the file exactly once, in order:
/// the first starts at byte 0, each starts right after the one before it
/// ends, the last ends at the last byte, and none is longer than the range
/// length.
pub proof fn lemma_ranges_partition_file(total: u64, threads: usize)
    requires
        total > MIB,
        ranges_start_in_file(total, threads),
    ensures
        range_at(total, threads, 0).0 == 0,
        forall|i: nat|
            #![trigger range_at(total, threads, i)]
            i < range_count(total, threads) ==> range_at(total, threads, i).0 <= range_at(
                total,
                threads,
                i,
            ).1 < total && range_at(total, threads, i).1 - range_at(total, threads, i).0 + 1
                <= range_len(total, threads),
        forall|i: nat|
            #![trigger range_at(total, threads, i)]
            i + 1 < range_count(total, threads) ==> range_at(total, threads, i).1 + 1 == range_at(
                total,
                threads,
                i + 1,
            ).0,
        range_at(total, threads, (range_count(total, threads) - 1) as nat).1 == total - 1,
{
    lemma_range_count_bounds(total, threads);
    let n = range_count(total, threads);
    let len = range_len(total, threads);
    assert(range_at(total, threads, 0).0 == 0) by (nonlinear_arith)
        requires
            range_at(total, threads, 0).0 == 0 * len,
    ;
    assert forall|i: nat|
        #![trigger range_at(total, threads, i)]
        i < n implies range_at(total, threads, i).0 <= range_at(total, threads, i).1 < total
        && range_at(total, threads, i).1 - range_at(total, threads, i).0 + 1 <= len by {
        assert(i * len <= (n - 1) * len) by (nonlinear_arith)
            requires
                i < n,
        ;
    }
    assert forall|i: nat|
        #![trigger range_at(total, threads, i)]
        i + 1 < n implies range_at(total, threads, i).1 + 1 == range_at(total, threads, i + 1).0 by {
        assert((i + 1) * len == i * len + len) by (nonlinear_arith);
        assert((i + 1) * len <= (n - 1) * len) by (nonlinear_arith)
            requires
                i + 1 < n,
        ;
    }
    let k = (n - 1) as nat;
    assert(k * len + len >= total) by (nonlinear_arith)
        requires
            n * len >= total,
            k == n - 1,
    ;
}

/// The bytes of `file` that the first `k` ranges fetch, in range order.
pub open spec fn ranges_bytes(file: Seq<u8>, total: u64, threads: usize, k: nat) -> Seq<u8>
    decreases k,
{
    if k == 0 {
        Seq::empty()
    } else {
        let r = range_at(total, threads, (k - 1) as nat);
        ranges_bytes(file, total, threads, (k - 1) as nat) + file.subrange(r.0, r.1 + 1)
    }
}

proof fn lemma_ranges_bytes_prefix(file: Seq<u8>, total: u64, threads: usize, k: nat)
    requires
        total > MIB,
        ranges_start_in_file(total, threads),
        file.len() == total,
        1 <= k <= range_count(total, threads),
    ensures
        ranges_bytes(file, total, threads, k) == file.subrange(
            0,
            range_at(total, threads, (k - 1) as nat).1 + 1,
        ),
    decreases k,
{
    lemma_ranges_partition_file(total, threads);
    let r = range_at(total, threads, (k - 1) as nat);
    if k == 1 {
        assert(ranges_bytes(file, total, threads, 0) == Seq::<u8>::empty());
        assert(ranges_bytes(file, total, threads, 1) =~= file.subrange(0, r.1 + 1));
    } else {
        lemma_ranges_bytes_prefix(file, total, threads, (k - 1) as nat);
        let p = range_at(total, threads, (k - 2) as nat);
        assert(p.1 + 1 == r.0);
        assert(ranges_bytes(file, total, threads, k) =~= file.subrange(0, r.1 + 1));
    }
}

/// Writing the bytes each range fetches at the range's offset rebuilds the
/// file: the ranges' bytes, in order, are the file itself.  So the digest of
/// the finished file, read back in one pass, is the digest of the bytes a
/// single streamed download would have hashed.
pub proof fn lemma_ranges_reassemble_file(file: Seq<u8>, total: u64, threads: usize)
    requires
        total > MIB,
        ranges_start_in_file(total, threads),
        file.len() == total,
    ensures
        ranges_bytes(file, total, threads, range_count(total, threads)) == file,
        sha256(ranges_bytes(file, total, threads, range_count(total, threads))) == sha256(file),
{
    lemma_ranges_partition_file(total, threads);
    lemma_range_count_bounds(total, threads);
    lemma_ranges_bytes_prefix(file, total, threads, range_count(total, threads));
    assert(file.subrange(0, total as int) =~= file);
}

/// The `Range` header value for an inclusive byte range.
pub open spec fn range_header_text(first: u64, last: u64) -> Seq<char> {
    "bytes="@ + text::decimal(first as nat) + "-"@ + text::decimal(last as nat)
}

impl ChunkRange {
    /// `bytes=<first>-<last>`
    pub fn header_value(&self) -> (r: String)
        ensures
            r@ == range_header_text(self.first, self.last),
    {
        let mut s = String::from_str("bytes=");
        text::push_decimal(&mut s, self.first as u128);
        s.append("-");
        text::push_decimal(&mut s, self.last as u128);
        s
    }
}

// ── SHA-256 ────────────────────────────────────────────────────────────────

/// The SHA-256 digest (32 bytes) of `data`.
pub uninterp spec fn sha256(data: Seq<u8>) -> Seq<u8>;

/// The bytes a running SHA-256 computation has absorbed so far.
pub uninterp spec fn sha256_stream_input(s: Sha256Stream) -> Seq<u8>;

/// A running SHA-256 computation over a stream of bytes.
#[verifier::external_body]
pub struct Sha256Stream {
    hasher: sha2::Sha256,
}

/// `sha2::Sha256::new()` (the `Digest` trait): a computation that has
/// absorbed nothing.
#[verifier::external_body]
fn sha256_new() -> (s: Sha256Stream)
    ensures
        sha256_stream_input(s) == Seq::<u8>::empty(),
{
    Sha256Stream { hasher: sha2::Sha256::new() }
}

/// `Digest::update` on `sha2::Sha256`: absorbs `data` after what came before.
#[verifier::external_body]
fn sha256_update(s: &mut Sha256Stream, data: &[u8])
    ensures
        sha256_stream_input(*final(s)) == sha256_stream_input(*old(s)) + data@,
{
    Digest::update(&mut s.hasher, data)
}

/// `Digest::finalize` on `sha2::Sha256`: the 32-byte digest of everything
/// absorbed.
#[verifier::external_body]
fn sha256_finalize(s: Sha256Stream) -> (d: Vec<u8>)
    ensures
        d@ == sha256(sha256_stream_input(s)),
        d@.len() == 32,
{
    Digest::finalize(s.hasher).to_vec()
}

pub open spec fn hex_digit(v: nat) -> char {
    if v < 10 {
        (('0' as u32) + v) as char
    } else {
        (('a' as u32) + v - 10) as char
    }
}

/// Lower-case hexadecimal text of `data`, two digits per byte.
pub open spec fn hex_lower(data: Seq<u8>) -> Seq<char>
    decreases data.len(),
{
    if data.len() == 0 {
        Seq::empty()
    } else {
        seq![hex_digit((data[0] / 16) as nat), hex_digit((data[0] % 16) as nat)] + hex_lower(
            data.drop_first(),
        )
    }
}

/// `hex::encode`: lower-case hexadecimal text of `data`.
#[verifier::external_body]
fn hex_encode(data: &[u8]) -> (r: String)
    ensures
        r@ == hex_lower(data@),
{
    hex::encode(data)
}

impl Sha256Stream {
    /// A computation that has absorbed nothing.
    pub fn new() -> (s: Self)
        ensures
            sha256_stream_input(s) == Seq::<u8>::empty(),
    {
        sha256_new()
    }

    /// Absorbs the next bytes of the stream.
    pub fn absorb(&mut self, data: &[u8])
        ensures
            sha256_stream_input(*final(self)) == sha256_stream_input(*old(self)) + data@,
    {
        sha256_update(self, data)
    }

    /// The lower-case hex digest of everything absorbed.
    pub fn finish_hex(self) -> (r: String)
        ensures
            r@ == hex_lower(sha256(sha256_stream_input(self))),
            r@.len() == 64,
    {
        let d = sha256_finalize(self);
        let r = hex_encode(d.as_slice());
        proof {
            lemma_hex_lower_len(d@);
        }
        r
    }
}

pub proof fn lemma_hex_lower_len(data: Seq<u8>)
    ensures
        hex_lower(data).len() == 2 * data.len(),
        forall|i: int|
            0 <= i < hex_lower(data).len() ==> ('0' <= #[trigger] hex_lower(data)[i] <= '9') || (
            'a' <= hex_lower(data)[i] <= 'f'),
    decreases data.len(),
{
    if data.len() > 0 {
        lemma_hex_lower_len(data.drop_first());
        let h = hex_lower(data);
        let first = seq![hex_digit((data[0] / 16) as nat), hex_digit((data[0] % 16) as nat)];
        let rest = hex_lower(data.drop_first());
        assert forall|i: int| 0 <= i < h.len() implies ('0' <= #[trigger] h[i] <= '9') || ('a' <= h[i]
            <= 'f') by {
            if i >= 2 {
                assert(h[i] == rest[i - 2]);
            }
        }
    }
}

} // verus!
