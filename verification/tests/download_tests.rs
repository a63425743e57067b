use windows_iso_downloader::download::{
    accepts_ranges, plan_download, plan_fits_u64, ChunkRange, Sha256Stream, MIB,
};

#[test]
fn ranges_are_taken_when_advertised() {
    assert!(accepts_ranges(Some("bytes")));
    assert!(accepts_ranges(Some("none, bytes")));
    assert!(!accepts_ranges(Some("none")));
    assert!(!accepts_ranges(None));
}

#[test]
fn small_or_unranged_downloads_stream() {
    for (total, ranges_ok, threads) in [(MIB, true, 8), (10 * MIB, false, 8), (10 * MIB, true, 1), (0, true, 8)] {
        let p = plan_download(total, ranges_ok, threads, true);
        assert!(!p.multi);
        assert!(p.ranges.is_empty());
        assert!(p.hash_while_streaming && !p.hash_after);
    }
    let p = plan_download(10 * MIB, true, 1, false);
    assert!(!p.hash_while_streaming && !p.hash_after);
}

#[test]
fn parallel_plan_splits_the_file() {
    let total = 10 * MIB + 1;
    assert!(plan_fits_u64(total, true, 4));
    let p = plan_download(total, true, 4, true);
    assert!(p.multi && !p.hash_while_streaming && p.hash_after);
    let r: Vec<(u64, u64)> = p.ranges.iter().map(|c| (c.first, c.last)).collect();
    assert_eq!(
        r,
        vec![(0, 2621440), (2621441, 5242881), (5242882, 7864322), (7864323, 10485760)]
    );
}

#[test]
fn parallel_plan_uses_at_most_one_range_per_mib() {
    let total = 3 * MIB - 5;
    let p = plan_download(total, true, 16, false);
    assert_eq!(p.ranges.len(), 3);
    assert_eq!(p.ranges[0].first, 0);
    assert_eq!(p.ranges[2].last, total - 1);
    for w in p.ranges.windows(2) {
        assert_eq!(w[0].last + 1, w[1].first);
    }
}

#[test]
fn range_header_value() {
    assert_eq!(ChunkRange { first: 0, last: 2621440 }.header_value(), "bytes=0-2621440");
    assert_eq!(ChunkRange { first: 7, last: 7 }.header_value(), "bytes=7-7");
}

#[test]
fn overflowing_plans_are_detected() {
    assert!(plan_fits_u64(u64::MAX - 10, true, 2));
    assert!(!plan_fits_u64(u64::MAX, true, 2));
    assert!(plan_fits_u64(u64::MAX, true, 3));
    assert!(plan_fits_u64(u64::MAX, false, 2));
}

#[test]
fn sha256_known_digests() {
    let mut s = Sha256Stream::new();
    s.absorb(b"abc");
    assert_eq!(s.finish_hex(), "ba7816bf8f01cfea414140de5dae2223b00361a396177a9cb410ff61f20015ad");
    assert_eq!(
        Sha256Stream::new().finish_hex(),
        "e3b0c44298fc1c149afbf4c8996fb92427ae41e4649b934ca495991b7852b855"
    );
}

#[test]
fn sha256_of_a_stream_is_that_of_its_concatenation() {
    let mut s = Sha256Stream::new();
    s.absorb(b"a");
    s.absorb(b"");
    s.absorb(b"bc");
    assert_eq!(s.finish_hex(), "ba7816bf8f01cfea414140de5dae2223b00361a396177a9cb410ff61f20015ad");
}

#[test]
fn ranges_reassemble_the_file_and_its_digest() {
    let total: u64 = 2 * MIB + 7;
    let file: Vec<u8> = (0..total).map(|i| (i % 251) as u8).collect();
    let plan = plan_download(total, true, 8, true);
    assert!(plan.multi);
    let mut joined: Vec<u8> = Vec::new();
    let mut by_ranges = Sha256Stream::new();
    for r in &plan.ranges {
        let part = &file[r.first as usize..=r.last as usize];
        joined.extend_from_slice(part);
        by_ranges.absorb(part);
    }
    assert_eq!(joined, file);
    let mut whole = Sha256Stream::new();
    whole.absorb(&file);
    assert_eq!(by_ranges.finish_hex(), whole.finish_hex());
}
