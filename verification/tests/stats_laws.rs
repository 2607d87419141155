use compsize::dedup::DedupSet;
use compsize::extent::{Compression, ExtentKey, ExtentType};
use compsize::stats::{merge_stat, CompsizeStat, ExtentStat};

fn stat(disk: u64, uncomp: u64, refd: u64) -> ExtentStat {
    ExtentStat { disk, uncomp, refd }
}

#[test]
fn extent_stat_merge_adds_fields() {
    let mut a = stat(1, 2, 3);
    a.merge(stat(10, 20, 30));
    assert_eq!(a, stat(11, 22, 33));
}

#[test]
fn extent_stat_percent_exact() {
    assert_eq!(stat(50, 100, 0).get_percent(), 50);
    assert_eq!(stat(29, 100, 0).get_percent(), 29);
    assert_eq!(stat(4096, 4096, 0).get_percent(), 100);
}

#[test]
fn extent_stat_is_empty() {
    assert!(stat(0, 0, 0).is_empty());
    assert!(!stat(0, 0, 1).is_empty());
}

#[test]
fn dedup_insert_reports_new_ids_only_once() {
    // Idempotence: inserting the same physical id any number of times
    // after the first returns false every time.
    let mut set = DedupSet::new();
    assert!(set.insert(7));
    assert!(!set.insert(7));
    assert!(!set.insert(7));
    assert!(set.insert(8));
    assert!(!set.insert(8));
    assert!(!set.insert(7));
}

#[test]
fn merge_is_commutative_on_values() {
    let mut a = CompsizeStat::zero();
    let mut b = CompsizeStat::zero();
    a.nfile = 3;
    a.nextent = 1;
    a.stat[0] = stat(1, 2, 3);
    a.prealloc = stat(9, 9, 9);
    b.nfile = 5;
    b.ninline = 2;
    b.stat[0] = stat(10, 20, 30);
    b.stat[3] = stat(7, 7, 7);
    let mut ab = a;
    ab.merge(b);
    let mut ba = b;
    ba.merge(a);
    assert_eq!(ab, ba);
}

#[test]
fn merge_is_associative_on_values() {
    let mut a = CompsizeStat::zero();
    let mut b = CompsizeStat::zero();
    let mut c = CompsizeStat::zero();
    a.nref = 1;
    a.stat[1] = stat(1, 2, 3);
    b.nextent = 2;
    b.stat[2] = stat(4, 5, 6);
    c.ninline = 3;
    c.prealloc = stat(7, 8, 9);
    let mut ab_c = a;
    ab_c.merge(b);
    ab_c.merge(c);
    let mut bc = b;
    bc.merge(c);
    let mut a_bc = a;
    a_bc.merge(bc);
    assert_eq!(ab_c, a_bc);
}

#[test]
fn referenced_bytes_ignore_dedup_state() {
    // The same Regular extent accounted three times: disk and uncompressed
    // are credited once, referenced bytes every time.
    let mut set = DedupSet::new();
    let mut cs = CompsizeStat::zero();
    let key = ExtentKey::new(ExtentType::Regular, 99);
    for _ in 0..3 {
        merge_stat(&mut set, key, Compression::Zlib, stat(4096, 8192, 8192), &mut cs);
    }
    assert_eq!(cs.nref, 3);
    assert_eq!(cs.nextent, 1);
    assert_eq!(cs.stat[1], stat(4096, 8192, 3 * 8192));
}

#[test]
fn inline_extents_skip_the_dedup_set() {
    // Two inline extents with the same (placeholder) key both credit in
    // full: inline data is never deduplicated.
    let mut set = DedupSet::new();
    let mut cs = CompsizeStat::zero();
    let key = ExtentKey::new(ExtentType::Inline, 0);
    merge_stat(&mut set, key, Compression::Uncompressed, stat(100, 100, 100), &mut cs);
    merge_stat(&mut set, key, Compression::Uncompressed, stat(50, 50, 50), &mut cs);
    assert_eq!(cs.ninline, 2);
    assert_eq!(cs.nref, 0);
    assert_eq!(cs.nextent, 0);
    assert_eq!(cs.stat[0], stat(150, 150, 150));
    // A Regular extent with the same numeric key is still new to the set.
    let reg = ExtentKey::new(ExtentType::Regular, 0);
    merge_stat(&mut set, reg, Compression::Uncompressed, stat(1, 1, 1), &mut cs);
    assert_eq!(cs.nextent, 1);
}

#[test]
fn scenario_single_inline_extent() {
    // One file with a single inline extent of ram_bytes 100 stored in a
    // record of declared length 121.
    let mut set = DedupSet::new();
    let mut cs = CompsizeStat::zero();
    cs.nfile = 1;
    let key = ExtentKey::new(ExtentType::Inline, 0);
    merge_stat(&mut set, key, Compression::Uncompressed, stat(121 - 21, 100, 100), &mut cs);
    assert_eq!(cs.nfile, 1);
    assert_eq!(cs.ninline, 1);
    assert_eq!(cs.stat[0], stat(100, 100, 100));
    assert!(cs.prealloc.is_empty());
}

#[test]
fn scenario_two_files_share_one_regular_extent() {
    // Two files referencing the same physical extent of 4096 bytes: the
    // disk and uncompressed bytes are credited once, the referenced bytes
    // twice.
    let mut set = DedupSet::new();
    let mut cs = CompsizeStat::zero();
    let key = ExtentKey::new(ExtentType::Regular, 16);
    for _ in 0..2 {
        cs.nfile += 1;
        merge_stat(&mut set, key, Compression::Uncompressed, stat(4096, 4096, 4096), &mut cs);
    }
    assert_eq!(cs.nfile, 2);
    assert_eq!(cs.nref, 2);
    assert_eq!(cs.nextent, 1);
    assert_eq!(cs.stat[0].disk, 4096);
    assert_eq!(cs.stat[0].uncomp, 4096);
    assert_eq!(cs.stat[0].refd, 8192);
}

#[test]
fn scenario_prealloc_lands_in_prealloc_bucket() {
    // A preallocated extent never written: it lands in the prealloc
    // bucket, not a compression bucket, and its uncompressed total stays
    // zero, so a renderer must guard the percentage rather than divide.
    let mut set = DedupSet::new();
    let mut cs = CompsizeStat::zero();
    let key = ExtentKey::new(ExtentType::Prealloc, 4);
    merge_stat(&mut set, key, Compression::Uncompressed, stat(4096, 0, 0), &mut cs);
    assert_eq!(cs.prealloc, stat(4096, 0, 0));
    assert_eq!(cs.nref, 1);
    assert_eq!(cs.nextent, 1);
    for i in 0..4 {
        assert!(cs.stat[i].is_empty());
    }
    // The guarded percentage path: uncompressed is zero, so the bucket is
    // not empty yet offers no meaningful percentage.
    assert!(!cs.prealloc.is_empty());
    assert_eq!(cs.prealloc.uncomp, 0);
}

#[test]
fn prealloc_shares_dedup_with_regular_ids() {
    // The dedup set is keyed by physical id across Regular and Prealloc:
    // the same id is credited only once.
    let mut set = DedupSet::new();
    let mut cs = CompsizeStat::zero();
    merge_stat(
        &mut set,
        ExtentKey::new(ExtentType::Prealloc, 11),
        Compression::Uncompressed,
        stat(4096, 0, 0),
        &mut cs,
    );
    merge_stat(
        &mut set,
        ExtentKey::new(ExtentType::Regular, 11),
        Compression::Uncompressed,
        stat(4096, 4096, 4096),
        &mut cs,
    );
    assert_eq!(cs.nextent, 1);
    assert_eq!(cs.prealloc, stat(4096, 0, 0));
    // The second sight of id 11 adds only referenced bytes.
    assert_eq!(cs.stat[0], stat(0, 0, 4096));
}
