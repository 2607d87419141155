use compsize::codec::decode_record;
use compsize::extent::IoctlSearchItem;
use compsize::session::{Sv2Args, Sv2Session, SV2_BUF_SIZE, SV2_LAST_PAGE_THRESHOLD};

fn push_le64(buf: &mut Vec<u8>, v: u64) {
    for b in v.to_le_bytes() {
        buf.push(b);
    }
}

fn push_le32(buf: &mut Vec<u8>, v: u32) {
    for b in v.to_le_bytes() {
        buf.push(b);
    }
}

/// A minimal 53-byte inline record (no stored data) with the given logical
/// offset and ram_bytes, so that records are tellable apart.
fn push_min_inline(buf: &mut Vec<u8>, offset: u64, ram_bytes: u64) {
    push_le64(buf, 1);
    push_le64(buf, 42);
    push_le64(buf, offset);
    push_le32(buf, 108);
    push_le32(buf, 21);
    push_le64(buf, 9);
    push_le64(buf, ram_bytes);
    buf.push(0);
    buf.push(0);
    buf.push(0);
    buf.push(0);
    buf.push(0);
}

/// Hand a synthetic page to the session, as the embedding program does
/// after the kernel call: buffer bytes plus the returned item count.
fn load_page(args: &mut Sv2Args, session: &mut Sv2Session, page: &[u8], nr_items: u32) {
    let mut buf = page.to_vec();
    buf.resize(SV2_BUF_SIZE, 0);
    args.buf = buf;
    session.load_page(nr_items);
}

fn drain(args: &mut Sv2Args, session: &mut Sv2Session) -> Vec<IoctlSearchItem> {
    let mut out = Vec::new();
    session.drain_page(args, &mut out).unwrap();
    out
}

#[test]
fn args_new_initialises_key_and_buffer() {
    let args = Sv2Args::new();
    assert_eq!(args.buf.len(), SV2_BUF_SIZE);
    assert!(args.buf.iter().all(|b| *b == 0));
    assert_eq!(args.key.min_objectid, 0);
    assert_eq!(args.key.max_objectid, 0);
    assert_eq!(args.key.min_offset, 0);
    assert_eq!(args.key.max_offset, u64::MAX);
    assert_eq!(args.key.min_type, 108);
    assert_eq!(args.key.max_type, 108);
    assert_eq!(args.key.nr_items, u32::MAX);
}

#[test]
fn set_key_targets_one_inode() {
    let mut args = Sv2Args::new();
    args.key.min_offset = 77;
    args.set_key(12345);
    assert_eq!(args.key.min_objectid, 12345);
    assert_eq!(args.key.max_objectid, 12345);
    assert_eq!(args.key.min_offset, 0);
    assert_eq!(args.key.nr_items, u32::MAX);
}

#[test]
fn fresh_session_requests_a_page() {
    let s = Sv2Session::new();
    assert!(s.need_load());
    assert!(!s.finished());
}

#[test]
fn page_at_threshold_is_final() {
    let mut s = Sv2Session::new();
    s.load_page(SV2_LAST_PAGE_THRESHOLD);
    assert!(!s.need_load());
    assert!(!s.finished());
    s.nrest_item = 0;
    assert!(s.finished());
}

#[test]
fn page_above_threshold_requests_another() {
    let mut s = Sv2Session::new();
    s.load_page(SV2_LAST_PAGE_THRESHOLD + 1);
    s.nrest_item = 0;
    assert!(s.need_load());
    assert!(!s.finished());
}

#[test]
fn empty_final_page_ends_session() {
    let mut args = Sv2Args::new();
    let mut s = Sv2Session::new();
    s.load_page(0);
    assert!(s.finished());
    assert_eq!(s.next_record(&mut args), Ok(None));
}

#[test]
fn paginated_walk_equals_single_pass() {
    // Pagination correctness: records partitioned across pages around the
    // low-water threshold come back as one ordered sequence, identical to
    // decoding the concatenated page contents in a single pass.
    let n1 = SV2_LAST_PAGE_THRESHOLD as u64 + 1;
    let mut page1: Vec<u8> = Vec::new();
    for i in 0..n1 {
        push_min_inline(&mut page1, i, 1000 + i);
    }
    let mut page2: Vec<u8> = Vec::new();
    for i in n1..n1 + 2 {
        push_min_inline(&mut page2, i, 1000 + i);
    }

    let mut args = Sv2Args::new();
    args.set_key(42);
    let mut session = Sv2Session::new();
    let mut collected: Vec<IoctlSearchItem> = Vec::new();

    assert!(session.need_load());
    load_page(&mut args, &mut session, &page1, n1 as u32);
    collected.extend(drain(&mut args, &mut session));
    // One past the last record's offset: the next page continues there.
    assert_eq!(args.key.min_offset, n1);
    assert!(session.need_load());
    load_page(&mut args, &mut session, &page2, 2);
    collected.extend(drain(&mut args, &mut session));
    assert!(session.finished());

    // The single unpaginated pass over the concatenated page contents.
    let mut single: Vec<u8> = page1.clone();
    single.extend_from_slice(&page2);
    let mut expected: Vec<IoctlSearchItem> = Vec::new();
    let mut pos = 0usize;
    for _ in 0..n1 + 2 {
        let rec = decode_record(&single, pos).unwrap();
        pos += 32 + rec.header.len as usize;
        expected.push(rec);
    }
    assert_eq!(collected.len(), expected.len());
    assert_eq!(collected, expected);
    for (i, rec) in collected.iter().enumerate() {
        assert_eq!(rec.header.offset, i as u64);
        assert_eq!(rec.item.ram_bytes, 1000 + i as u64);
    }
}

#[test]
fn malformed_page_is_reported_and_leaves_session_in_place() {
    // A page claiming one item whose buffer holds no well-formed record.
    let mut args = Sv2Args::new();
    let mut session = Sv2Session::new();
    load_page(&mut args, &mut session, &[0u8; 10], 1);
    let before = session;
    let key_before = args.key;
    let mut out = Vec::new();
    assert!(session.drain_page(&mut args, &mut out).is_err());
    assert!(out.is_empty());
    assert_eq!(session, before);
    assert_eq!(args.key, key_before);
}

#[test]
fn record_by_record_walk_matches_drain() {
    let mut page: Vec<u8> = Vec::new();
    for i in 0..5u64 {
        push_min_inline(&mut page, i * 10, i);
    }
    let mut args = Sv2Args::new();
    let mut session = Sv2Session::new();
    load_page(&mut args, &mut session, &page, 5);
    let mut one_by_one: Vec<IoctlSearchItem> = Vec::new();
    loop {
        match session.next_record(&mut args).unwrap() {
            Some(rec) => one_by_one.push(rec),
            None => break,
        }
    }
    assert!(session.finished());
    // The page was final (5 <= threshold); the range still advanced past
    // the last record seen.
    assert_eq!(args.key.min_offset, 41);

    let mut args2 = Sv2Args::new();
    let mut session2 = Sv2Session::new();
    load_page(&mut args2, &mut session2, &page, 5);
    let drained = drain(&mut args2, &mut session2);
    assert_eq!(one_by_one, drained);
}
