use krb5_kdc::lookaside::{Check, Lookaside, ENTRY_OVERHEAD, MAX_SIZE, STALE_TIME};
use std::sync::Arc;

#[test]
fn identical_request_resends_the_cached_reply() {
    let mut c = Lookaside::new();
    assert!(matches!(c.check_or_mark(b"req"), Check::Fresh));
    c.finish(b"req", Some(b"reply"));
    match c.check_or_mark(b"req") {
        Check::Hit(r) => assert_eq!(r, b"reply"),
        _ => panic!("want Hit"),
    }
}

#[test]
fn a_duplicate_while_in_progress_is_dropped() {
    let mut c = Lookaside::new();
    assert!(matches!(c.check_or_mark(b"req"), Check::Fresh));
    // Second arrival before finish: the marker holds no reply yet.
    assert!(matches!(c.check_or_mark(b"req"), Check::InProgress));
}

#[test]
fn an_empty_reply_caches_nothing() {
    let mut c = Lookaside::new();
    assert!(matches!(c.check_or_mark(b"req"), Check::Fresh));
    c.finish(b"req", None);
    // Marker gone, nothing cached: the next arrival is fresh again.
    assert!(matches!(c.check_or_mark(b"req"), Check::Fresh));
}

#[test]
fn stale_entries_are_evicted() {
    let ms: u64 = 1_000_000;
    let mut c = Lookaside::with_limits(MAX_SIZE, 40 * ms);
    c.check_or_mark_at(b"old", 0);
    c.finish_at(b"old", Some(b"r"), 0);
    // Inserting a fresh entry purges the stale one first.
    c.check_or_mark_at(b"new", 60 * ms);
    c.finish_at(b"new", Some(b"r"), 60 * ms);
    assert!(matches!(c.check_or_mark_at(b"old", 60 * ms), Check::Fresh));
    match c.check_or_mark_at(b"new", 60 * ms) {
        Check::Hit(_) => {}
        _ => panic!("fresh entry must survive"),
    }
}

#[test]
fn the_request_bytes_are_held_once_for_the_map_and_the_fifo() {
    let mut c = Lookaside::new();
    c.check_or_mark(b"req");
    c.finish(b"req", Some(b"reply"));
    let (key, _) = c.order.back().expect("queued");
    // One allocation: the FIFO entry and the map key (the marker's key was
    // dropped by finish).
    assert_eq!(Arc::strong_count(key), 2);
    assert!(c.map.iter().any(|e| *e.request == **key));
}

#[test]
fn the_total_size_cap_evicts_oldest_first() {
    // Room for ~2 entries of overhead + 3-byte key + 10-byte reply.
    let cap = (ENTRY_OVERHEAD + 13) * 2 + 5;
    let mut c = Lookaside::with_limits(cap, STALE_TIME);
    for key in [b"aaa", b"bbb", b"ccc"] {
        c.check_or_mark(key);
        c.finish(key, Some(b"0123456789"));
    }
    // The oldest ("aaa") is evicted; the newest two remain.
    assert!(matches!(c.check_or_mark(b"aaa"), Check::Fresh));
    assert!(matches!(c.check_or_mark(b"ccc"), Check::Hit(_)));
    assert!(c.full_logged, "a size-cap eviction is logged once");
}

#[test]
fn stale_eviction_alone_does_not_report_a_full_cache() {
    let ms: u64 = 1_000_000;
    let mut c = Lookaside::with_limits(MAX_SIZE, ms);
    c.check_or_mark_at(b"old", 0);
    c.finish_at(b"old", Some(b"r"), 0);
    c.check_or_mark_at(b"new", 5 * ms);
    assert!(!c.full_logged);
}

#[test]
fn the_clock_of_a_cache_runs() {
    // With a stale time of nothing an entry is stale as soon as time passes.
    let mut c = Lookaside::with_limits(MAX_SIZE, 0);
    assert!(matches!(c.check_or_mark(b"a"), Check::Fresh));
    c.finish(b"a", Some(b"r"));
    let mut spins: u64 = 0;
    loop {
        spins += 1;
        c.check_or_mark(b"b");
        c.finish(b"b", Some(b"r"));
        if !c.map.iter().any(|e| e.request.as_slice() == b"a") {
            return;
        }
        assert!(spins < 100_000_000, "no time passes");
    }
}

#[test]
fn an_unanswered_request_takes_no_other_with_it() {
    let mut c = Lookaside::new();
    for req in [&b"a"[..], b"b", b"c"] {
        assert!(matches!(c.check_or_mark(req), Check::Fresh));
    }
    c.finish(b"a", Some(b"reply"));
    c.finish(b"b", Some(b""));
    assert!(matches!(c.check_or_mark(b"a"), Check::Hit(v) if v == b"reply"));
    assert!(matches!(c.check_or_mark(b"c"), Check::InProgress));
    assert!(matches!(c.check_or_mark(b"b"), Check::Fresh));
}
