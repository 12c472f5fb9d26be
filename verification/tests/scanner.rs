use std::sync::Arc;
use undertow::address::Address;
use undertow::discovery::{plan_chunks, BorrowerSet};
use undertow::listener::BlockListener;
use undertow::mempool::RaceDetector;
use undertow::oracle::{is_stale, use_primary};
use undertow::token_meta::{TokenMeta, TokenMetaCache};
use undertow::twap::average_tick;

/// ABI-encode an address as a 32-byte left-padded word.
fn word(addr: Address) -> [u8; 32] {
    let mut w = [0u8; 32];
    w[12..32].copy_from_slice(&addr.bytes);
    w
}

#[test]
fn chunks_exact_multiple() {
    assert_eq!(plan_chunks(0, 9, 5), vec![(0, 4), (5, 9)]);
}

#[test]
fn chunks_with_remainder() {
    assert_eq!(plan_chunks(0, 11, 5), vec![(0, 4), (5, 9), (10, 11)]);
}

#[test]
fn chunks_single_range() {
    assert_eq!(plan_chunks(100, 103, 50), vec![(100, 103)]);
}

#[test]
fn chunks_empty_when_inverted_or_zero() {
    assert!(plan_chunks(10, 5, 5).is_empty());
    assert!(plan_chunks(0, 10, 0).is_empty());
}

#[test]
fn chunks_stop_at_top_of_range() {
    assert_eq!(
        plan_chunks(u64::MAX - 3, u64::MAX, 3),
        vec![(u64::MAX - 3, u64::MAX - 1), (u64::MAX, u64::MAX)]
    );
    assert_eq!(plan_chunks(7, 7, u64::MAX), vec![(7, 7)]);
}

#[test]
fn discover_chunks_and_dedups() {
    // two chunks, the same borrower appearing in both must be kept once
    let ranges = plan_chunks(0, 9, 5);
    assert_eq!(ranges.len(), 2);
    let mut seen = BorrowerSet::new();
    for (_, to) in ranges {
        seen.insert_all(vec![Address::with_last_byte(1), Address::with_last_byte((to % 256) as u8)]);
    }
    assert_eq!(seen.len(), 3);
    let found = seen.into_sorted_vec();
    assert!(found.contains(&Address::with_last_byte(1)));
    assert_eq!(found.iter().filter(|a| **a == Address::with_last_byte(1)).count(), 1);
    assert_eq!(
        found,
        vec![Address::with_last_byte(1), Address::with_last_byte(4), Address::with_last_byte(9)]
    );
}

#[test]
fn borrower_set_orders_by_leading_bytes() {
    let mut high = [0u8; 20];
    high[0] = 1;
    let mut seen = BorrowerSet::new();
    seen.insert_all(vec![Address::new(high), Address::with_last_byte(0xff), Address::zero()]);
    assert_eq!(
        seen.into_sorted_vec(),
        vec![Address::zero(), Address::with_last_byte(0xff), Address::new(high)]
    );
}

#[test]
fn first_poll_returns_only_head() {
    let mut listener = BlockListener::new(Arc::new(()));
    assert_eq!(listener.observe_head(100), vec![100]);
    assert_eq!(listener.last_seen(), 100);
}

#[test]
fn no_advance_returns_empty() {
    let mut listener = BlockListener::new(Arc::new(()));
    let _ = listener.observe_head(100);
    assert!(listener.observe_head(100).is_empty());
    assert!(listener.observe_head(99).is_empty());
    assert_eq!(listener.last_seen(), 100);
}

#[test]
fn returns_the_gap_on_advance() {
    let mut listener = BlockListener::new(Arc::new(()));
    let _ = listener.observe_head(100);
    assert_eq!(listener.observe_head(103), vec![101, 102, 103]);
}

#[test]
fn detects_tracked_borrower_in_calldata() {
    let target = Address::with_last_byte(0xAB);
    let detector = RaceDetector::new(vec![target]);

    // selector (4 bytes) + two args, second is the target borrower
    let mut calldata = vec![0x12, 0x34, 0x56, 0x78];
    calldata.extend_from_slice(&word(Address::with_last_byte(0x01)));
    calldata.extend_from_slice(&word(target));

    // align to 32-byte words after the selector for the scan
    let aligned = &calldata[4..];
    assert_eq!(detector.competing_borrower(aligned), Some(target));
}

#[test]
fn no_match_returns_none() {
    let detector = RaceDetector::new(vec![Address::with_last_byte(0xAB)]);
    let calldata = word(Address::with_last_byte(0x01));
    assert_eq!(detector.competing_borrower(&calldata), None);
}

#[test]
fn track_adds_borrowers() {
    let mut detector = RaceDetector::new(vec![]);
    assert!(detector.is_empty());
    detector.track(Address::with_last_byte(1));
    assert_eq!(detector.len(), 1);
    detector.track(Address::with_last_byte(1));
    assert_eq!(detector.len(), 1);
}

#[test]
fn trailing_partial_word_is_ignored() {
    let target = Address::with_last_byte(0xAB);
    let detector = RaceDetector::new(vec![target, target]);
    assert_eq!(detector.len(), 1);
    let calldata = word(target);
    assert_eq!(detector.competing_borrower(&calldata[..31]), None);
    assert_eq!(detector.competing_borrower(&calldata), Some(target));
}

#[test]
fn staleness() {
    assert!(!is_stale(1000, 1050, 60));
    assert!(is_stale(1000, 1100, 60));
    assert!(!is_stale(2000, 1000, 0)); // stamped in the future: age zero
}

#[test]
fn fresh_primary_wins() {
    assert!(use_primary(Some(1000), 1030, 60));
}

#[test]
fn stale_primary_falls_back() {
    assert!(!use_primary(Some(1000), 1100, 60));
}

#[test]
fn failing_primary_falls_back() {
    assert!(!use_primary(None, 1000, 60));
}

fn meta() -> TokenMeta {
    TokenMeta {
        decimals: 18,
        symbol: "TKN".into(),
    }
}

#[test]
fn caches_after_first_fetch() {
    let mut cache = TokenMetaCache::new(());
    let token = Address::with_last_byte(1);
    assert_eq!(cache.cached(&token), None);
    cache.insert(token, meta());
    let a = cache.cached(&token).expect("hit");
    let b = cache.cached(&token).expect("hit");
    assert_eq!(a, b);
    assert_eq!(cache.len(), 1);
}

#[test]
fn distinct_tokens_cached_separately() {
    let mut cache = TokenMetaCache::new(());
    cache.insert(Address::with_last_byte(1), meta());
    cache.insert(Address::with_last_byte(2), meta());
    assert_eq!(cache.len(), 2);
    cache.insert(
        Address::with_last_byte(2),
        TokenMeta {
            decimals: 6,
            symbol: "USD".into(),
        },
    );
    assert_eq!(cache.len(), 2);
    assert_eq!(cache.cached(&Address::with_last_byte(2)).unwrap().decimals, 6);
    assert!(!cache.is_empty());
}

#[test]
fn average_tick_math() {
    // 100_000 tick-seconds accrued over 1000s -> avg tick 100
    assert_eq!(average_tick(200_000, 100_000, 1000), 100);
    assert_eq!(average_tick(100, 100, 10), 0);
    assert_eq!(average_tick(100, 0, 0), 0); // guard
}

#[test]
fn average_tick_rounds_toward_zero() {
    assert_eq!(average_tick(-7, 0, 2), -3);
    assert_eq!(average_tick(7, 0, 2), 3);
}

#[test]
fn plan_covers_each_block_once() {
    for (from, to, chunk) in [(3u64, 40u64, 7u64), (0, 0, 1), (5, 17, 1), (10, 12, 100)] {
        let plan = plan_chunks(from, to, chunk);
        for b in from..=to {
            let hits = plan.iter().filter(|(s, e)| *s <= b && b <= *e).count();
            assert_eq!(hits, 1, "block {b} of [{from}, {to}] by {chunk}");
        }
        assert!(plan.iter().all(|(s, e)| s <= e && e - s < chunk));
    }
}

#[test]
fn successive_polls_are_contiguous() {
    let mut listener = BlockListener::new(Arc::new(()));
    let mut reported = listener.observe_head(50);
    for head in [52u64, 52, 57, 60] {
        reported.extend(listener.observe_head(head));
    }
    assert_eq!(reported, (50..=60).collect::<Vec<u64>>());
}

#[test]
fn empty_window_returns_zero_without_subtracting() {
    assert_eq!(average_tick(i64::MAX, i64::MIN, 0), 0);
}

#[test]
fn failed_fetch_is_retried_and_success_is_fetched_once() {
    // Lookups through the cache as a caller does: a miss fetches, a success is cached.
    let mut cache = TokenMetaCache::new(());
    let a = Address::with_last_byte(1);
    let b = Address::with_last_byte(2);
    let outcomes = [None, Some(meta()), None, Some(meta())];
    let lookups = [a, a, a, b, b];
    let mut fetches = 0usize;
    let mut next = 0usize;
    let mut answers = Vec::new();
    for token in lookups.iter() {
        let answer = match cache.cached(token) {
            Some(m) => Some(m),
            None => {
                fetches += 1;
                let fetched = outcomes[next].clone();
                next += 1;
                if let Some(m) = &fetched {
                    cache.insert(*token, m.clone());
                }
                fetched
            }
        };
        answers.push(answer);
    }
    assert_eq!(fetches, 4);
    assert_eq!(answers, vec![None, Some(meta()), Some(meta()), None, Some(meta())]);
    assert_eq!(cache.len(), 2);
}
