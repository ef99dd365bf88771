use rolling_volatility::store::WindowStore;
use rolling_volatility::window::NANOS_PER_SEC;

fn secs(s: u128) -> u128 {
    s * NANOS_PER_SEC
}

#[test]
fn new_store_tracks_nothing() {
    let store: WindowStore<f64> = WindowStore::new();
    assert_eq!(store.compute("ethusdc"), None);
    assert!(!store.is_tracked("ethusdc"));
    assert_eq!(store.sample_count("ethusdc"), None);
}

#[test]
fn track_reports_new_symbols() {
    let mut store: WindowStore<f64> = WindowStore::new();
    assert!(store.track("ethusdc", 30));
    assert!(store.track("btcusdt", 30));
    assert!(!store.track("ethusdc", 5));
    assert!(store.is_tracked("ethusdc"));
    assert!(store.is_tracked("btcusdt"));
    assert!(!store.is_tracked("ethusdt"));
    assert_eq!(store.sample_count("ethusdc"), Some(0));
}

#[test]
fn tracking_again_keeps_the_window() {
    let mut store = WindowStore::new();
    store.track("ethusdc", 30);
    store.add_at("ethusdc", secs(1), 10.0);
    store.add_at("ethusdc", secs(2), 11.0);
    assert!(!store.track("ethusdc", 1));
    assert_eq!(store.compute("ethusdc"), Some(vec![10.0, 11.0]));
    // The first duration still holds: at 31 s the tick of 1 s is 30 s old.
    store.add_at("ethusdc", secs(31), 12.0);
    assert_eq!(store.compute("ethusdc"), Some(vec![10.0, 11.0, 12.0]));
    store.add_at("ethusdc", secs(32), 13.0);
    assert_eq!(store.compute("ethusdc"), Some(vec![11.0, 12.0, 13.0]));
}

#[test]
fn add_for_unknown_symbol_changes_nothing() {
    let mut store = WindowStore::new();
    store.track("ethusdc", 30);
    store.add_at("ethusdc", secs(1), 10.0);
    store.add_at("dogeusdt", secs(1), 99.0);
    store.add("dogeusdt", 98.0);
    assert!(!store.is_tracked("dogeusdt"));
    assert_eq!(store.compute("dogeusdt"), None);
    assert_eq!(store.sample_count("ethusdc"), Some(1));
}

#[test]
fn symbols_keep_separate_windows() {
    let mut store = WindowStore::new();
    store.track("ethusdc", 10);
    store.track("btcusdt", 1);
    store.add_at("ethusdc", secs(0), 100.0);
    store.add_at("btcusdt", secs(0), 40000.0);
    store.add_at("ethusdc", secs(2), 110.0);
    store.add_at("btcusdt", secs(2), 41000.0);
    assert_eq!(store.compute("ethusdc"), Some(vec![100.0, 110.0]));
    // One second is all the second window keeps.
    assert_eq!(store.compute("btcusdt"), None);
    assert_eq!(store.sample_count("btcusdt"), Some(1));
}

#[test]
fn compute_needs_two_samples() {
    let mut store = WindowStore::new();
    store.track("ethusdc", 10);
    assert_eq!(store.compute("ethusdc"), None);
    store.add_at("ethusdc", secs(5), 1u64);
    assert_eq!(store.compute("ethusdc"), None);
    store.add_at("ethusdc", secs(6), 2u64);
    assert_eq!(store.compute("ethusdc"), Some(vec![1, 2]));
}

#[test]
fn updates_are_applied_in_the_order_given() {
    let mut store = WindowStore::new();
    store.track("ethusdc", 1000);
    for i in 0..50u128 {
        store.add_at("ethusdc", secs(i), i as u32);
    }
    let expected: Vec<u32> = (0..50).collect();
    assert_eq!(store.compute("ethusdc"), Some(expected));
}

#[test]
fn add_reads_the_clock() {
    let mut store = WindowStore::new();
    store.track("ethusdc", 3600);
    store.add("ethusdc", 1.0);
    store.add("ethusdc", 2.0);
    assert_eq!(store.compute("ethusdc"), Some(vec![1.0, 2.0]));
}

#[test]
fn interleaved_writers_lose_no_update() {
    let mut store = WindowStore::new();
    store.track("ethusdc", 1000);
    // Four writers take turns; each turn is one exclusive update.
    let mut now = 0u128;
    for i in 0..100u64 {
        for writer in 0..4u64 {
            store.add_at("ethusdc", secs(now), writer * 1000 + i);
            now += 1;
        }
    }
    let samples = store.compute("ethusdc").unwrap();
    assert_eq!(samples.len(), 400);
    for writer in 0..4u64 {
        let own: Vec<u64> = samples.iter().copied().filter(|p| p / 1000 == writer).collect();
        let expected: Vec<u64> = (0..100).map(|i| writer * 1000 + i).collect();
        assert_eq!(own, expected);
    }
}

#[test]
fn interleaved_writers_keep_the_window_bounded() {
    let mut store = WindowStore::new();
    store.track("ethusdc", 50);
    // Prices are their own arrival times here, in seconds.
    for now in 0..400u64 {
        store.add_at("ethusdc", secs(now as u128), now);
        let samples = store.compute("ethusdc").unwrap_or_default();
        for stamp in &samples {
            assert!(now - stamp <= 50);
        }
        if now >= 1 {
            assert_eq!(samples.last(), Some(&now));
            assert_eq!(samples.len() as u64, now.min(50) + 1);
        }
    }
    assert_eq!(store.sample_count("ethusdc"), Some(51));
}

#[test]
fn update_adds_then_samples() {
    let mut store = WindowStore::new();
    store.track("ethusdc", 10);
    assert_eq!(store.update_at("ethusdc", secs(0), 100.0), None);
    assert_eq!(store.update_at("ethusdc", secs(1), 110.0), Some(vec![100.0, 110.0]));
    assert_eq!(store.update_at("ethusdc", secs(2), 120.0), Some(vec![100.0, 110.0, 120.0]));
    assert_eq!(store.update_at("ethusdc", secs(12), 130.0), Some(vec![120.0, 130.0]));
    assert_eq!(store.update_at("ethusdc", secs(30), 140.0), None);
    assert_eq!(store.update_at("btcusdt", secs(30), 1.0), None);
    assert_eq!(store.sample_count("ethusdc"), Some(1));
}

#[test]
fn update_reads_the_clock() {
    let mut store = WindowStore::new();
    store.track("ethusdc", 3600);
    assert_eq!(store.update("ethusdc", 1.0), None);
    assert_eq!(store.update("ethusdc", 2.0), Some(vec![1.0, 2.0]));
    assert_eq!(store.update("dogeusdt", 3.0), None);
}
