use rust_log_analyzer as rla;

use rla::recent::RecentlySeen;

#[test]
fn test_recently_seen() {
    let mut recently = RecentlySeen::new(2);

    assert!(!recently.recently_witnessed(&0));
    assert!(!recently.recently_witnessed(&1));
    assert!(!recently.recently_witnessed(&2));

    recently.store(0);
    assert!(recently.recently_witnessed(&0));
    assert!(!recently.recently_witnessed(&1));
    assert!(!recently.recently_witnessed(&2));

    recently.store(1);
    assert!(recently.recently_witnessed(&0));
    assert!(recently.recently_witnessed(&1));
    assert!(!recently.recently_witnessed(&2));

    recently.store(2);
    assert!(!recently.recently_witnessed(&0));
    assert!(recently.recently_witnessed(&1));
    assert!(recently.recently_witnessed(&2));
}

#[test]
fn recently_seen_keeps_duplicates_once() {
    let mut recently = RecentlySeen::new(2);
    recently.store(7);
    recently.store(7);
    recently.store(8);
    // Storing 7 again did not evict anything, so both fit.
    assert!(recently.recently_witnessed(&7));
    assert!(recently.recently_witnessed(&8));
}

#[test]
fn recently_seen_size_zero_keeps_latest() {
    let mut recently = RecentlySeen::new(0);
    recently.store(1);
    assert!(recently.recently_witnessed(&1));
    recently.store(2);
    assert!(!recently.recently_witnessed(&1));
    assert!(recently.recently_witnessed(&2));
}
