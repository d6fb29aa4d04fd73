use file_management::debounce::{Debouncer, EventKind, WatchEvent, DEFAULT_DEBOUNCE_WINDOW_MS};

fn created(path: &str) -> WatchEvent {
    WatchEvent { kind: EventKind::Created, path: path.to_string() }
}

fn other(path: &str) -> WatchEvent {
    WatchEvent { kind: EventKind::Other, path: path.to_string() }
}

#[test]
fn default_window_is_two_seconds() {
    assert_eq!(DEFAULT_DEBOUNCE_WINDOW_MS, 2000);
    assert_eq!(Debouncer::new(DEFAULT_DEBOUNCE_WINDOW_MS).window(), 2000);
}

#[test]
fn new_debouncer_holds_nothing() {
    let mut debouncer = Debouncer::new(2000);
    assert_eq!(debouncer.pending(), 0);
    assert_eq!(debouncer.next_expiry(), None);
    assert_eq!(debouncer.poll(1_000_000), Vec::<String>::new());
}

#[test]
fn one_creation_settles_after_the_window() {
    let mut debouncer = Debouncer::new(2000);
    assert_eq!(debouncer.observe(&created("/watch/a.zip"), 10_000), Vec::<String>::new());
    assert_eq!(debouncer.pending(), 1);
    assert_eq!(debouncer.poll(10_001), Vec::<String>::new());
    assert_eq!(debouncer.poll(11_999), Vec::<String>::new());
    assert_eq!(debouncer.poll(12_000), vec!["/watch/a.zip".to_string()]);
    assert_eq!(debouncer.pending(), 0);
    assert_eq!(debouncer.poll(20_000), Vec::<String>::new());
}

#[test]
fn burst_of_creations_settles_once() {
    for n in 1..=8u64 {
        let mut debouncer = Debouncer::new(2000);
        let mut settled = Vec::new();
        for i in 0..n {
            settled.extend(debouncer.observe(&created("/watch/a.zip"), 1000 + i * 100));
        }
        let last = 1000 + (n - 1) * 100;
        settled.extend(debouncer.poll(last + 1999));
        assert_eq!(settled, Vec::<String>::new());
        settled.extend(debouncer.poll(last + 2000));
        assert_eq!(settled, vec!["/watch/a.zip".to_string()]);
        settled.extend(debouncer.poll(last + 10_000));
        assert_eq!(settled.len(), 1);
    }
}

#[test]
fn long_burst_settles_once_even_if_it_outlasts_the_window() {
    let mut debouncer = Debouncer::new(2000);
    let mut settled = Vec::new();
    for i in 0..10u64 {
        settled.extend(debouncer.observe(&created("/watch/big.iso"), i * 1999));
    }
    settled.extend(debouncer.poll(9 * 1999 + 2000));
    assert_eq!(settled, vec!["/watch/big.iso".to_string()]);
}

#[test]
fn spaced_creations_settle_each() {
    for n in 1..=6u64 {
        let mut debouncer = Debouncer::new(2000);
        let mut settled = Vec::new();
        for i in 0..n {
            settled.extend(debouncer.observe(&created("/watch/a.zip"), i * 2001));
        }
        settled.extend(debouncer.poll((n - 1) * 2001 + 2000));
        assert_eq!(settled.len() as u64, n);
        assert!(settled.iter().all(|p| p == "/watch/a.zip"));
    }
}

#[test]
fn creation_exactly_one_window_later_starts_a_new_burst() {
    let mut debouncer = Debouncer::new(2000);
    assert_eq!(debouncer.observe(&created("/watch/a.zip"), 5000), Vec::<String>::new());
    assert_eq!(debouncer.observe(&created("/watch/a.zip"), 7000), vec!["/watch/a.zip".to_string()]);
    assert_eq!(debouncer.pending(), 1);
    assert_eq!(debouncer.poll(8999), Vec::<String>::new());
    assert_eq!(debouncer.poll(9000), vec!["/watch/a.zip".to_string()]);
}

#[test]
fn creation_just_inside_the_window_refreshes_the_timer() {
    let mut debouncer = Debouncer::new(2000);
    assert_eq!(debouncer.observe(&created("/watch/a.zip"), 5000), Vec::<String>::new());
    assert_eq!(debouncer.observe(&created("/watch/a.zip"), 6999), Vec::<String>::new());
    assert_eq!(debouncer.poll(7000), Vec::<String>::new());
    assert_eq!(debouncer.poll(8998), Vec::<String>::new());
    assert_eq!(debouncer.poll(8999), vec!["/watch/a.zip".to_string()]);
}

#[test]
fn writes_after_a_creation_hold_the_file_back() {
    let mut debouncer = Debouncer::new(2000);
    assert_eq!(debouncer.observe(&created("/watch/big.iso"), 0), Vec::<String>::new());
    assert_eq!(debouncer.observe(&other("/watch/big.iso"), 1500), Vec::<String>::new());
    assert_eq!(debouncer.observe(&other("/watch/big.iso"), 3000), Vec::<String>::new());
    assert_eq!(debouncer.poll(4999), Vec::<String>::new());
    assert_eq!(debouncer.poll(5000), vec!["/watch/big.iso".to_string()]);
}

#[test]
fn other_notifications_alone_settle_nothing() {
    let mut debouncer = Debouncer::new(2000);
    assert_eq!(debouncer.observe(&other("/watch/old.txt"), 0), Vec::<String>::new());
    assert_eq!(debouncer.pending(), 0);
    assert_eq!(debouncer.observe(&other("/watch/old.txt"), 100), Vec::<String>::new());
    assert_eq!(debouncer.poll(10_000), Vec::<String>::new());
}

#[test]
fn other_notification_after_settling_starts_nothing() {
    let mut debouncer = Debouncer::new(2000);
    debouncer.observe(&created("/watch/a.zip"), 0);
    assert_eq!(debouncer.observe(&other("/watch/a.zip"), 2000), vec!["/watch/a.zip".to_string()]);
    assert_eq!(debouncer.pending(), 0);
    assert_eq!(debouncer.poll(10_000), Vec::<String>::new());
}

#[test]
fn paths_are_debounced_apart() {
    let mut debouncer = Debouncer::new(2000);
    assert_eq!(debouncer.observe(&created("/watch/a.zip"), 0), Vec::<String>::new());
    assert_eq!(debouncer.observe(&created("/watch/b.png"), 1000), Vec::<String>::new());
    assert_eq!(debouncer.pending(), 2);
    assert_eq!(debouncer.observe(&created("/watch/b.png"), 1500), Vec::<String>::new());
    assert_eq!(debouncer.pending(), 2);
    assert_eq!(debouncer.poll(2000), vec!["/watch/a.zip".to_string()]);
    assert_eq!(debouncer.pending(), 1);
    assert_eq!(debouncer.poll(3499), Vec::<String>::new());
    assert_eq!(debouncer.poll(3500), vec!["/watch/b.png".to_string()]);
}

#[test]
fn paths_settle_in_the_order_of_their_last_notification() {
    let mut debouncer = Debouncer::new(1000);
    debouncer.observe(&created("/watch/first"), 0);
    debouncer.observe(&created("/watch/second"), 10);
    debouncer.observe(&created("/watch/third"), 20);
    debouncer.observe(&other("/watch/first"), 30);
    assert_eq!(
        debouncer.poll(5000),
        vec!["/watch/second".to_string(), "/watch/third".to_string(), "/watch/first".to_string()]
    );
}

#[test]
fn many_notifications_for_few_paths_keep_few_timers() {
    let mut debouncer = Debouncer::new(2000);
    for i in 0..1000u64 {
        let path = format!("/watch/file{}.zip", i % 3);
        debouncer.observe(&created(&path), i);
        assert!(debouncer.pending() <= 3);
    }
    assert_eq!(debouncer.pending(), 3);
}

#[test]
fn paths_differ_by_case() {
    let mut debouncer = Debouncer::new(2000);
    debouncer.observe(&created("/watch/a.zip"), 0);
    debouncer.observe(&created("/watch/A.zip"), 0);
    assert_eq!(debouncer.pending(), 2);
}

#[test]
fn window_of_zero_settles_at_once() {
    let mut debouncer = Debouncer::new(0);
    assert_eq!(debouncer.observe(&created("/watch/a.zip"), 7), Vec::<String>::new());
    assert_eq!(debouncer.next_expiry(), Some(7));
    assert_eq!(debouncer.poll(7), vec!["/watch/a.zip".to_string()]);
}

#[test]
fn clock_that_steps_back_settles_nothing_early() {
    let mut debouncer = Debouncer::new(2000);
    debouncer.observe(&created("/watch/a.zip"), 10_000);
    assert_eq!(debouncer.poll(500), Vec::<String>::new());
    assert_eq!(debouncer.pending(), 1);
    assert_eq!(debouncer.poll(12_000), vec!["/watch/a.zip".to_string()]);
}

#[test]
fn next_expiry_is_the_earliest_deadline() {
    let mut debouncer = Debouncer::new(2000);
    debouncer.observe(&created("/watch/b.png"), 700);
    assert_eq!(debouncer.next_expiry(), Some(2700));
    debouncer.observe(&created("/watch/a.zip"), 900);
    assert_eq!(debouncer.next_expiry(), Some(2700));
    debouncer.observe(&created("/watch/b.png"), 1000);
    assert_eq!(debouncer.next_expiry(), Some(2900));
    assert_eq!(debouncer.poll(2899), Vec::<String>::new());
    assert_eq!(debouncer.poll(2900), vec!["/watch/a.zip".to_string()]);
    assert_eq!(debouncer.next_expiry(), Some(3000));
    assert_eq!(debouncer.poll(3000), vec!["/watch/b.png".to_string()]);
    assert_eq!(debouncer.next_expiry(), None);
}

#[test]
fn next_expiry_stops_at_the_largest_time() {
    let mut debouncer = Debouncer::new(2000);
    debouncer.observe(&created("/watch/a.zip"), u64::MAX - 1000);
    assert_eq!(debouncer.next_expiry(), Some(u64::MAX));
    assert_eq!(debouncer.poll(u64::MAX), Vec::<String>::new());
    assert_eq!(debouncer.pending(), 1);
}

#[test]
fn time_to_next_expiry_counts_down_to_zero() {
    let mut debouncer = Debouncer::new(2000);
    assert_eq!(debouncer.time_to_next_expiry(0), None);
    debouncer.observe(&created("/watch/a.zip"), 1000);
    assert_eq!(debouncer.time_to_next_expiry(1000), Some(2000));
    assert_eq!(debouncer.time_to_next_expiry(2500), Some(500));
    assert_eq!(debouncer.time_to_next_expiry(3000), Some(0));
    assert_eq!(debouncer.time_to_next_expiry(9000), Some(0));
    assert_eq!(debouncer.time_to_next_expiry(0), Some(3000));
}
