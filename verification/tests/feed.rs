use indexer_tap::feed::{retry_delay_ns, RefreshStep, SnapshotFeed};

#[test]
fn new_feed_has_no_value() {
    let feed: SnapshotFeed<u32> = SnapshotFeed::new();
    assert_eq!(feed.value(), None);
    assert_eq!(feed.published(), 0);
    let mut reader = feed.subscribe();
    assert_eq!(feed.next(&mut reader), None);
}

#[test]
fn reader_gets_the_latest_value_once() {
    let mut feed = SnapshotFeed::from_value(1u32);
    let mut reader = feed.subscribe();
    assert_eq!(feed.next(&mut reader), Some(&1));
    assert_eq!(feed.next(&mut reader), None);
    feed.publish(2);
    assert_eq!(feed.next(&mut reader), Some(&2));
    assert_eq!(feed.next(&mut reader), None);
    assert_eq!(feed.value(), Some(&2));
}

#[test]
fn reader_may_miss_values_in_between() {
    let mut feed = SnapshotFeed::from_value(1u32);
    let mut early = feed.subscribe();
    assert_eq!(feed.next(&mut early), Some(&1));
    feed.publish(2);
    feed.publish(3);
    feed.publish(4);
    let mut late = feed.subscribe();
    assert_eq!(feed.next(&mut early), Some(&4));
    assert_eq!(feed.next(&mut late), Some(&4));
    assert_eq!(feed.next(&mut early), None);
    assert_eq!(feed.published(), 4);
}

#[test]
fn refresh_publishes_and_waits_for_the_interval() {
    let mut feed: SnapshotFeed<u32> = SnapshotFeed::new();
    let step = feed.apply_refresh(Ok::<u32, String>(7), 60_000_000_000);
    assert_eq!(step, RefreshStep::Published { next_in_ns: 60_000_000_000 });
    assert_eq!(feed.value(), Some(&7));
}

#[test]
fn failed_refresh_keeps_the_value_and_retries_after_half_the_interval() {
    let mut feed = SnapshotFeed::from_value(7u32);
    let mut reader = feed.subscribe();
    assert_eq!(feed.next(&mut reader), Some(&7));
    for _ in 0..3 {
        let step = feed.apply_refresh(Err::<u32, String>("unreachable".to_string()), 60_000_000_000);
        assert_eq!(step, RefreshStep::Retry { retry_in_ns: 30_000_000_000 });
        assert_eq!(feed.value(), Some(&7));
        assert_eq!(feed.published(), 1);
        assert_eq!(feed.next(&mut reader), None);
    }
    let mut empty: SnapshotFeed<u32> = SnapshotFeed::new();
    assert_eq!(empty.apply_refresh(Err::<u32, ()>(()), 5), RefreshStep::Retry { retry_in_ns: 2 });
    assert_eq!(empty.value(), None);
}

#[test]
fn retry_delay_is_half_rounded_down() {
    assert_eq!(retry_delay_ns(0), 0);
    assert_eq!(retry_delay_ns(1), 0);
    assert_eq!(retry_delay_ns(3), 1);
    assert_eq!(retry_delay_ns(60_000_000_000), 30_000_000_000);
    assert_eq!(retry_delay_ns(u128::MAX), u128::MAX / 2);
}
