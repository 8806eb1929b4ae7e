use eventsourcing::store::EventStore;

#[test]
fn event_file_name_of_known_time() {
    assert_eq!(
        EventStore::event_file_name(0, 1_496_854_535, 812_946_000),
        "1e74ba22-0616-6934-8000-010203040506"
    );
}

#[test]
fn event_file_name_takes_low_sixteen_bits_for_the_clock_sequence() {
    assert_eq!(
        EventStore::event_file_name(0x1_0001, 1_496_854_535, 812_946_000),
        "1e74ba22-0616-6934-8001-010203040506"
    );
    assert_eq!(
        EventStore::event_file_name(0xFFFF, 1_496_854_535, 812_946_000),
        "1e74ba22-0616-6934-bfff-010203040506"
    );
}

#[test]
fn event_file_names_sort_by_time() {
    let a = EventStore::event_file_name(7, 1_700_000_000, 0);
    let b = EventStore::event_file_name(3, 1_700_000_000, 100);
    let c = EventStore::event_file_name(9, 1_700_000_001, 0);
    assert!(a < b);
    assert!(b < c);
}
