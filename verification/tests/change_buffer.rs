use mst_terrain::change_buffer::ChangeBuffer;

#[test]
fn consume_listener() {
    let mut buffer: ChangeBuffer<u8> = ChangeBuffer::new();

    assert_eq!(buffer.current_point_in_time(), 0);
    assert_eq!(buffer.event_count(), 0);
    assert_eq!(buffer.listener_count(), 0);

    let listener1 = buffer.get_listener();
    buffer.push_event(50);

    assert_eq!(listener1, 0);
    assert_eq!(buffer.current_point_in_time(), 1);

    let listener2 = buffer.get_listener();
    buffer.push_event(60);
    buffer.push_event(70);

    assert_eq!(listener2, 1);
    assert_eq!(buffer.current_point_in_time(), 3);

    let changes1 = buffer.consume_listener(listener1);

    assert_eq!(buffer.event_count(), 2);

    let changes2 = buffer.consume_listener(listener2);

    assert_eq!(buffer.event_count(), 0);
    assert_eq!(changes1, Some(vec![50, 60, 70]));
    assert_eq!(changes2, Some(vec![60, 70]));

    // Cleanup also resetted current point in time
    assert_eq!(buffer.current_point_in_time(), 0);
}

#[test]
fn consume_twice_returns_none() {
    let mut buffer: ChangeBuffer<u8> = ChangeBuffer::new();
    let listener = buffer.get_listener();
    buffer.push_event(7);
    assert_eq!(buffer.consume_listener(listener), Some(vec![7]));
    assert_eq!(buffer.consume_listener(listener), None);
    assert_eq!(buffer.consume_listener(listener), None);
}

#[test]
fn consume_unknown_listener_fails() {
    let mut buffer: ChangeBuffer<u8> = ChangeBuffer::new();
    assert_eq!(buffer.consume_listener(3), None);
    let listener = buffer.get_listener();
    assert_eq!(buffer.consume_listener(listener + 1), None);
    assert_eq!(buffer.consume_listener(listener), Some(vec![]));
}

#[test]
fn push_without_listener_keeps_nothing() {
    let mut buffer: ChangeBuffer<u8> = ChangeBuffer::new();
    buffer.push_event(1);
    buffer.push_event(2);
    assert_eq!(buffer.event_count(), 0);
    assert_eq!(buffer.current_point_in_time(), 0);
    let listener = buffer.get_listener();
    assert_eq!(buffer.consume_listener(listener), Some(vec![]));
}

#[test]
fn compaction_drops_consumed_history() {
    let mut buffer: ChangeBuffer<u8> = ChangeBuffer::new();
    let l1 = buffer.get_listener();
    buffer.push_event(10);
    let l2 = buffer.get_listener();
    buffer.push_event(20);
    assert_eq!(buffer.event_count(), 2);
    assert_eq!(buffer.consume_listener(l1), Some(vec![10, 20]));
    // the event at time 1 can no longer be read by l2, only the one at 2
    assert_eq!(buffer.event_count(), 1);
    assert_eq!(buffer.consume_listener(l2), Some(vec![20]));
    assert_eq!(buffer.event_count(), 0);
}
