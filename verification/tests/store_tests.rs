use specan::store::SpectrumStore;

#[test]
fn starts_empty() {
    let mut store = SpectrumStore::new();
    assert!(!store.has_frame());
    assert_eq!(store.take(), None);
}

#[test]
fn frame_comes_out_exactly_as_published() {
    let mut store = SpectrumStore::new();
    let frame = vec![(1i64, -2i64), (3, 4), (0, 0)];
    store.publish(frame.clone());
    assert!(store.has_frame());
    assert_eq!(store.take(), Some(frame));
}

#[test]
fn taking_empties_the_slot() {
    let mut store = SpectrumStore::new();
    store.publish(vec![(5, 6)]);
    let _ = store.take();
    assert!(!store.has_frame());
    assert_eq!(store.take(), None);
}

#[test]
fn publish_replaces_and_never_queues() {
    // a frame the reader was too slow for is dropped, not queued
    let mut store = SpectrumStore::new();
    store.publish(vec![(1, 1)]);
    store.publish(vec![(2, 2)]);
    store.publish(vec![(3, 3)]);
    assert_eq!(store.take(), Some(vec![(3, 3)]));
    assert_eq!(store.take(), None);
}
