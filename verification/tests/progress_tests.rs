use unifi_adopt::progress::ChunkBatcher;

#[test]
fn window_accumulates_in_order() {
    let mut b = ChunkBatcher::new();
    b.push_chunk("first ");
    b.push_chunk("second ");
    b.push_chunk("third");
    assert_eq!(b.take_batch().as_deref(), Some("first second third"));
}

#[test]
fn empty_window_emits_nothing() {
    let mut b = ChunkBatcher::new();
    assert_eq!(b.take_batch(), None);
}

#[test]
fn taking_a_batch_resets_the_window() {
    let mut b = ChunkBatcher::new();
    b.push_chunk("one");
    assert_eq!(b.take_batch().as_deref(), Some("one"));
    assert_eq!(b.take_batch(), None);
    b.push_chunk("two");
    assert_eq!(b.take_batch().as_deref(), Some("two"));
}
