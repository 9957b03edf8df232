use rust_shell::circular_buffer::CircularBuffer;
use rust_shell::error::ShellError;

fn bytes(s: &str) -> Vec<u8> {
    s.as_bytes().to_vec()
}

fn collect_forward(ring: &CircularBuffer<Vec<u8>>) -> Vec<Vec<u8>> {
    let mut out = Vec::new();
    let mut it = ring.iter();
    while let Some(e) = it.next() {
        out.push(e.clone());
    }
    out
}

fn collect_reverse(ring: &CircularBuffer<Vec<u8>>) -> Vec<Vec<u8>> {
    let mut out = Vec::new();
    let mut it = ring.iter_rev();
    while let Some(e) = it.next() {
        out.push(e.clone());
    }
    out
}

#[test]
fn new_rejects_zero_capacity() {
    let r = CircularBuffer::<Vec<u8>>::new(0);
    match r {
        Err(e) => assert_eq!(e, ShellError::InvalidCapacity),
        Ok(_) => panic!("capacity zero must be rejected"),
    }
}

#[test]
fn ring_below_capacity_keeps_all_in_order() {
    let mut ring = CircularBuffer::new(10).unwrap();
    ring.push(bytes("one"));
    ring.push(bytes("two"));
    ring.push(bytes("three"));
    assert_eq!(
        collect_forward(&ring),
        vec![bytes("one"), bytes("two"), bytes("three")]
    );
}

#[test]
fn ring_at_capacity_holds_last_pushes() {
    // Capacity 3, five pushes: exactly the last three survive, in order.
    let mut ring = CircularBuffer::new(3).unwrap();
    for s in ["a", "b", "c", "d", "e"] {
        ring.push(bytes(s));
    }
    assert_eq!(
        collect_forward(&ring),
        vec![bytes("c"), bytes("d"), bytes("e")]
    );
}

#[test]
fn ring_capacity_one_keeps_newest_only() {
    let mut ring = CircularBuffer::new(1).unwrap();
    ring.push(bytes("first"));
    ring.push(bytes("second"));
    assert_eq!(collect_forward(&ring), vec![bytes("second")]);
    assert_eq!(ring.head().unwrap(), &bytes("second"));
    assert_eq!(ring.tail().unwrap(), &bytes("second"));
}

#[test]
fn forward_and_reverse_traversals_are_exact_reverses() {
    let mut ring = CircularBuffer::new(4).unwrap();
    for s in ["p", "q", "r", "s", "t", "u"] {
        ring.push(bytes(s));
    }
    let forward = collect_forward(&ring);
    let mut backward = collect_reverse(&ring);
    backward.reverse();
    assert_eq!(forward, backward);
}

#[test]
fn traversals_of_empty_ring_yield_nothing() {
    let ring = CircularBuffer::<Vec<u8>>::new(5).unwrap();
    assert!(collect_forward(&ring).is_empty());
    assert!(collect_reverse(&ring).is_empty());
}

#[test]
fn tail_is_always_the_just_pushed_value() {
    let mut ring = CircularBuffer::new(2).unwrap();
    for s in ["x", "y", "z", "w"] {
        ring.push(bytes(s));
        assert_eq!(ring.tail().unwrap(), &bytes(s));
    }
}

#[test]
fn head_and_tail_are_none_exactly_when_empty() {
    let mut ring = CircularBuffer::new(3).unwrap();
    assert!(ring.head().is_none());
    assert!(ring.tail().is_none());
    ring.push(bytes("only"));
    assert_eq!(ring.head().unwrap(), &bytes("only"));
    assert_eq!(ring.tail().unwrap(), &bytes("only"));
}

#[test]
fn head_is_oldest_after_wrap() {
    let mut ring = CircularBuffer::new(3).unwrap();
    for s in ["1", "2", "3", "4"] {
        ring.push(bytes(s));
    }
    assert_eq!(ring.head().unwrap(), &bytes("2"));
    assert_eq!(ring.tail().unwrap(), &bytes("4"));
}

#[test]
fn capacity_is_reported() {
    let ring = CircularBuffer::<Vec<u8>>::new(7).unwrap();
    assert_eq!(ring.capacity(), 7);
}

#[test]
fn restarted_traversal_sees_same_entries() {
    let mut ring = CircularBuffer::new(3).unwrap();
    ring.push(bytes("m"));
    ring.push(bytes("n"));
    let first = collect_forward(&ring);
    let second = collect_forward(&ring);
    assert_eq!(first, second);
}
