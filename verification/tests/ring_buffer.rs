use scope_core::ring_buffer::RingBuffer;

#[test]
fn push_and_get() {
    let mut rb = RingBuffer::new(4);
    rb.push(1.0f32);
    rb.push(2.0);
    rb.push(3.0);
    assert_eq!(rb.len(), 3);
    assert_eq!(rb.get(0), Some(1.0));
    assert_eq!(rb.get(2), Some(3.0));
    assert_eq!(rb.get(3), None);
}

#[test]
fn wraparound() {
    let mut rb = RingBuffer::new(3);
    rb.push(1.0f32);
    rb.push(2.0);
    rb.push(3.0);
    rb.push(4.0); // overwrites 1.0
    assert_eq!(rb.len(), 3);
    assert_eq!(rb.get(0), Some(2.0));
    assert_eq!(rb.get(1), Some(3.0));
    assert_eq!(rb.get(2), Some(4.0));
}

#[test]
fn read_window() {
    let mut rb = RingBuffer::new(8);
    for i in 0..8 {
        rb.push(i as f32);
    }
    let mut buf = [0.0f32; 4];
    let n = rb.read_window(2, &mut buf);
    assert_eq!(n, 4);
    assert_eq!(buf, [2.0, 3.0, 4.0, 5.0]);
}

#[test]
fn iter_order() {
    let mut rb = RingBuffer::new(4);
    for i in 0..6 {
        rb.push(i as f32);
    }
    let mut vals: Vec<f32> = Vec::new();
    let mut it = rb.iter();
    while let Some(v) = it.next() {
        vals.push(v);
    }
    assert_eq!(vals, vec![2.0, 3.0, 4.0, 5.0]);
}

#[test]
fn newest_samples_are_kept_in_order() {
    // Pushing 10 samples into a buffer of 4 keeps the last 4, oldest first.
    let mut rb = RingBuffer::new(4);
    let samples: Vec<u32> = (0..10).collect();
    rb.push_slice(&samples);
    assert_eq!(rb.len(), 4);
    for k in 0..4 {
        assert_eq!(rb.get(k), Some(6 + k as u32));
    }
    assert_eq!(rb.get(4), None);
    assert_eq!(rb.capacity(), 4);
}

#[test]
fn push_slice_equals_pushes() {
    let mut a = RingBuffer::new(5);
    let mut b = RingBuffer::new(5);
    let samples = [7i64, -3, 12, 0, 9, 4, 4, -1];
    a.push_slice(&samples);
    for &s in samples.iter() {
        b.push(s);
    }
    for k in 0..6 {
        assert_eq!(a.get(k), b.get(k));
    }
    assert_eq!(a.len(), b.len());
}

#[test]
fn clear_empties_but_keeps_capacity() {
    let mut rb = RingBuffer::new(3);
    rb.push(1u8);
    rb.push(2);
    rb.push(3);
    rb.push(4);
    rb.clear();
    assert!(rb.is_empty());
    assert_eq!(rb.len(), 0);
    assert_eq!(rb.get(0), None);
    assert_eq!(rb.capacity(), 3);
    rb.push(9);
    assert_eq!(rb.get(0), Some(9));
    assert_eq!(rb.len(), 1);
}

#[test]
fn read_window_stops_at_newest_sample() {
    let mut rb = RingBuffer::new(6);
    for i in 0..9u16 {
        rb.push(i);
    }
    // Contents: 3..=8.
    let mut out = [100u16; 5];
    let n = rb.read_window(3, &mut out);
    assert_eq!(n, 3);
    assert_eq!(out, [6, 7, 8, 100, 100]);
    let mut out2 = [1u16; 2];
    assert_eq!(rb.read_window(6, &mut out2), 0);
    assert_eq!(out2, [1, 1]);
    assert_eq!(rb.read_window(usize::MAX, &mut out2), 0);
}

#[test]
fn iterator_size_hint_counts_down() {
    let mut rb = RingBuffer::new(3);
    rb.push('a');
    rb.push('b');
    let mut it = rb.iter();
    assert_eq!(it.size_hint(), (2, Some(2)));
    assert_eq!(it.next(), Some('a'));
    assert_eq!(it.size_hint(), (1, Some(1)));
    assert_eq!(it.next(), Some('b'));
    assert_eq!(it.next(), None);
    assert_eq!(it.size_hint(), (0, Some(0)));
}

#[test]
fn zero_capacity_holds_nothing() {
    let rb: RingBuffer<f32> = RingBuffer::new(0);
    assert!(rb.is_empty());
    assert_eq!(rb.get(0), None);
}
