use tabs::ring::SampleRing;

#[test]
fn drain_returns_push_order() {
    // Pushing exactly the capacity of known-distinct values returns them in
    // push order, oldest first.
    let cap = 16usize;
    let mut ring = SampleRing::new(cap);
    for k in 0..cap {
        ring.push(100 + k as i16);
    }
    let mut out: Vec<i16> = Vec::new();
    ring.drain_into(&mut out);
    let expected: Vec<i16> = (0..cap).map(|k| 100 + k as i16).collect();
    assert_eq!(out, expected);
}

#[test]
fn overflow_evicts_oldest() {
    // Pushing capacity + k values evicts exactly the first k.
    let cap = 16usize;
    let extra = 5usize;
    let mut ring = SampleRing::new(cap);
    for k in 0..cap + extra {
        ring.push(100 + k as i16);
    }
    let mut out: Vec<i16> = Vec::new();
    ring.drain_into(&mut out);
    let expected: Vec<i16> = (extra..cap + extra).map(|k| 100 + k as i16).collect();
    assert_eq!(out, expected);
    for k in 0..extra {
        assert!(!out.contains(&(100 + k as i16)));
    }
}

#[test]
fn partial_fill_drains_what_was_pushed() {
    let mut ring = SampleRing::new(8);
    ring.push(7);
    ring.push(-3);
    assert_eq!(ring.len(), 2);
    assert_eq!(ring.capacity(), 8);
    let mut out: Vec<i16> = Vec::new();
    ring.drain_into(&mut out);
    assert_eq!(out, vec![7, -3]);
}

#[test]
fn repeated_wraps_keep_newest_window() {
    let cap = 4usize;
    let mut ring = SampleRing::new(cap);
    for k in 0..23i16 {
        ring.push(k);
    }
    let mut out: Vec<i16> = Vec::new();
    ring.drain_into(&mut out);
    assert_eq!(out, vec![19, 20, 21, 22]);
}
