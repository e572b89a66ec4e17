use virgil::accumulate::Accumulator;

#[test]
fn short_chunks_are_buffered() {
    let mut acc = Accumulator::new(4);
    let windows = acc.push(&vec![1, 2, 3]);
    assert!(windows.is_empty());
    assert_eq!(acc.buffered(), 3);
}

#[test]
fn window_emitted_with_exact_remainder() {
    let mut acc = Accumulator::new(4);
    assert!(acc.push(&vec![1, 2, 3]).is_empty());
    let windows = acc.push(&vec![4, 5]);
    assert_eq!(windows, vec![vec![1, 2, 3, 4]]);
    assert_eq!(acc.buffered(), 1);
}

#[test]
fn exact_window_leaves_empty_buffer() {
    let mut acc = Accumulator::new(3);
    let windows = acc.push(&vec![7, 8, 9]);
    assert_eq!(windows, vec![vec![7, 8, 9]]);
    assert_eq!(acc.buffered(), 0);
}

#[test]
fn one_chunk_can_fill_several_windows() {
    let mut acc = Accumulator::new(2);
    let windows = acc.push(&vec![1, 2, 3, 4, 5]);
    assert_eq!(windows, vec![vec![1, 2], vec![3, 4]]);
    assert_eq!(acc.buffered(), 1);
}

#[test]
fn empty_chunk_changes_nothing() {
    let mut acc = Accumulator::new(4);
    assert!(acc.push(&vec![1]).is_empty());
    assert!(acc.push(&Vec::new()).is_empty());
    assert_eq!(acc.buffered(), 1);
}

#[test]
fn accumulation_is_exact_over_many_chunks() {
    // Concatenated windows plus the final remainder must equal the
    // concatenated input, with every window exactly the window size.
    let window_size = 5;
    let chunks: Vec<Vec<i32>> = vec![
        vec![1, 2],
        vec![],
        vec![3, 4, 5, 6, 7, 8, 9],
        vec![10],
        vec![11, 12, 13, 14, 15, 16, 17, 18],
    ];
    let mut acc = Accumulator::new(window_size);
    let mut emitted: Vec<i32> = Vec::new();
    for chunk in &chunks {
        for window in acc.push(chunk) {
            assert_eq!(window.len(), window_size);
            emitted.extend_from_slice(&window);
        }
    }
    let all_in: Vec<i32> = chunks.iter().flatten().copied().collect();
    let mut reassembled = emitted.clone();
    reassembled.extend_from_slice(&all_in[all_in.len() - acc.buffered()..]);
    assert_eq!(reassembled, all_in);
    assert_eq!(emitted.len() + acc.buffered(), all_in.len());
}
