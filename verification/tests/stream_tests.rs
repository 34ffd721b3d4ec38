use badapple::ba::stream::Stream;

#[test]
fn stream_reads_low_bit_first() {
    let data = [0b1011_0010u8];
    let mut s = Stream::new(&data);
    let mut bits = Vec::new();
    while s.has_next() {
        bits.push(s.next_byte());
    }
    assert_eq!(bits, vec![0, 1, 0, 0, 1, 1, 0, 1]);
}

#[test]
fn stream_remain_counts_unread_bits() {
    let data = [0xffu8, 0x00];
    let mut s = Stream::new(&data);
    assert_eq!(s.remain(), 16);
    for _ in 0..9 {
        s.next_byte();
    }
    assert_eq!(s.remain(), 7);
    assert!(s.has_next());
    for _ in 0..7 {
        assert_eq!(s.next_byte(), 0);
    }
    assert_eq!(s.remain(), 0);
    assert!(!s.has_next());
}

#[test]
fn stream_empty() {
    let data: [u8; 0] = [];
    let s = Stream::new(&data);
    assert!(!s.has_next());
    assert_eq!(s.remain(), 0);
}

#[test]
fn stream_remain_after_k_reads() {
    let data = [0x5au8, 0xa5, 0x0f];
    for k in 0..=24usize {
        let mut s = Stream::new(&data);
        for _ in 0..k {
            s.next_byte();
        }
        assert_eq!(s.remain(), 24 - k);
        assert_eq!(s.has_next(), s.remain() > 0);
    }
}
