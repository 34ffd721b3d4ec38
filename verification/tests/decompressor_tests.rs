use badapple::ba::decompressor::{decompress, read_u32, TrieNode};

#[test]
fn read_u32_big_endian() {
    assert_eq!(read_u32(&[0x01, 0x02]), 258);
    assert_eq!(read_u32(&[0x12, 0x34, 0x56, 0x78]), 0x1234_5678);
    assert_eq!(read_u32(&[]), 0);
    // only the last four bytes survive
    assert_eq!(read_u32(&[0x01, 0x02, 0x03, 0x04, 0x05]), 0x0203_0405);
}

#[test]
fn trie_insert_accepts_bits() {
    let mut t = TrieNode::new();
    t.insert(&[0, 1, 1], 7);
    t.insert(&[0, 1, 1], 9);
    t.insert(&[], 3);
}

fn header(n_frames: u16, s_buf: u32, n_keys: u8) -> Vec<u8> {
    let mut v = vec![(n_frames >> 8) as u8, n_frames as u8];
    v.extend_from_slice(&s_buf.to_be_bytes());
    v.push(n_keys);
    v
}

#[test]
fn decompress_two_symbols() {
    // 'A' = bit 0, 'B' = bit 1; payload A B A = bits 0,1,0
    let mut d = header(1, 3, 2);
    d.extend_from_slice(&[b'A', 1, 0b0, b'B', 1, 0b1, 0b010]);
    let r = decompress(&d).unwrap();
    assert_eq!(r.n_frames, 1);
    assert_eq!(r.buf, b"ABA".to_vec());
    assert_eq!(r.n_keys, 2);
    assert_eq!(r.remain, 5);
}

#[test]
fn decompress_prefix_code_roundtrip() {
    // a = 0, b = 10, c = 11 (code bits stored low bit first)
    let mut d = header(7, 3, 3);
    d.extend_from_slice(&[b'a', 1, 0b0, b'b', 2, 0b01, b'c', 2, 0b11]);
    // message b c a: bits 1,0 1,1 0 -> low bit first 0b01101
    d.push(0b0_1101);
    let r = decompress(&d).unwrap();
    assert_eq!(r.n_frames, 7);
    assert_eq!(r.buf, b"bca".to_vec());
    assert_eq!(r.n_keys, 3);
    // five of the eight payload bits were used
    assert_eq!(r.remain, 3);
}

#[test]
fn decompress_shortest_code_wins() {
    // x = 1, y = 1 0: the walk stops at the shorter word
    let mut d = header(0, 2, 2);
    d.extend_from_slice(&[b'x', 1, 0b1, b'y', 2, 0b01, 0b11]);
    let r = decompress(&d).unwrap();
    assert_eq!(r.buf, b"xx".to_vec());
}

#[test]
fn decompress_later_key_replaces_earlier() {
    let mut d = header(0, 1, 2);
    d.extend_from_slice(&[b'p', 1, 0, b'q', 1, 0, 0]);
    assert_eq!(decompress(&d).unwrap().buf, b"q".to_vec());
}

#[test]
fn decompress_empty_buffer() {
    let d = header(2, 0, 0);
    let r = decompress(&d).unwrap();
    assert_eq!(r.n_frames, 2);
    assert!(r.buf.is_empty());
}

#[test]
fn decompress_rejects_short_header() {
    assert!(decompress(&[0, 1, 0, 0, 0]).is_none());
}

#[test]
fn decompress_rejects_truncated_key() {
    let mut d = header(1, 1, 1);
    d.push(b'A');
    assert!(decompress(&d).is_none());
    let mut d = header(1, 1, 1);
    d.extend_from_slice(&[b'A', 9, 0xff]);
    assert!(decompress(&d).is_none());
}

#[test]
fn decompress_rejects_missing_payload() {
    // 9 one-bit symbols but only 8 payload bits
    let mut d = header(1, 9, 1);
    d.extend_from_slice(&[b'A', 1, 0, 0]);
    assert!(decompress(&d).is_none());
}

#[test]
fn decompress_rejects_unknown_code() {
    // only the word 0 0 is known; the payload starts with bit 1
    let mut d = header(1, 1, 1);
    d.extend_from_slice(&[b'A', 2, 0b00, 0b1]);
    assert!(decompress(&d).is_none());
}

#[test]
fn decompress_whole_format_roundtrip() {
    // code words: x = 1, y = 0 1, z = 0 0 (prefix free); message z x y x z
    let mut d = header(300, 5, 3);
    d.extend_from_slice(&[b'x', 1, 0b1, b'y', 2, 0b10, b'z', 2, 0b00]);
    // bits 0 0 | 1 | 0 1 | 1 | 0 0, low bit first, then a padding byte
    d.push(0b0011_0100);
    d.push(0xff);
    let r = decompress(&d).unwrap();
    assert_eq!(r.n_frames, 300);
    assert_eq!(r.buf, b"zxyxz".to_vec());
    assert_eq!(r.n_keys, 3);
    assert_eq!(r.remain, 16 - 8);
}
