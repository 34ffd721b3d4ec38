use badapple::ba::decompressor::decompress;
use badapple::ba::play::{
    countdown, frame_interval, on_countdown, on_frame, show_frame, start, CountdownStep, FrameStep,
};
use badapple::krnl::timer::{Timer, TimerDescriptor};
use badapple::ba::video::{artify, Video};
use badapple::krnl::console::{Attribute, Console, ScreenChar, MAX_COLUMN, SIZE};
use badapple::krnl::port::Port;

/// Compresses `buf` with a fixed 8-bit code word per distinct byte.
fn compress(buf: &[u8], n_frames: u16) -> Vec<u8> {
    let mut values: Vec<u8> = Vec::new();
    for b in buf {
        if !values.contains(b) {
            values.push(*b);
        }
    }
    let mut d = vec![(n_frames >> 8) as u8, n_frames as u8];
    d.extend_from_slice(&(buf.len() as u32).to_be_bytes());
    d.push(values.len() as u8);
    for (i, v) in values.iter().enumerate() {
        d.extend_from_slice(&[*v, 8, i as u8]);
    }
    for b in buf {
        d.push(values.iter().position(|v| v == b).unwrap() as u8);
    }
    d
}

/// One bit per cell, row by row, low bit first: set for blank cells.
fn frame_bits(filled: &dyn Fn(usize, usize) -> bool) -> Vec<u8> {
    let mut bytes = vec![0u8; SIZE / 8];
    for i in 0..SIZE {
        if !filled(i / MAX_COLUMN, i % MAX_COLUMN) {
            bytes[i / 8] |= 1 << (i % 8);
        }
    }
    bytes
}

fn block(x: usize, y: usize) -> bool {
    (1..=3).contains(&x) && (1..=3).contains(&y)
}

fn blank_screen() -> Vec<ScreenChar> {
    vec![ScreenChar::new(b' ', Attribute::default()); SIZE]
}

fn at(s: &[ScreenChar], x: usize, y: usize) -> u8 {
    s[x * MAX_COLUMN + y].ch
}

#[test]
fn artify_outlines_a_block() {
    let mut frame = blank_screen();
    for x in 1..=3 {
        for y in 1..=3 {
            frame[x * MAX_COLUMN + y].ch = b'%';
        }
    }
    artify(&mut frame);
    assert_eq!(at(&frame, 1, 1), b'\'');
    assert_eq!(at(&frame, 1, 2), b'v');
    assert_eq!(at(&frame, 1, 3), b'`');
    assert_eq!(at(&frame, 2, 1), b'\\');
    assert_eq!(at(&frame, 2, 2), b'%');
    assert_eq!(at(&frame, 2, 3), b'/');
    assert_eq!(at(&frame, 3, 1), b'\'');
    assert_eq!(at(&frame, 3, 2), b'^');
    assert_eq!(at(&frame, 3, 3), b'`');
    assert_eq!(at(&frame, 0, 0), b' ');
    assert_eq!(frame[MAX_COLUMN + 1].attrib, Attribute(0x07));
}

#[test]
fn artify_keeps_full_and_empty_frames() {
    let mut full = vec![ScreenChar::new(b'%', Attribute::default()); SIZE];
    artify(&mut full);
    assert!(full.iter().all(|c| c.ch == b'%'));
    let mut empty = blank_screen();
    artify(&mut empty);
    assert!(empty.iter().all(|c| c.ch == b' '));
}

#[test]
fn artify_single_cell_uses_dots() {
    let mut frame = blank_screen();
    frame[5 * MAX_COLUMN + 5].ch = b'%';
    artify(&mut frame);
    // all four sides blank: the last one, right, with a dot
    assert_eq!(at(&frame, 5, 5), b'`');
}

#[test]
fn video_plays_frames_in_order() {
    let mut buf = frame_bits(&block);
    buf.extend(frame_bits(&|_, _| true));
    let vdata = compress(&buf, 2);
    let mut v = Video::new();
    assert!(!v.has_next());
    assert!(v.initialize(&vdata));
    assert!(v.has_next());
    let mut c = Console::new(Port::new(0x3d4), 0, 7, blank_screen());
    let w = v.next(&mut c);
    assert_eq!(w.last(), Some(&(Port(0x80), 0)));
    assert_eq!(c.cursor(), (0, 0));
    assert_eq!(at(c.screen(), 2, 2), b'%');
    assert_eq!(at(c.screen(), 1, 2), b'v');
    assert_eq!(at(c.screen(), 0, 0), b' ');
    assert_eq!(v.progress(), 100);
    assert!(v.has_next());
    v.next(&mut c);
    assert!(c.screen().iter().all(|s| s.ch == b'%'));
    assert!(!v.has_next());
    assert_eq!(v.progress(), 150);
}

#[test]
fn video_rejects_corrupted_data() {
    let mut v = Video::new();
    assert!(!v.initialize(&[1, 2, 3]));
    assert!(!v.has_next());
    // two frames announced, one frame of bits present
    let buf = frame_bits(&block);
    assert!(!v.initialize(&compress(&buf, 2)));
    assert!(!v.has_next());
}

#[test]
fn play_countdown_and_frames() {
    assert_eq!(countdown(0), Some(3));
    assert_eq!(countdown(2), Some(1));
    assert_eq!(countdown(3), None);
    assert_eq!(frame_interval(), 2);
    let vdata = compress(&frame_bits(&block), 1);
    let mut v = Video::new();
    assert!(v.initialize(&vdata));
    let mut c = Console::new(Port::new(0x3d4), 0, 0, blank_screen());
    let (progress, w) = show_frame(&mut v, &mut c).unwrap();
    assert_eq!(progress, 200);
    assert_eq!(w.len(), 5);
    assert_eq!(at(c.screen(), 3, 2), b'^');
    assert!(show_frame(&mut v, &mut c).is_none());
}

/// Ticks the timer until slot `i` fires; gives its descriptor and count.
fn fire(t: &mut Timer<u8>, i: usize) -> (TimerDescriptor, u64) {
    loop {
        t.tick();
        if let Some((d, count, _)) = t.countdown(i) {
            return (d, count);
        }
    }
}

#[test]
fn play_timer_steps() {
    let mut t: Timer<u8> = Timer::new();
    let d = start(&mut t, 1).unwrap();
    assert_eq!(d.index(), 0);
    assert_eq!(t.entry(0).unwrap().interval, 18);
    // the first two firings announce the seconds to go
    for expected in [2u64, 1] {
        let (d, count) = fire(&mut t, 0);
        match on_countdown(&mut t, d, count, 2) {
            CountdownStep::Announce(s) => assert_eq!(s, expected),
            CountdownStep::Started(_) => panic!("started too early"),
        }
    }
    // the third ends the countdown and adds the frame timer in its slot
    let (d, count) = fire(&mut t, 0);
    assert_eq!(count, 3);
    let frame = match on_countdown(&mut t, d, count, 2) {
        CountdownStep::Started(nd) => nd.unwrap(),
        CountdownStep::Announce(_) => panic!("countdown did not end"),
    };
    assert_eq!(frame.index(), 0);
    let e = t.entry(0).unwrap();
    assert_eq!((e.interval, e.count_down, e.f), (2, 2, 2));

    let vdata = compress(&frame_bits(&block), 1);
    let mut v = Video::new();
    assert!(v.initialize(&vdata));
    let mut c = Console::new(Port::new(0x3d4), 0, 0, blank_screen());
    let (d, _) = fire(&mut t, 0);
    match on_frame(&mut t, d, &mut v, &mut c, 3) {
        FrameStep::Shown(p, _) => assert_eq!(p, 200),
        FrameStep::Finished(..) => panic!("no frame shown"),
    }
    assert_eq!(at(c.screen(), 1, 2), b'v');
    let (d, _) = fire(&mut t, 0);
    match on_frame(&mut t, d, &mut v, &mut c, 3) {
        FrameStep::Finished(w, nd) => {
            assert_eq!(w.last(), Some(&(Port(0x80), 0)));
            let e = t.entry(nd.unwrap().index()).unwrap();
            assert_eq!((e.interval, e.f), (1, 3));
        },
        FrameStep::Shown(..) => panic!("shown past the end"),
    }
    assert!(c.screen().iter().all(|s| s.ch == b' '));
}

#[test]
fn video_initialize_from_decompressed() {
    let vdata = compress(&frame_bits(&block), 1);
    let d = decompress(&vdata).unwrap();
    let mut v = Video::new();
    assert!(v.initialize_from(d));
    assert!(v.has_next());
}
