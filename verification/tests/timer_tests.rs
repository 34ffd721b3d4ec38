use badapple::krnl::timer::Timer;

#[test]
fn timer_add_uses_first_free_slot() {
    let mut t: Timer<u8> = Timer::new();
    assert!(t.add(0, 1).is_none());
    let a = t.add(5, 1).unwrap();
    let b = t.add(3, 2).unwrap();
    assert_eq!(a.index(), 0);
    assert_eq!(b.index(), 1);
    assert!(t.remove(a));
    let c = t.add(7, 3).unwrap();
    assert_eq!(c.index(), 0);
    let e = t.entry(0).unwrap();
    assert_eq!((e.interval, e.trigger_count, e.count_down, e.f), (7, 0, 7, 3));
}

#[test]
fn timer_table_fills_up() {
    let mut t: Timer<u8> = Timer::new();
    for i in 0..16 {
        assert_eq!(t.add(1, i).unwrap().index(), i as usize);
    }
    assert!(t.add(1, 99).is_none());
}

#[test]
fn timer_remove_twice() {
    let mut t: Timer<u8> = Timer::new();
    let a = t.add(2, 1).unwrap();
    let a_again = t.add(2, 1).unwrap();
    assert!(t.remove(a));
    // the slot is free again; a descriptor for it removes nothing more
    let _ = a_again;
    let mut u: Timer<u8> = Timer::new();
    let d = u.add(4, 4).unwrap();
    let i = d.index();
    assert!(u.remove(d));
    assert!(u.entry(i).is_none());
}

#[test]
fn timer_add_then_remove_restores_table() {
    let mut t: Timer<u8> = Timer::new();
    t.add(2, 1).unwrap();
    let d = t.add(9, 2).unwrap();
    assert!(t.remove(d));
    assert!(t.entry(1).is_none());
    assert_eq!(t.entry(0).unwrap().interval, 2);
}

#[test]
fn timer_fires_every_interval() {
    let mut t: Timer<u8> = Timer::new();
    t.add(3, 42).unwrap();
    let mut fired = Vec::new();
    for tick in 1..=9u64 {
        t.tick();
        for i in 0..16 {
            if let Some((d, count, f)) = t.countdown(i) {
                fired.push((tick, d.index(), count, f));
            }
        }
    }
    assert_eq!(t.ticks(), 9);
    assert_eq!(fired, vec![(3, 0, 1, 42), (6, 0, 2, 42), (9, 0, 3, 42)]);
    assert_eq!(t.entry(0).unwrap().count_down, 3);
}

#[test]
fn timer_countdown_of_empty_slot() {
    let mut t: Timer<u8> = Timer::new();
    assert!(t.countdown(4).is_none());
    assert_eq!(t.ticks(), 0);
}

#[test]
fn timer_count_after_any_ticks() {
    for k in 0..20u64 {
        let mut t: Timer<u8> = Timer::new();
        t.add(4, 1).unwrap();
        let mut fired = Vec::new();
        for _ in 0..k {
            t.tick();
            if let Some((_, count, _)) = t.countdown(0) {
                fired.push(count);
            }
        }
        let e = t.entry(0).unwrap();
        assert_eq!(e.trigger_count, k / 4);
        assert_eq!(e.count_down, 4 - k % 4);
        assert_eq!(fired, (1..=k / 4).collect::<Vec<u64>>());
    }
}

#[test]
fn timer_fire_count_over_ticks() {
    let mut t: Timer<u8> = Timer::new();
    t.add(3, 5).unwrap();
    let mut counts = Vec::new();
    for _ in 0..10 {
        t.tick();
        if let Some((_, count, _)) = t.countdown(0) {
            counts.push(count);
        }
    }
    // 10 / 3 = 3 firings, handing over 1, 2, 3
    assert_eq!(counts, vec![1, 2, 3]);
}
