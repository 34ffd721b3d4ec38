use badapple::util::rand::{next_state, output, rand, srand, Rng};

#[test]
fn rand_sequence_from_seed_one() {
    let mut r = Rng::new();
    assert_eq!(rand(&mut r), 41);
    assert_eq!(rand(&mut r), 18467);
    assert_eq!(rand(&mut r), 6334);
}

#[test]
fn srand_restarts_sequence() {
    let mut r = Rng::new();
    rand(&mut r);
    srand(&mut r, 1);
    assert_eq!(rand(&mut r), 41);
    let mut a = Rng::new();
    let mut b = Rng::new();
    srand(&mut a, 12345);
    srand(&mut b, 12345);
    for _ in 0..10 {
        let x = rand(&mut a);
        assert_eq!(x, rand(&mut b));
        assert!(x < 0x8000);
    }
}

#[test]
fn lcg_step_wraps() {
    assert_eq!(next_state(1), 2745024);
    assert_eq!(next_state(2745024), 3357800067);
    assert_eq!(output(3357800067), 18467);
    assert_eq!(output(u32::MAX), 0x7fff);
}
