use evalraz::sampler::{position, sample};
use rand::{Rng, SeedableRng, StdRng};

#[test]
fn position_is_the_draw_modulo_the_slots() {
    // 4 elements and 2 more since: 7 slots.
    assert_eq!(position(17, 4, 2), 3);
    assert_eq!(position(6, 4, 2), 6);
    assert_eq!(position(7, 4, 2), 0);
}

#[test]
fn position_in_an_empty_sequence_is_zero() {
    assert_eq!(position(0, 0, 0), 0);
    assert_eq!(position(12345, 0, 0), 0);
    assert_eq!(position(usize::MAX, 0, 0), 0);
}

#[test]
fn position_stays_within_the_sequence() {
    for draw in [0usize, 1, 9, 10, 11, 1000, usize::MAX - 1, usize::MAX] {
        for size in [0usize, 1, 5, 99] {
            for offset in [0usize, 1, 10] {
                assert!(position(draw, size, offset) <= size + offset);
            }
        }
    }
}

#[test]
fn position_may_be_the_last_slot() {
    assert_eq!(position(10, 7, 3), 10);
    assert_eq!(position(usize::MAX - 1, usize::MAX - 1, 0), usize::MAX - 1);
}

#[test]
fn sample_reduces_the_next_draw() {
    let mut sampled: StdRng = StdRng::from_seed(&[7usize][..]);
    let mut raw: StdRng = StdRng::from_seed(&[7usize][..]);
    for offset in 0..50usize {
        let draw = raw.gen::<usize>();
        assert_eq!(sample(&mut sampled, 20, offset), draw % (20 + 1 + offset));
    }
}

#[test]
fn sample_takes_one_draw_each_time() {
    let mut sampled: StdRng = StdRng::from_seed(&[3usize][..]);
    let mut raw: StdRng = StdRng::from_seed(&[3usize][..]);
    sample(&mut sampled, 5, 0);
    sample(&mut sampled, 5, 1);
    raw.gen::<usize>();
    raw.gen::<usize>();
    assert_eq!(sampled.gen::<usize>(), raw.gen::<usize>());
}

#[test]
fn same_seed_replays_the_same_positions() {
    for seed in [0usize, 1, 42, usize::MAX] {
        let mut first: StdRng = StdRng::from_seed(&[seed][..]);
        let mut second: StdRng = StdRng::from_seed(&[seed][..]);
        for offset in 0..200usize {
            let size = 13 + (offset % 7);
            assert_eq!(sample(&mut first, size, offset), sample(&mut second, size, offset));
        }
    }
}

#[test]
fn sampled_positions_stay_within_the_sequence() {
    let mut rng: StdRng = StdRng::from_seed(&[11usize][..]);
    for offset in 0..500usize {
        assert!(sample(&mut rng, 0, offset) <= offset);
    }
    for offset in 0..500usize {
        assert!(sample(&mut rng, 1000, offset) <= 1000 + offset);
    }
}
