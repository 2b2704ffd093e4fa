use hyprlaser::trail::{TrailBuffer, MAX_SAMPLES};

const MS: u128 = 1_000_000;

fn at(x: f32, y: f32) -> (u32, u32) {
    (x.to_bits(), y.to_bits())
}

fn positions(b: &TrailBuffer) -> Vec<(f32, f32)> {
    b.samples()
        .iter()
        .map(|s| (f32::from_bits(s.pos.0), f32::from_bits(s.pos.1)))
        .collect()
}

#[test]
fn push_into_empty() {
    let mut b = TrailBuffer::new(500 * MS);
    b.push(at(10.0, 20.0), 7);
    assert_eq!(b.samples().len(), 1);
    assert_eq!(positions(&b)[0], (10.0, 20.0));
}

#[test]
fn coalesce_same_position() {
    let mut b = TrailBuffer::new(500 * MS);
    let now: u128 = 1_000 * MS;
    b.push(at(10.0, 20.0), now);
    b.push(at(10.0, 20.0), now + 10 * MS);
    b.push(at(10.0, 20.0), now + 20 * MS);
    assert_eq!(b.samples().len(), 1);
}

#[test]
fn distinct_positions_stack() {
    let mut b = TrailBuffer::new(500 * MS);
    let now: u128 = 1_000 * MS;
    b.push(at(10.0, 20.0), now);
    b.push(at(11.0, 20.0), now);
    b.push(at(12.0, 20.0), now);
    assert_eq!(b.samples().len(), 3);
    // Newest at index 0.
    assert_eq!(positions(&b)[0], (12.0, 20.0));
    assert_eq!(positions(&b)[2], (10.0, 20.0));
}

#[test]
fn ages_out_old_samples() {
    let mut b = TrailBuffer::new(100 * MS);
    let t0: u128 = 1_000 * MS;
    b.push(at(1.0, 0.0), t0);
    b.push(at(2.0, 0.0), t0 + 50 * MS);
    // Push a fresh sample 500 ms later — older ones should be gone.
    b.push(at(3.0, 0.0), t0 + 500 * MS);
    assert_eq!(b.samples().len(), 1);
    assert_eq!(positions(&b)[0], (3.0, 0.0));
}

#[test]
fn caps_at_max_samples() {
    let mut b = TrailBuffer::new(10_000 * MS);
    let t0: u128 = 1_000 * MS;
    for i in 0..(MAX_SAMPLES + 5) {
        b.push(at(i as f32, 0.0), t0 + i as u128 * MS);
    }
    assert_eq!(b.samples().len(), MAX_SAMPLES);
}

#[test]
fn capacity_drops_the_oldest() {
    let mut b = TrailBuffer::new(10_000 * MS);
    for i in 0..40u32 {
        b.push(at(i as f32, 0.0), i as u128);
    }
    let seen = positions(&b);
    assert_eq!(seen[0], (39.0, 0.0));
    assert_eq!(seen[31], (8.0, 0.0));
}

#[test]
fn duration_is_kept() {
    let mut b = TrailBuffer::new(123);
    b.push(at(0.0, 0.0), 9);
    assert_eq!(b.duration(), 123);
}

#[test]
fn sample_lasts_exactly_its_time() {
    let mut b = TrailBuffer::new(100);
    b.push(at(1.0, 0.0), 1_000);
    b.push(at(2.0, 0.0), 1_100);
    assert_eq!(positions(&b), vec![(2.0, 0.0), (1.0, 0.0)]);
    b.push(at(3.0, 0.0), 1_101);
    assert_eq!(positions(&b), vec![(3.0, 0.0), (2.0, 0.0)]);
}

#[test]
fn resting_cursor_refreshes_the_head_and_ages_the_rest() {
    let mut b = TrailBuffer::new(100);
    b.push(at(1.0, 0.0), 0);
    b.push(at(2.0, 0.0), 50);
    b.push(at(2.0, 0.0), 120);
    assert_eq!(positions(&b), vec![(2.0, 0.0)]);
    assert_eq!(b.samples()[0].timestamp, 120);
}

#[test]
fn the_two_zeros_are_one_position() {
    let mut b = TrailBuffer::new(100);
    b.push(at(0.0, 5.0), 1);
    b.push(at(-0.0, 5.0), 2);
    assert_eq!(b.samples().len(), 1);
    assert_eq!(b.samples()[0].pos, at(0.0, 5.0));
    assert_eq!(b.samples()[0].timestamp, 2);
}

#[test]
fn what_is_no_number_never_coalesces() {
    let mut b = TrailBuffer::new(100);
    b.push(at(f32::NAN, 0.0), 1);
    b.push(at(f32::NAN, 0.0), 2);
    assert_eq!(b.samples().len(), 2);
}

#[test]
fn a_clock_that_goes_back_ages_nothing() {
    let mut b = TrailBuffer::new(10);
    b.push(at(1.0, 0.0), 1_000);
    b.push(at(2.0, 0.0), 0);
    assert_eq!(b.samples().len(), 2);
    assert_eq!(b.samples()[1].age(0), 0);
    assert_eq!(b.samples()[1].age(1_007), 7);
}

#[test]
fn trail_goes_back_in_time() {
    let mut b = TrailBuffer::new(1_000);
    for (i, x) in [1.0f32, 1.0, 2.0, 3.0, 3.0, 1.0].iter().enumerate() {
        b.push(at(*x, 0.0), 10 * i as u128);
    }
    let times: Vec<u128> = b.samples().iter().map(|s| s.timestamp).collect();
    assert_eq!(times, vec![50, 40, 20, 10]);
    assert_eq!(positions(&b), vec![(1.0, 0.0), (3.0, 0.0), (2.0, 0.0), (1.0, 0.0)]);
}
