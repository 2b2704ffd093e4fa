use hyprlaser::config::LaserConfig;
use hyprlaser::render::{
    pick_alpha_mode, pick_format, trail_bounds, AlphaMode, Bounds, Format, Metrics, Renderer,
    TrailPoint, TRAIL_SAMPLES,
};
use hyprlaser::scale::Scale;

fn bits(x: f32) -> u32 {
    x.to_bits()
}

fn point(x: f32, y: f32, age: f32) -> TrailPoint {
    TrailPoint { x: bits(x), y: bits(y), age: bits(age) }
}

fn floats(b: Bounds) -> [f32; 4] {
    [
        f32::from_bits(b.min.0),
        f32::from_bits(b.min.1),
        f32::from_bits(b.max.0),
        f32::from_bits(b.max.1),
    ]
}

fn renderer() -> Renderer {
    let config = LaserConfig {
        color: (1, 2, 3),
        dot_radius: bits(5.0),
        tail_half_width: bits(0.5),
        trail_duration: 500_000_000,
        hide_cursor: true,
    };
    Renderer::new(800, 600, (10, -20), Scale::Whole(1), &config, (bits(1.0), bits(0.25), 0))
}

fn metrics() -> Metrics {
    Metrics {
        resolution: (bits(800.0), bits(600.0)),
        dot_radius: bits(7.5),
        tail_half_width: bits(0.75),
        padded: Bounds { min: (bits(-8.0), bits(-9.0)), max: (bits(8.0), bits(9.0)) },
    }
}

#[test]
fn srgb_format_is_preferred() {
    let other = Format::Other;
    let srgb = Format::Bgra8UnormSrgb;
    assert_eq!(pick_format(&[]), None);
    assert_eq!(pick_format(&[other, other]), Some(0));
    assert_eq!(pick_format(&[other, srgb, srgb]), Some(1));
}

#[test]
fn alpha_is_premultiplied_if_it_can_be() {
    let pre = AlphaMode::PreMultiplied;
    let post = AlphaMode::PostMultiplied;
    assert_eq!(pick_alpha_mode(&[AlphaMode::Other, post, pre]), Some(pre));
    assert_eq!(pick_alpha_mode(&[AlphaMode::Other, post]), Some(post));
    assert_eq!(pick_alpha_mode(&[AlphaMode::Other]), None);
    assert_eq!(pick_alpha_mode(&[]), None);
}

#[test]
fn bounds_hold_the_points() {
    let points = [point(3.0, -4.0, 0.0), point(-1.0, 9.0, 0.0), point(2.0, f32::NAN, 0.0)];
    assert_eq!(floats(trail_bounds(&points)), [-1.0, -4.0, 3.0, 9.0]);
}

#[test]
fn bounds_of_nothing_reject_everything() {
    let inf = f32::INFINITY;
    assert_eq!(floats(trail_bounds(&[])), [inf, inf, -inf, -inf]);
}

#[test]
fn bounds_pass_over_what_is_not_drawn() {
    let mut points = vec![point(0.0, 0.0, 0.0); TRAIL_SAMPLES];
    points.push(point(100.0, 100.0, 0.0));
    assert_eq!(floats(trail_bounds(&points)), [0.0, 0.0, 0.0, 0.0]);
}

#[test]
fn uniform_carries_the_frame() {
    let points = [point(1.0, 2.0, 0.25), point(3.0, 4.0, 7.0), point(5.0, 6.0, -1.0)];
    let u = renderer().build_uniform(&points, &metrics());
    assert_eq!(u.trail_len, 3);
    assert_eq!(u.color, (bits(1.0), bits(0.25), 0, bits(1.0)));
    assert_eq!(u.edge_softness, bits(1.0));
    assert_eq!(u.dot_radius, bits(7.5));
    assert_eq!(u.tail_half_width, bits(0.75));
    assert_eq!(u.resolution, (bits(800.0), bits(600.0)));
    assert_eq!(floats(u.trail_bounds), [-8.0, -9.0, 8.0, 9.0]);
    let ages: Vec<f32> = u.trail.iter().map(|p| f32::from_bits(p.age)).collect();
    assert_eq!(&ages[..4], &[0.25, 1.0, 0.0, 0.0]);
    assert_eq!((u.trail[1].x, u.trail[1].y), (bits(3.0), bits(4.0)));
    assert_eq!((u.trail[3].x, u.trail[3].y), (0, 0));
}

#[test]
fn uniform_takes_the_newest_entries() {
    let points: Vec<TrailPoint> = (0..40).map(|i| point(i as f32, 0.0, 0.5)).collect();
    let u = renderer().build_uniform(&points, &metrics());
    assert_eq!(u.trail_len, 32);
    assert_eq!(u.trail[31].x, bits(31.0));
}

#[test]
fn uniform_without_points_draws_nothing() {
    let inf = f32::INFINITY;
    let u = renderer().build_uniform(&[], &metrics());
    assert_eq!(u.trail_len, 0);
    assert_eq!(floats(u.trail_bounds), [inf, inf, -inf, -inf]);
}

#[test]
fn words_stand_at_their_offsets() {
    let points: Vec<TrailPoint> = (0..32).map(|i| point(i as f32, 100.0, 0.5)).collect();
    let words = renderer().build_uniform(&points, &metrics()).words();
    assert_eq!(4 * words.len(), 576);
    assert_eq!(words[8 / 4], bits(7.5));
    assert_eq!(words[12 / 4], bits(1.0));
    assert_eq!(words[16 / 4], bits(0.75));
    assert_eq!(words[20 / 4], 0);
    assert_eq!(words[24 / 4], 32);
    assert_eq!(words[28 / 4], 0);
    assert_eq!(words[36 / 4], bits(0.25));
    assert_eq!(words[48 / 4], bits(-8.0));
    assert_eq!(words[60 / 4], bits(9.0));
    assert_eq!(words[(64 + 16 * 5) / 4], bits(5.0));
    assert_eq!(words[(68 + 16 * 5) / 4], bits(100.0));
    assert_eq!(words[(72 + 16 * 31) / 4], bits(0.5));
    assert_eq!(words[143], 0);
}

#[test]
fn bytes_are_those_of_the_words() {
    let u = renderer().build_uniform(&[point(1.5, -2.5, 0.1)], &metrics());
    let expected: Vec<u8> = u.words().iter().flat_map(|w| w.to_ne_bytes()).collect();
    assert_eq!(u.bytes(), expected);
    assert_eq!(u.bytes().len(), 576);
}

#[test]
fn renderer_has_a_buffer_from_the_start() {
    let r = renderer();
    assert_eq!((r.width, r.height), (800, 600));
    assert_eq!(r.output_origin, (10, -20));
    let config = LaserConfig {
        color: (0, 0, 0),
        dot_radius: 0,
        tail_half_width: 0,
        trail_duration: 1,
        hide_cursor: false,
    };
    let tiny = Renderer::new(0, 0, (0, 0), Scale::Whole(1), &config, (0, 0, 0));
    assert_eq!((tiny.width, tiny.height), (1, 1));
}

#[test]
fn only_another_size_is_news() {
    let mut r = renderer();
    assert!(!r.resize(800, 600));
    assert!(!r.resize(0, 10));
    assert!(!r.resize(10, 0));
    assert_eq!((r.width, r.height), (800, 600));
    assert!(r.resize(801, 600));
    assert!(r.resize(801, 601));
    assert_eq!((r.width, r.height), (801, 601));
}

#[test]
fn renderer_follows_its_output() {
    let mut r = renderer();
    r.set_output_origin((7, 8));
    r.set_scale(Scale::Fraction(150));
    assert_eq!(r.output_origin, (7, 8));
    assert_eq!(r.scale, Scale::Fraction(150));
    assert_eq!((r.width, r.height), (800, 600));
}
