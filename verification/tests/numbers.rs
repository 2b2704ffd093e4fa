use hyprlaser::float_bits::{clamp, finite, from_integer, lt, max, min, nan, rank_of, same};
use hyprlaser::scale::{physical_extent, Scale};

fn values() -> Vec<f32> {
    let mut out: Vec<f32> = Vec::new();
    for x in [
        0.0f32,
        1.0,
        0.04045,
        1e-45,
        f32::MIN_POSITIVE,
        f32::EPSILON,
        f32::MAX,
        f32::INFINITY,
        f32::NAN,
        1920.5,
        3.25,
    ] {
        out.push(x);
        out.push(-x);
    }
    out
}

#[test]
fn comparisons_are_those_of_floats() {
    for a in values() {
        assert_eq!(nan(a.to_bits()), a.is_nan());
        assert_eq!(finite(a.to_bits()), a.is_finite());
        for b in values() {
            assert_eq!(lt(a.to_bits(), b.to_bits()), a < b, "{a} {b}");
            assert_eq!(same(a.to_bits(), b.to_bits()), a == b, "{a} {b}");
        }
    }
}

#[test]
fn extremes_are_those_of_floats() {
    for a in values() {
        for b in values() {
            let lo = f32::from_bits(min(a.to_bits(), b.to_bits()));
            let hi = f32::from_bits(max(a.to_bits(), b.to_bits()));
            assert!(lo == a.min(b) || lo.is_nan() && a.min(b).is_nan(), "{a} {b}");
            assert!(hi == a.max(b) || hi.is_nan() && a.max(b).is_nan(), "{a} {b}");
        }
        let held = f32::from_bits(clamp(a.to_bits(), 0.0f32.to_bits(), 1.0f32.to_bits()));
        assert!(held == a.clamp(0.0, 1.0) || held.is_nan() && a.is_nan());
    }
}

#[test]
fn ranks_go_up_with_numbers() {
    assert_eq!(rank_of(0.0f32.to_bits()), 0);
    assert_eq!(rank_of((-0.0f32).to_bits()), 0);
    assert_eq!(rank_of(1e-45f32.to_bits()), 1);
    assert_eq!(rank_of((-1e-45f32).to_bits()), -1);
}

#[test]
fn integers_become_the_nearest_float() {
    let mut x: i32 = 1;
    loop {
        for near in -3..=3 {
            for v in [x.wrapping_add(near), x.wrapping_add(near).wrapping_neg()] {
                assert_eq!(from_integer(v), (v as f32).to_bits(), "{v}");
            }
        }
        if x > i32::MAX / 2 {
            break;
        }
        x *= 2;
    }
    let mut v: i32 = 12345;
    for _ in 0..20_000 {
        v = v.wrapping_mul(1_103_515_245).wrapping_add(12345);
        assert_eq!(from_integer(v), (v as f32).to_bits(), "{v}");
        assert_eq!(from_integer(v >> 6), ((v >> 6) as f32).to_bits(), "{v}");
    }
    for v in [0, i32::MIN, i32::MAX] {
        assert_eq!(from_integer(v), (v as f32).to_bits(), "{v}");
    }
}

fn in_doubles(length: u32, scale: Scale) -> u32 {
    let s = match scale {
        Scale::Whole(factor) => factor as f64,
        Scale::Fraction(n) => n as f64 / 120.0,
    };
    ((length as f64 * s).round() as u32).max(1)
}

#[test]
fn extents_are_those_of_double_precision() {
    let lengths = [
        0u32, 1, 2, 3, 5, 7, 15, 60, 719, 1079, 1080, 1366, 1440, 1920, 2160, 2561, 5120, 65_535,
        1_000_003, 0x7fff_ffff, 0x8000_0001, u32::MAX,
    ];
    for length in lengths {
        for n in (0..1000u32).chain([4_000_003, 0x7fff_ffff, u32::MAX - 1, u32::MAX]) {
            let scale = Scale::Fraction(n);
            assert_eq!(physical_extent(length, scale), in_doubles(length, scale), "{length} {n}");
        }
        for factor in [i32::MIN, -1, 0, 1, 2, 3, 1000, i32::MAX] {
            let scale = Scale::Whole(factor);
            assert_eq!(physical_extent(length, scale), in_doubles(length, scale));
        }
    }
}

#[test]
fn halves_round_as_doubles_do() {
    for length in 0..2000u32 {
        for n in [132u32, 150, 156, 180, 204, 228, 61, 119, 121, 7] {
            let scale = Scale::Fraction(n);
            assert_eq!(physical_extent(length, scale), in_doubles(length, scale), "{length} {n}");
        }
    }
}

#[test]
fn extents_have_known_values() {
    assert_eq!(physical_extent(1920, Scale::Fraction(180)), 2880);
    assert_eq!(physical_extent(1366, Scale::Fraction(150)), 1708);
    assert_eq!(physical_extent(1920, Scale::Whole(2)), 3840);
    assert_eq!(physical_extent(0, Scale::Whole(2)), 1);
    assert_eq!(physical_extent(1920, Scale::Whole(-1)), 1);
    assert_eq!(physical_extent(1920, Scale::Fraction(0)), 1);
    assert_eq!(physical_extent(u32::MAX, Scale::Whole(2)), u32::MAX);
}

#[test]
fn scales_compare_as_numbers() {
    assert!(Scale::Whole(2).same(&Scale::Fraction(240)));
    assert!(!Scale::Whole(2).same(&Scale::Fraction(241)));
    assert_eq!(Scale::Fraction(240).whole(), Some(2));
    assert_eq!(Scale::Fraction(180).whole(), None);
    assert_eq!(Scale::Whole(-3).whole(), Some(-3));
    assert_eq!(Scale::Fraction(180).numerator(), 180);
    assert_eq!(Scale::Whole(-3).numerator(), -360);
}
