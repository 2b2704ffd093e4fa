use hyprlaser::config::{srgb_segment, Cli, ConfigError, LaserConfig, Segment};

fn cli(color: &str) -> Cli {
    Cli {
        color: color.into(),
        dot_radius: 5.0f32.to_bits(),
        tail_half_width: 0.5f32.to_bits(),
        trail_ms: 500,
        keep_cursor: false,
    }
}

fn components(cfg: &LaserConfig) -> [f32; 3] {
    [
        f32::from_bits(cfg.color.0),
        f32::from_bits(cfg.color.1),
        f32::from_bits(cfg.color.2),
    ]
}

#[test]
fn parse_hex_color() {
    let cfg = LaserConfig::from_cli(&cli("#ff0000")).unwrap();
    let color = components(&cfg);
    assert!((color[0] - 1.0).abs() < 1e-3);
    assert!(color[1] < 1e-3);
    assert!(color[2] < 1e-3);
}

#[test]
fn parse_named_color() {
    let cfg = LaserConfig::from_cli(&cli("red")).unwrap();
    assert!((components(&cfg)[0] - 1.0).abs() < 1e-3);
}

#[test]
fn rejects_invalid_color() {
    assert!(LaserConfig::from_cli(&cli("not-a-color")).is_err());
}

#[test]
fn rejects_zero_radius() {
    let mut c = cli("red");
    c.dot_radius = 0.0f32.to_bits();
    assert!(LaserConfig::from_cli(&c).is_err());
}

#[test]
fn rejects_zero_trail() {
    let mut c = cli("red");
    c.trail_ms = 0;
    assert!(LaserConfig::from_cli(&c).is_err());
}

#[test]
fn accepts_every_documented_syntax() {
    for color in ["#ff2030", "ff2030", "#FF2030", "rgb(255, 32, 48)", " #ff2030 "] {
        let cfg = LaserConfig::from_cli(&cli(color)).unwrap();
        assert_eq!(components(&cfg), [1.0, 32.0 / 255.0, 48.0 / 255.0], "{color}");
    }
    let crimson = LaserConfig::from_cli(&cli("crimson")).unwrap();
    assert_eq!(components(&crimson), [220.0 / 255.0, 20.0 / 255.0, 60.0 / 255.0]);
    let lime = LaserConfig::from_cli(&cli("hsl(120, 100%, 50%)")).unwrap();
    assert_eq!(components(&lime), [0.0, 1.0, 0.0]);
}

#[test]
fn hexadecimal_digits_are_255ths() {
    for n in 0..=255u8 {
        let cfg = LaserConfig::from_cli(&cli(&format!("#{n:02x}00{n:02X}80"))).unwrap();
        let share = n as f32 / 255.0;
        assert_eq!(components(&cfg), [share, 0.0, share]);
    }
    for n in 0..16u8 {
        let cfg = LaserConfig::from_cli(&cli(&format!("{n:x}0{n:X}"))).unwrap();
        let share = (17 * n) as f32 / 255.0;
        assert_eq!(components(&cfg), [share, 0.0, share]);
    }
    assert!(LaserConfig::from_cli(&cli("#12345")).is_err());
    assert!(LaserConfig::from_cli(&cli("#12345g")).is_err());
}

#[test]
fn colors_outside_the_gamut_are_clamped() {
    for color in ["oklch(0.9 0.4 30)", "lab(100 125 125)", "rgb(from red calc(r * 9) g b)"] {
        let cfg = LaserConfig::from_cli(&cli(color)).unwrap();
        for c in components(&cfg) {
            assert!((0.0..=1.0).contains(&c), "{color}");
        }
    }
}

#[test]
fn numbers_may_be_negative() {
    for (color, expected) in [
        ("hsl(-120, 100%, 50%)", [0.0, 0.0, 1.0]),
        ("hsl(-240deg, 100%, 50%)", [0.0, 1.0, 0.0]),
        ("hsl(-400grad, 100%, 50%)", [1.0, 0.0, 0.0]),
        ("rgb(-5, 255, -0)", [0.0, 1.0, 0.0]),
        ("rgb(2550e-1, 0, 1e-60)", [1.0, 0.0, 0.0]),
    ] {
        let cfg = LaserConfig::from_cli(&cli(color)).unwrap();
        assert_eq!(components(&cfg), expected, "{color}");
    }
}

#[test]
fn odd_numbers_still_give_components() {
    for color in [
        "rgb(-0, 0, 0)",
        "rgb(-5, 1e30, 0.5)",
        "hsl(1e38turn, 50%, 50%)",
        "hsl(-1e38turn, 100%, 25%)",
        "hwb(90 1e30 1e30)",
        "hsv(3.1rad, 100%, 100%)",
    ] {
        let cfg = LaserConfig::from_cli(&cli(color)).unwrap();
        for c in components(&cfg) {
            assert!((0.0..=1.0).contains(&c), "{color}");
        }
    }
    for color in ["rgb(nan, 0, 0)", "rgb(inf, 0, 0)", "hsl(1e400, 1%, 1%)"] {
        assert!(LaserConfig::from_cli(&cli(color)).is_err(), "{color}");
    }
}

#[test]
fn reads_text_of_any_script() {
    for color in ["hsl(1é€,1%,1%)", "é", "rgb(é,0,0)", "("] {
        assert!(LaserConfig::from_cli(&cli(color)).is_err(), "{color}");
    }
}

#[test]
fn color_error_gives_the_reason() {
    match LaserConfig::from_cli(&cli("#xyz")) {
        Err(ConfigError::Color(reason)) => assert_eq!(reason, "invalid hex format"),
        other => panic!("{other:?}"),
    }
}

#[test]
fn refusals_are_explained() {
    let told = |e: ConfigError| e.message("a \"b\"", "-0.5");
    assert_eq!(
        told(ConfigError::Color("why".to_string())),
        format!("invalid --color {:?}: why", "a \"b\"")
    );
    assert_eq!(told(ConfigError::DotRadius), "--dot-radius must be > 0, got -0.5");
    assert_eq!(told(ConfigError::TailHalfWidth), "--tail-half-width must be >= 0, got -0.5");
    assert_eq!(told(ConfigError::TrailMs), "--trail-ms must be > 0");
}

#[test]
fn color_is_looked_at_first() {
    let mut c = cli("#xyz");
    c.dot_radius = 0;
    c.trail_ms = 0;
    assert!(matches!(LaserConfig::from_cli(&c), Err(ConfigError::Color(_))));
    c.color = "red".to_string();
    c.tail_half_width = f32::NAN.to_bits();
    assert!(matches!(LaserConfig::from_cli(&c), Err(ConfigError::DotRadius)));
    c.dot_radius = 1.0f32.to_bits();
    assert!(matches!(LaserConfig::from_cli(&c), Err(ConfigError::TailHalfWidth)));
    c.tail_half_width = 0;
    assert!(matches!(LaserConfig::from_cli(&c), Err(ConfigError::TrailMs)));
}

#[test]
fn sizes_are_checked() {
    for bad in [0.0f32, -0.0, -1.0, f32::NAN, f32::INFINITY, f32::NEG_INFINITY] {
        let mut c = cli("red");
        c.dot_radius = bad.to_bits();
        assert!(matches!(LaserConfig::from_cli(&c), Err(ConfigError::DotRadius)), "{bad}");
    }
    for bad in [-f32::MIN_POSITIVE, -1.0f32, f32::NAN, f32::INFINITY] {
        let mut c = cli("red");
        c.tail_half_width = bad.to_bits();
        assert!(matches!(LaserConfig::from_cli(&c), Err(ConfigError::TailHalfWidth)), "{bad}");
    }
    for good in [0.0f32, -0.0, 0.5, 1e30] {
        let mut c = cli("red");
        c.tail_half_width = good.to_bits();
        assert!(LaserConfig::from_cli(&c).is_ok(), "{good}");
    }
}

#[test]
fn accepted_values_are_kept() {
    let mut c = cli("red");
    c.trail_ms = u64::MAX;
    let cfg = LaserConfig::from_cli(&c).unwrap();
    assert_eq!(f32::from_bits(cfg.dot_radius), 5.0);
    assert_eq!(f32::from_bits(cfg.tail_half_width), 0.5);
    assert_eq!(cfg.trail_duration, u64::MAX as u128 * 1_000_000);
    assert!(cfg.hide_cursor);
    c.keep_cursor = true;
    assert!(!LaserConfig::from_cli(&c).unwrap().hide_cursor);
}

#[test]
fn color_is_taken_as_read() {
    let cfg = LaserConfig::with_color(&cli("anything"), Ok((1, 2, 3, 4))).unwrap();
    assert_eq!(cfg.color, (1, 2, 3));
    match LaserConfig::with_color(&cli("anything"), Err("why".to_string())) {
        Err(ConfigError::Color(reason)) => assert_eq!(reason, "why"),
        other => panic!("{other:?}"),
    }
}

#[test]
fn transfer_function_is_linear_near_black() {
    for (c, segment) in [
        (0.0f32, Segment::Linear),
        (-1.0, Segment::Linear),
        (0.04045, Segment::Linear),
        (0.040450003, Segment::Power),
        (1.0, Segment::Power),
        (f32::NAN, Segment::Power),
    ] {
        assert_eq!(srgb_segment(c.to_bits()), segment, "{c}");
        assert_eq!(c <= 0.04045, segment == Segment::Linear);
    }
}
