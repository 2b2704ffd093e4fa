use std::path::PathBuf;

use hyprlaser::hypr_ipc::{
    pack, parse_cursorpos, socket_path, spawn, unpack, CursorPos, Poller, SocketError, CURSORPOS,
};
use hyprlaser::text::{join_path, parse_i32, white};
use hyprlaser::trail::TrailBuffer;

fn start(poll_hz: u32, probe: &str, trail: Option<&mut TrailBuffer>) -> Result<Poller, String> {
    spawn(poll_hz, &Ok("/run/sock".to_string()), &Ok(probe.to_string()), 7, trail)
}

fn bits(x: i32, y: i32) -> (u32, u32) {
    ((x as f32).to_bits(), (y as f32).to_bits())
}

#[test]
fn parse_with_space() {
    assert_eq!(parse_cursorpos("4916, 976"), Some((4916, 976)));
}

#[test]
fn parse_without_space() {
    assert_eq!(parse_cursorpos("4916,976"), Some((4916, 976)));
}

#[test]
fn parse_with_trailing_newline() {
    assert_eq!(parse_cursorpos("4916, 976\n"), Some((4916, 976)));
}

#[test]
fn parse_negative() {
    assert_eq!(parse_cursorpos("-100, -200"), Some((-100, -200)));
}

#[test]
fn parse_rejects_junk() {
    assert_eq!(parse_cursorpos("not a coord"), None);
    assert_eq!(parse_cursorpos(""), None);
    assert_eq!(parse_cursorpos("1,"), None);
}

#[test]
fn pack_round_trip_positive() {
    let mut cp = CursorPos::new();
    cp.store(4916, 976);
    assert_eq!(cp.get(), Some((4916, 976)));
}

#[test]
fn pack_round_trip_negative() {
    let mut cp = CursorPos::new();
    cp.store(-1, -2);
    assert_eq!(cp.get(), Some((-1, -2)));
}

#[test]
fn pack_round_trip_mixed() {
    let mut cp = CursorPos::new();
    cp.store(-1000, 1000);
    assert_eq!(cp.get(), Some((-1000, 1000)));
}

#[test]
fn get_before_first_sample_returns_none() {
    let cp = CursorPos::new();
    assert_eq!(cp.get(), None);
}

#[test]
fn words_hold_x_above_y() {
    assert_eq!(pack(1, 2), 0x0000_0001_0000_0002);
    assert_eq!(pack(-1, -2), 0xffff_ffff_ffff_fffe);
    assert_eq!(unpack(0x8000_0000_7fff_ffff), (i32::MIN, i32::MAX));
    for x in [i32::MIN, -1, 0, 1, i32::MAX] {
        for y in [i32::MIN, -1, 0, 1, i32::MAX] {
            assert_eq!(unpack(pack(x, y)), (x, y));
        }
    }
}

#[test]
fn replies_are_read_as_std_reads_them() {
    let replies = [
        "+1,+2", "-0,0", "1,2,3", "1 2", ",", " , ", "1,,2", "--1,2", "1,-", "1,+", "0x1,2",
        "2147483647,-2147483648", "2147483648,0", "0,-2147483649", "99999999999999999999999,1",
        "00000000000000000000001,2", "\u{a0}7\u{3000},\u{2009}8\u{85}", "1,2\0", "\u{661},2",
        "1, 2 3", "\t1\t,\r\n2\n",
    ];
    for reply in replies {
        let expected = reply.trim().split_once(',').and_then(|(x, y)| {
            let x: i32 = x.trim().parse().ok()?;
            let y: i32 = y.trim().parse().ok()?;
            Some((x, y))
        });
        assert_eq!(parse_cursorpos(reply), expected, "{reply:?}");
    }
}

#[test]
fn white_space_is_that_of_unicode() {
    for n in 0..=0x10ffffu32 {
        if let Some(c) = char::from_u32(n) {
            assert_eq!(white(c), c.is_whitespace(), "{n:#x}");
        }
    }
}

#[test]
fn integers_are_read_from_a_range() {
    let chars: Vec<char> = "ab-120cd".chars().collect();
    assert_eq!(parse_i32(&chars, 2, 6), Some(-120));
    assert_eq!(parse_i32(&chars, 2, 3), None);
    assert_eq!(parse_i32(&chars, 2, 7), None);
    assert_eq!(parse_i32(&chars, 4, 4), None);
}

#[test]
fn paths_join_as_std_joins_them() {
    for base in ["", "/", "/run/user/1000", "/run/", "rel"] {
        for part in ["", "hypr", "/abs", "a/b", ".socket.sock"] {
            let expected = PathBuf::from(base).join(part);
            assert_eq!(
                join_path(base.to_string(), part),
                expected.to_str().unwrap(),
                "{base:?} {part:?}"
            );
        }
    }
}

#[test]
fn socket_is_under_the_runtime_directory() {
    let dir = Some("/run/user/1000".to_string());
    let sig = Some("abc_123".to_string());
    assert_eq!(
        socket_path(dir.clone(), sig.clone()),
        Ok("/run/user/1000/hypr/abc_123/.socket.sock".to_string())
    );
    assert_eq!(socket_path(None, sig), Err(SocketError::NoRuntimeDir));
    assert_eq!(socket_path(None, None), Err(SocketError::NoRuntimeDir));
    assert_eq!(socket_path(dir, None), Err(SocketError::NoSignature));
    assert!(SocketError::NoRuntimeDir.message().starts_with("XDG_RUNTIME_DIR is not set;"));
    assert!(SocketError::NoSignature
        .message()
        .starts_with("HYPRLAND_INSTANCE_SIGNATURE is not set;"));
}

fn poller() -> Poller {
    start(120, "10, 20", None).unwrap()
}

#[test]
fn poller_starts_from_its_probe() {
    assert_eq!(CURSORPOS, "cursorpos");
    let mut trail = TrailBuffer::new(100);
    let p = start(120, "10, 20", Some(&mut trail)).unwrap();
    assert_eq!(trail.samples().len(), 1);
    assert_eq!(trail.samples()[0].pos, bits(10, 20));
    assert_eq!(trail.samples()[0].timestamp, 7);
    assert_eq!(p.position(), Some((10, 20)));
    assert_eq!(p.consecutive_errors(), 0);
}

#[test]
fn poller_that_cannot_start_says_why() {
    let mut trail = TrailBuffer::new(100);
    let socket = Ok("/run/sock".to_string());
    let told = |r: Result<Poller, String>| r.err().unwrap();
    assert_eq!(
        told(start(120, "say \"hi\"\n", Some(&mut trail))),
        format!(
            "couldn't parse Hyprland cursorpos reply (expected 'X, Y', got {:?})",
            "say \"hi\"\n"
        )
    );
    assert_eq!(
        told(start(120, "", Some(&mut trail))),
        "couldn't parse Hyprland cursorpos reply (expected 'X, Y', got \"\")"
    );
    assert_eq!(
        told(spawn(120, &socket, &Err("timed out".to_string()), 7, Some(&mut trail))),
        "failed to read Hyprland socket /run/sock: timed out"
    );
    assert_eq!(
        told(spawn(
            120,
            &Err(SocketError::NoSignature),
            &Ok("1, 1".to_string()),
            7,
            Some(&mut trail)
        )),
        "HYPRLAND_INSTANCE_SIGNATURE is not set; are you running inside Hyprland?"
    );
    assert!(trail.samples().is_empty());
}

#[test]
fn rounds_fill_the_trail() {
    let mut p = poller();
    let mut trail = TrailBuffer::new(100);
    assert!(p.round(None, 1, Some(&mut trail)).warn);
    assert!(!p.round(Some("junk"), 2, Some(&mut trail)).warn);
    assert!(trail.samples().is_empty());
    assert_eq!(p.position(), Some((10, 20)));
    let step = p.round(Some("-3, 16777217"), 3, Some(&mut trail));
    assert_eq!(step.recovered, Some(2));
    assert!(step.moved);
    p.round(None, 4, Some(&mut trail));
    p.round(Some("-3, 16777217"), 5, Some(&mut trail));
    p.round(Some("4, 4"), 6, None);
    assert_eq!(p.position(), Some((4, 4)));
    assert_eq!(trail.samples().len(), 1);
    assert_eq!(trail.samples()[0].pos, bits(-3, 16777217));
    assert_eq!(trail.samples()[0].timestamp, 5);
}

#[test]
fn poller_keeps_its_rate() {
    // 1_000_000 / 120 = 8333 microseconds.
    let p = poller();
    assert_eq!(p.pause(0), Some(8_333_000));
    assert_eq!(p.pause(8_333_000), Some(0));
    assert_eq!(p.pause(8_333_001), None);
    assert_eq!(start(0, "1,1", None).unwrap().pause(0), Some(1_000_000_000));
    assert_eq!(start(3_000_000, "1,1", None).unwrap().pause(0), Some(0));
}

#[test]
fn poller_takes_positions() {
    let mut p = poller();
    let rest = p.on_reply("10, 20");
    assert_eq!(rest.sample, Some((10, 20)));
    assert!(!rest.moved && !rest.warn && rest.recovered.is_none());
    let step = p.on_reply("11, 20");
    assert_eq!(step.sample, Some((11, 20)));
    assert!(step.moved);
    assert_eq!(p.position(), Some((11, 20)));
}

#[test]
fn poller_warns_of_the_first_failure_and_every_sixtieth() {
    let mut p = poller();
    let mut warned: Vec<u32> = Vec::new();
    for n in 1..=180u32 {
        let step = if n % 2 == 0 { p.on_failure() } else { p.on_reply("junk") };
        assert_eq!(step.sample, None);
        if step.warn {
            warned.push(n);
        }
    }
    assert_eq!(warned, vec![1, 60, 120, 180]);
    assert_eq!(p.consecutive_errors(), 180);
    assert_eq!(p.position(), Some((10, 20)));
    let step = p.on_reply("5,6");
    assert_eq!(step.recovered, Some(180));
    assert_eq!(p.consecutive_errors(), 0);
    assert_eq!(p.on_reply("5,6").recovered, None);
}
