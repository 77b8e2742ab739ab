use exam_monitor_core::stress::{
    frame_interval_ms, parse_unsigned, synthetic_frame_fits, synthetic_frame_pixels, synthetic_jpeg_frame,
    ArgsError, ArgsOutcome, StressConfig,
};

fn args(list: &[&str]) -> Vec<String> {
    list.iter().map(|s| s.to_string()).collect()
}

#[test]
fn defaults_apply_without_arguments() {
    match StressConfig::from_args(&args(&[])).ok().unwrap() {
        ArgsOutcome::Run(c) => {
            assert_eq!(c.host, "127.0.0.1");
            assert_eq!(c.port, 1234);
            assert_eq!(c.clients, 20);
            assert_eq!(c.fps, 5);
            assert_eq!(c.seconds, 60);
            assert_eq!((c.width, c.height, c.quality), (720, 405, 60));
            assert_eq!(c.code, "");
        }
        ArgsOutcome::Help => panic!("no help was asked for"),
    }
}

#[test]
fn flags_override_defaults() {
    let parsed = StressConfig::from_args(&args(&[
        "--host", "10.0.0.1", "--port", "4000", "--clients", "+3", "--code", "7GK4", "--quality",
        "90",
    ]));
    match parsed.ok().unwrap() {
        ArgsOutcome::Run(c) => {
            assert_eq!(c.host, "10.0.0.1");
            assert_eq!(c.port, 4000);
            assert_eq!(c.clients, 3);
            assert_eq!(c.code, "7GK4");
            assert_eq!(c.quality, 90);
        }
        ArgsOutcome::Help => panic!("no help was asked for"),
    }
}

#[test]
fn bad_command_lines_are_explained() {
    let msg = |list: &[&str]| StressConfig::from_args(&args(list)).err().unwrap().message();
    assert_eq!(msg(&["--port", "70000"]), "--port must be a u16");
    assert_eq!(msg(&["--fps", "x"]), "--fps must be a number");
    assert_eq!(msg(&["--seconds"]), "missing value after --seconds");
    assert_eq!(msg(&["--verbose"]), "unknown argument: --verbose");
    assert_eq!(msg(&["--clients", "0"]), "--clients must be greater than zero");
    assert_eq!(msg(&["--fps", "0"]), "--fps must be greater than zero");
    assert_eq!(msg(&["--width", "0"]), "--width and --height must be greater than zero");
    assert!(matches!(
        StressConfig::from_args(&args(&["--quality", "256"])),
        Err(ArgsError::InvalidNumber(_))
    ));
}

#[test]
fn help_stops_reading() {
    assert!(matches!(
        StressConfig::from_args(&args(&["-h", "--bogus"])),
        Ok(ArgsOutcome::Help)
    ));
}

#[test]
fn numbers_parse_like_std() {
    assert_eq!(parse_unsigned("42", 255), Some(42));
    assert_eq!(parse_unsigned("+7", 255), Some(7));
    assert_eq!(parse_unsigned("256", 255), None);
    assert_eq!(parse_unsigned("", 255), None);
    assert_eq!(parse_unsigned("+", 255), None);
    assert_eq!(parse_unsigned("-1", 255), None);
    assert_eq!(parse_unsigned(" 1", 255), None);
    assert_eq!(parse_unsigned("18446744073709551615", u64::MAX), Some(u64::MAX));
    assert_eq!(parse_unsigned("18446744073709551616", u64::MAX), None);
}

#[test]
fn synthetic_frames_have_marker_and_pattern() {
    assert!(synthetic_frame_fits(1, 0, 100, 50));
    assert!(!synthetic_frame_fits(1, 0, 0, 50));
    let pixels = synthetic_frame_pixels(1, 0, 100, 50);
    assert_eq!(pixels.len(), 100 * 50 * 3);
    // seed = 37; marker 80x36 at x0 = 0, y0 = min(23 % 50, 14) = 14.
    let at = |x: usize, y: usize| &pixels[(y * 100 + x) * 3..(y * 100 + x) * 3 + 3];
    assert_eq!(at(0, 14), &[255, 255, 255]);
    assert_eq!(at(79, 49), &[255, 255, 255]);
    assert_eq!(at(1, 15), &[31, 0, 220]);
    // Outside: block = 37 % 8 = 5, base 180 (x < 25), red 180 + (85 + 37) % 70.
    assert_eq!(at(0, 0), &[180 + 52, 50 + 37, 70 + 74]);
    // x = 99: block = (2 + 37) % 8 = 7, base 40, red 40 + (119 + 37) % 70.
    assert_eq!(at(99, 0), &[56, 56, 144]);
    let jpeg = synthetic_jpeg_frame(1, 0, 100, 50, 60).unwrap();
    assert_eq!(&jpeg[..2], &[0xff, 0xd8]);
}

#[test]
fn frames_are_paced_by_the_rate() {
    assert_eq!(frame_interval_ms(5), 200);
    assert_eq!(frame_interval_ms(3), 333);
    assert_eq!(frame_interval_ms(0), 1000);
    assert_eq!(frame_interval_ms(2000), 0);
}
