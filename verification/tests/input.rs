use lightherder::input::{argv, capture_args, draw, file_args, frame_bytes, Input, Pattern};

const SIZE: (u32, u32) = (64, 64);

fn rgb(pixels: &[u8], size: (u32, u32), x: u32, y: u32) -> [u8; 3] {
    let i = ((y * size.0 + x) * 4) as usize;
    [pixels[i], pixels[i + 1], pixels[i + 2]]
}

fn at(argv: &[String], arg: &str) -> usize {
    argv.iter()
        .position(|a| a == arg)
        .unwrap_or_else(|| panic!("{arg} is not in {argv:?}"))
}

#[test]
fn a_pattern_is_opaque_at_any_size_it_is_asked_for() {
    for size in [(64, 64), (16, 9), (1, 1)] {
        let pixels = draw(Pattern::Bars, size);
        assert!(pixels.chunks_exact(4).all(|p| p[3] == 255), "a transparent texel at {size:?}");
    }
}

#[test]
fn the_bars_run_white_to_black_through_every_primary() {
    let pixels = draw(Pattern::Bars, SIZE);
    let expected = [
        [191, 191, 191],
        [191, 191, 0],
        [0, 191, 191],
        [0, 191, 0],
        [191, 0, 191],
        [191, 0, 0],
        [0, 0, 191],
        [0, 0, 0],
    ];
    for (i, want) in expected.iter().enumerate() {
        let x = (i as u32 * SIZE.0 / 8) + SIZE.0 / 16;
        assert_eq!(&rgb(&pixels, SIZE, x, 0), want, "bar {i} at x={x}");
    }
    assert_eq!(pixels.len(), frame_bytes(SIZE));
}

#[test]
fn the_file_command_loops_at_the_file_s_own_rate() {
    let argv = argv(file_args("clip.mp4"), (320, 240));
    assert!(argv.windows(2).any(|w| w == ["-i", "clip.mp4"]));
    assert!(argv.windows(2).any(|w| w == ["-pix_fmt", "rgba"]));
    assert!(at(&argv, "-re") < at(&argv, "-i"));
    assert!(at(&argv, "-stream_loop") < at(&argv, "-i"));
    assert!(at(&argv, "-protocol_whitelist") < at(&argv, "-i"));
    assert_eq!(argv[at(&argv, "-stream_loop") + 1], "-1");
    assert_eq!(argv[at(&argv, "-protocol_whitelist") + 1], "file");
    let filter = &argv[at(&argv, "-vf") + 1];
    assert!(filter.contains("scale=320:240"), "{filter}");
    assert!(filter.contains("force_original_aspect_ratio=decrease"), "{filter}");
    assert!(filter.contains("pad=320:240"), "{filter}");
}

#[test]
fn the_capture_command_names_the_format_and_paces_itself() {
    let argv = argv(capture_args("v4l2", "/dev/video0"), (320, 240));
    assert!(argv.windows(2).any(|w| w == ["-f", "v4l2"]));
    assert!(argv.windows(2).any(|w| w == ["-i", "/dev/video0"]));
    assert!(!argv.contains(&"-re".to_string()), "a device is not paced");
}

#[test]
fn an_input_says_what_it_is() {
    assert_eq!(Input::Pattern(Pattern::Bars).describe(), "pattern Bars");
    assert_eq!(Input::File("clip.mp4".to_string()).describe(), "file clip.mp4");
    assert_eq!(
        Input::Capture { format: "v4l2".to_string(), device: "/dev/video0".to_string() }.describe(),
        "capture v4l2:/dev/video0"
    );
}
