use lightherder::capture::{
    civil, encoder_args, extension, fitted, pix_fmt, raw_format, stamp, Display, Take, MAX_HEIGHT,
    MAX_WIDTH,
};
use lightherder::readback::{packed, readback_row, ROW_ALIGN};

#[test]
fn a_capture_is_named_by_the_moment_it_was_taken() {
    assert_eq!(civil(0), (1970, 1, 1));
    assert_eq!(civil(19_781), (2024, 2, 28));
    assert_eq!(civil(19_782), (2024, 2, 29));
    assert_eq!(civil(19_783), (2024, 3, 1));
    assert_eq!(civil(20_693), (2026, 8, 28));
    let now = std::time::SystemTime::now()
        .duration_since(std::time::UNIX_EPOCH)
        .unwrap_or_default();
    let name = stamp(now.as_secs(), now.subsec_millis());
    assert_eq!(name.len(), "YYYYMMDD-HHMMSS-mmm".len(), "{name}");
    assert!(name.chars().all(|c| c.is_ascii_digit() || c == '-'), "{name}");
}

#[test]
fn a_name_is_the_date_then_the_time_of_day() {
    // 2024-02-29 13:05:09.042 UTC.
    let secs = 19_782 * 86_400 + 13 * 3600 + 5 * 60 + 9;
    assert_eq!(stamp(secs, 42), "20240229-130509-042");
    assert_eq!(stamp(0, 0), "19700101-000000-000");
}

#[test]
fn the_calendar_runs_backwards_from_the_epoch_too() {
    assert_eq!(civil(-1), (1969, 12, 31));
    assert_eq!(civil(-719_468), (0, 3, 1));
    assert_eq!(civil(10_957), (2000, 1, 1));
    assert_eq!(civil(11_016), (2000, 2, 29));
    // 2100 is not a leap year.
    assert_eq!(civil(47_541), (2100, 3, 1));
}

#[test]
fn a_display_bigger_than_the_capture_keeps_its_shape() {
    assert_eq!(fitted((1920, 1080)), (1920, 1080));
    assert_eq!(fitted((1280, 720)), (1280, 720));
    assert_eq!(fitted((3840, 2160)), (1920, 1080));
    let (width, height) = fitted((1200, 1600));
    assert!(height <= MAX_HEIGHT && width <= MAX_WIDTH, "{width}x{height}");
    assert!(
        (width * 1600).abs_diff(height * 1200) <= 1600,
        "{width}x{height}"
    );
    for size in [(1, 1), (1919, 1081), (7, 3), (0, 0)] {
        let (width, height) = fitted(size);
        assert!(width % 2 == 0 && height % 2 == 0, "{size:?}");
        assert!(width >= 2 && height >= 2, "{size:?}");
    }
}

#[test]
fn a_display_no_raw_frame_names_is_refused() {
    assert_eq!(pix_fmt(wgpu::TextureFormat::Bgra8UnormSrgb), Ok("bgra"));
    assert_eq!(pix_fmt(wgpu::TextureFormat::Rgba8Unorm), Ok("rgba"));
    assert!(pix_fmt(wgpu::TextureFormat::Rgba16Float).is_err());
    assert_eq!(
        pix_fmt(wgpu::TextureFormat::Rgba16Float),
        Err("a Rgba16Float display is not one a capture can write".to_string())
    );
}

#[test]
fn the_raw_format_is_the_channel_order() {
    assert_eq!(raw_format(Display::Rgba8UnormSrgb), Some("rgba"));
    assert_eq!(raw_format(Display::Bgra8Unorm), Some("bgra"));
    assert_eq!(raw_format(Display::Other), None);
}

#[test]
fn a_readback_row_is_padded_to_the_copy_alignment() {
    assert_eq!(ROW_ALIGN, 256);
    assert_eq!(readback_row(1920), 7680);
    assert_eq!(readback_row(1280), 5120);
    assert_eq!(readback_row(1), 256);
    assert_eq!(readback_row(65), 512);
    assert_eq!(readback_row(0), 0);
}

#[test]
fn a_packed_frame_drops_the_padding_of_every_row() {
    // Two texels a row, padded to twelve bytes a row.
    let mapped: Vec<u8> = (0..36).collect();
    let frame = packed(&mapped, 12, 2);
    let want: Vec<u8> = vec![0, 1, 2, 3, 4, 5, 6, 7, 12, 13, 14, 15, 16, 17, 18, 19, 24, 25, 26, 27, 28, 29, 30, 31];
    assert_eq!(frame, want);
    // A last row cut short past the texels still gives them.
    let frame = packed(&mapped[..32], 12, 2);
    assert_eq!(frame, want);
    // A row with no padding is handed over as it is.
    assert_eq!(packed(&mapped[..16], 8, 2), mapped[..16].to_vec());
}

#[test]
fn the_encoder_is_told_the_raw_frame_and_what_to_write() {
    let still = encoder_args("bgra", (1280, 720), Take::Still, "/tmp/x.png");
    assert_eq!(
        still,
        [
            "-hide_banner", "-loglevel", "error", "-y", "-f", "rawvideo", "-pix_fmt", "bgra", "-s",
            "1280x720", "-framerate", "30", "-i", "-", "/tmp/x.png",
        ]
    );
    let video = encoder_args("rgba", (1920, 1080), Take::Video, "/tmp/y.mp4");
    assert_eq!(
        video,
        [
            "-hide_banner", "-loglevel", "error", "-y", "-f", "rawvideo", "-pix_fmt", "rgba", "-s",
            "1920x1080", "-framerate", "30", "-i", "-", "-c:v", "libx264", "-preset", "ultrafast",
            "-pix_fmt", "yuv420p", "/tmp/y.mp4",
        ]
    );
    assert_eq!(extension(Take::Still), "png");
    assert_eq!(extension(Take::Video), "mp4");
}
