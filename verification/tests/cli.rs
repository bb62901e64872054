use lightherder::cli::{parse, resolution, usage, Mode, DEFAULT_HEIGHT, DEFAULT_WIDTH, MAX_RESOLUTION};

fn parse_argv(args: &[&str]) -> Result<lightherder::cli::Options, String> {
    parse(args.iter().map(|a| a.to_string()).collect())
}

#[test]
fn the_usage_names_every_flag_the_parser_answers_to() {
    let usage = usage();
    for flag in ["--windowed", "--resolution", "--rate", "--cheatsheet", "--bench"] {
        assert!(usage.contains(flag), "{flag} is not in the usage");
    }
}

#[test]
fn an_empty_command_line_plays_over_the_whole_display() {
    let cli = parse_argv(&[]).unwrap();
    assert!(cli.fullscreen);
    assert_eq!(cli.mode, Mode::Play);
    assert_eq!(cli.resolution, (DEFAULT_WIDTH, DEFAULT_HEIGHT));
    assert_eq!(cli.rate, None);
}

#[test]
fn the_flags_do_what_they_say() {
    assert!(!parse_argv(&["--windowed"]).unwrap().fullscreen);
    assert_eq!(parse_argv(&["--bench"]).unwrap().mode, Mode::Bench);
    assert_eq!(parse_argv(&["--cheatsheet"]).unwrap().mode, Mode::Cheatsheet);
    assert_eq!(parse_argv(&["--help"]).unwrap().mode, Mode::Usage);
    assert_eq!(parse_argv(&["-h"]).unwrap().mode, Mode::Usage);
    for spelling in [vec!["--resolution=3840x2160"], vec!["--resolution", "3840x2160"]] {
        assert_eq!(parse_argv(&spelling).unwrap().resolution, (3840, 2160));
    }
    assert!(parse_argv(&["--resolution"]).unwrap_err().contains("needs a size"));
    for spelling in [vec!["--rate=15"], vec!["--rate", "15"]] {
        assert_eq!(parse_argv(&spelling).unwrap().rate.as_deref(), Some("15"));
    }
    assert!(parse_argv(&["--rate"]).unwrap_err().contains("needs a"));
}

#[test]
fn a_second_run_is_refused() {
    let why = parse_argv(&["--bench", "--cheatsheet"]).unwrap_err();
    assert!(why.contains("Bench") && why.contains("Cheatsheet"), "{why}");
    assert!(parse_argv(&["--help", "--bench"]).is_err());
    assert_eq!(parse_argv(&["--windowed", "--windowed"]).unwrap().mode, Mode::Play);
}

#[test]
fn a_bare_word_is_a_typo_rather_than_a_piece_to_play() {
    let why = parse_argv(&["crossed"]).unwrap_err();
    assert!(why.contains("\"crossed\"") && why.contains("one instrument"), "{why}");
    let why = parse_argv(&["--windowed", "3840x2160"]).unwrap_err();
    assert!(why.contains("3840x2160"), "{why}");
}

#[test]
fn a_misspelled_flag_stops_rather_than_becoming_anything_else() {
    let why = parse_argv(&["--fullscreen"]).unwrap_err();
    assert!(why.contains("no such option"), "{why}");
    assert!(why.contains("--windowed"), "the usage is missing: {why}");
}

#[test]
fn a_resolution_that_is_not_one_says_so() {
    for bad in ["1920", "1920*1080", "wide x tall", "1920x", "x1080"] {
        let why = parse_argv(&[&format!("--resolution={bad}")]).unwrap_err();
        assert!(why.contains("WIDTHxHEIGHT"), "{bad}: {why}");
    }
    assert!(parse_argv(&["--resolution=1920x0"]).unwrap_err().contains("zero side"));
    let why = parse_argv(&["--resolution=38400x2160"]).unwrap_err();
    assert!(why.contains(&MAX_RESOLUTION.to_string()), "{why}");
    assert_eq!(resolution("1280X720"), Ok((1280, 720)));
    assert_eq!(resolution("+1280x720"), Ok((1280, 720)));
}
