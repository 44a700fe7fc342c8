use head::HeadError;
use head::config::resolve_config;
use head::config::headers_shown;
use head::config::Config;
use head::config::HeaderPolicy;
use head::config::Mode;
use head::count::parse_bytes;
use head::count::parse_count;
use head::render::header_line;
use head::render::run;
use head::select::process;
use head::select::process_bytes;
use head::select::process_lines;
use head::units::split_into_units;

fn lines_cfg(count: i64) -> Config {
    Config { mode: Mode::Lines, count, header_policy: HeaderPolicy::Auto, zero_terminated: false }
}

fn bytes_cfg(count: i64) -> Config {
    Config { mode: Mode::Bytes, count, header_policy: HeaderPolicy::Auto, zero_terminated: false }
}

// Multiplier parsing.

#[test]
fn parse_binary_kilo() {
    assert_eq!(parse_count("1K"), Ok(1024));
}

#[test]
fn parse_decimal_kilo() {
    assert_eq!(parse_count("2kB"), Ok(2000));
}

#[test]
fn parse_negative_without_multiplier() {
    assert_eq!(parse_count("-5"), Ok(-5));
}

#[test]
fn parse_unrecognized_multiplier() {
    assert_eq!(parse_count("3Q"), Err(HeadError::UnrecognizedMultiplier));
}

#[test]
fn parse_all_multipliers() {
    assert_eq!(parse_count("2b"), Ok(1024));
    assert_eq!(parse_count("3K"), Ok(3072));
    assert_eq!(parse_count("3MB"), Ok(3_000_000));
    assert_eq!(parse_count("3M"), Ok(3 * 1024 * 1024));
    assert_eq!(parse_count("2GB"), Ok(2_000_000_000));
    assert_eq!(parse_count("2G"), Ok(2 * 1024 * 1024 * 1024));
    assert_eq!(parse_count("10"), Ok(10));
}

#[test]
fn parse_negative_with_multiplier() {
    assert_eq!(parse_count("-2K"), Ok(-2048));
}

#[test]
fn parse_invalid_counts() {
    assert_eq!(parse_count(""), Err(HeadError::InvalidCount));
    assert_eq!(parse_count("-"), Err(HeadError::InvalidCount));
    assert_eq!(parse_count("--2"), Err(HeadError::InvalidCount));
    assert_eq!(parse_count("2-3"), Err(HeadError::InvalidCount));
    assert_eq!(parse_count("K"), Err(HeadError::InvalidCount));
    assert_eq!(parse_count("+5"), Err(HeadError::InvalidCount));
}

#[test]
fn parse_count_at_i64_bounds() {
    assert_eq!(parse_count("9223372036854775807"), Ok(i64::MAX));
    assert_eq!(parse_count("-9223372036854775808"), Ok(i64::MIN));
    assert_eq!(parse_count("9223372036854775808"), Err(HeadError::InvalidCount));
    assert_eq!(
        parse_count("99999999999999999999999999"),
        Err(HeadError::InvalidCount)
    );
}

#[test]
fn parse_count_overflow_after_scaling() {
    assert_eq!(parse_count("99999999999999999K"), Err(HeadError::InvalidCount));
    assert_eq!(parse_count("-99999999999999999K"), Err(HeadError::InvalidCount));
}

#[test]
fn parse_bytes_absent_and_present() {
    assert_eq!(parse_bytes(None), Ok(None));
    assert_eq!(parse_bytes(Some("1K")), Ok(Some(1024)));
    assert_eq!(parse_bytes(Some("3Q")), Err(HeadError::UnrecognizedMultiplier));
}

// Configuration resolution.

#[test]
fn resolve_defaults_to_ten_lines() {
    let cfg = resolve_config(None, None, false, false, false).unwrap();
    assert_eq!(cfg.mode, Mode::Lines);
    assert_eq!(cfg.count, 10);
    assert_eq!(cfg.header_policy, HeaderPolicy::Auto);
    assert!(!cfg.zero_terminated);
}

#[test]
fn resolve_byte_count_selects_byte_mode() {
    let cfg = resolve_config(Some("5"), Some("7"), false, false, false).unwrap();
    assert_eq!(cfg.mode, Mode::Bytes);
    assert_eq!(cfg.count, 5);
}

#[test]
fn resolve_verbose_wins_over_quiet() {
    let cfg = resolve_config(None, None, true, true, false).unwrap();
    assert_eq!(cfg.header_policy, HeaderPolicy::Always);
}

#[test]
fn resolve_quiet_and_zero_flags() {
    let cfg = resolve_config(None, Some("3"), true, false, true).unwrap();
    assert_eq!(cfg.header_policy, HeaderPolicy::Never);
    assert!(cfg.zero_terminated);
    assert_eq!(cfg.count, 3);
}

#[test]
fn resolve_reports_bad_count() {
    assert_eq!(
        resolve_config(Some("x"), None, false, false, false),
        Err(HeadError::InvalidCount)
    );
    assert_eq!(
        resolve_config(None, Some("3Q"), false, false, false),
        Err(HeadError::UnrecognizedMultiplier)
    );
}

#[test]
fn headers_shown_by_policy() {
    assert!(!headers_shown(HeaderPolicy::Auto, 1));
    assert!(headers_shown(HeaderPolicy::Auto, 2));
    assert!(!headers_shown(HeaderPolicy::Never, 5));
    assert!(headers_shown(HeaderPolicy::Always, 1));
}

// Prefix selection, line mode.

#[test]
fn lines_first_n_of_more() {
    let data = b"one\ntwo\nthree\n".to_vec();
    assert_eq!(process(&data, &lines_cfg(2)), Ok(b"one\ntwo\n".to_vec()));
}

#[test]
fn lines_more_requested_than_available() {
    let data = b"one\ntwo\nthree\n".to_vec();
    assert_eq!(process(&data, &lines_cfg(10)), Ok(b"one\ntwo\nthree\n".to_vec()));
}

#[test]
fn lines_negative_count_drops_tail() {
    let data = b"a\nb\nc\nd\n".to_vec();
    assert_eq!(process(&data, &lines_cfg(-1)), Ok(b"a\nb\nc\n".to_vec()));
}

#[test]
fn lines_negative_count_underflows() {
    let data = b"a\nb\nc\n".to_vec();
    assert_eq!(process(&data, &lines_cfg(-5)), Err(HeadError::Underflow));
    let empty: Vec<u8> = Vec::new();
    assert_eq!(process(&empty, &lines_cfg(-1)), Err(HeadError::Underflow));
}

#[test]
fn lines_negative_count_of_everything() {
    let data = b"a\nb\n".to_vec();
    assert_eq!(process(&data, &lines_cfg(-2)), Ok(Vec::new()));
}

#[test]
fn lines_zero_count() {
    let data = b"a\nb\n".to_vec();
    assert_eq!(process(&data, &lines_cfg(0)), Ok(Vec::new()));
}

#[test]
fn lines_empty_input() {
    let empty: Vec<u8> = Vec::new();
    assert_eq!(process(&empty, &lines_cfg(10)), Ok(Vec::new()));
}

#[test]
fn lines_trailing_fragment_counts() {
    let data = b"a\nb".to_vec();
    assert_eq!(process(&data, &lines_cfg(10)), Ok(b"a\nb\n".to_vec()));
}

#[test]
fn process_lines_joins_selected_units() {
    let units = vec![b"x".to_vec(), b"y".to_vec(), b"z".to_vec()];
    assert_eq!(process_lines(&units, 2, false), b"x\ny\n".to_vec());
    assert_eq!(process_lines(&units, 9, true), b"x\0y\0z\0".to_vec());
}

// Prefix selection, byte mode.

#[test]
fn bytes_first_five() {
    let data = b"hello\nworld\n".to_vec();
    assert_eq!(process(&data, &bytes_cfg(5)), Ok(b"hello".to_vec()));
}

#[test]
fn bytes_more_requested_than_available() {
    let data = b"hi".to_vec();
    assert_eq!(process(&data, &bytes_cfg(100)), Ok(b"hi".to_vec()));
}

#[test]
fn bytes_negative_count() {
    let data = b"hello".to_vec();
    assert_eq!(process(&data, &bytes_cfg(-2)), Ok(b"hel".to_vec()));
    assert_eq!(process(&data, &bytes_cfg(-6)), Err(HeadError::Underflow));
}

#[test]
fn process_bytes_prefix() {
    let data = b"abcdef".to_vec();
    assert_eq!(process_bytes(&data, 3), b"abc".to_vec());
    assert_eq!(process_bytes(&data, 99), b"abcdef".to_vec());
}

// Zero-terminated unit splitting.

#[test]
fn zero_terminated_splits_on_nul() {
    let data = b"a\0b\0c\0".to_vec();
    let units = split_into_units(&data, 0);
    assert_eq!(units, vec![b"a".to_vec(), b"b".to_vec(), b"c".to_vec()]);
}

#[test]
fn zero_terminated_selection() {
    let data = b"a\0b\0c\0".to_vec();
    let cfg = Config {
        mode: Mode::Lines,
        count: 2,
        header_policy: HeaderPolicy::Auto,
        zero_terminated: true,
    };
    assert_eq!(process(&data, &cfg), Ok(b"a\0b\0".to_vec()));
}

#[test]
fn newline_splitting_examples() {
    let units = split_into_units(&b"a\nb".to_vec(), b'\n');
    assert_eq!(units, vec![b"a".to_vec(), b"b".to_vec()]);
    let units = split_into_units(&b"\n".to_vec(), b'\n');
    assert_eq!(units, vec![Vec::new()]);
    let units = split_into_units(&Vec::new(), b'\n');
    assert_eq!(units, Vec::<Vec<u8>>::new());
}

// Headers.

#[test]
fn header_line_plain_name() {
    assert_eq!(header_line(&b"foo.txt".to_vec()), b"==> foo.txt <==".to_vec());
}

#[test]
fn header_line_stdin_sentinel() {
    assert_eq!(header_line(&b"-".to_vec()), b"==> standard input <==".to_vec());
}

#[test]
fn single_input_has_no_header() {
    let inputs = vec![(b"f".to_vec(), b"x\ny\n".to_vec())];
    let (out, err) = run(&inputs, &lines_cfg(10));
    assert_eq!(out, b"x\ny\n".to_vec());
    assert_eq!(err, None);
}

#[test]
fn two_inputs_get_headers_and_separator() {
    let inputs = vec![
        (b"a".to_vec(), b"1\n".to_vec()),
        (b"b".to_vec(), b"2\n".to_vec()),
    ];
    let (out, err) = run(&inputs, &lines_cfg(10));
    assert_eq!(out, b"==> a <==\n1\n\n==> b <==\n2\n".to_vec());
    assert_eq!(err, None);
}

#[test]
fn quiet_suppresses_headers_for_many_inputs() {
    let inputs = vec![
        (b"a".to_vec(), b"1\n".to_vec()),
        (b"b".to_vec(), b"2\n".to_vec()),
    ];
    let cfg = Config {
        mode: Mode::Lines,
        count: 10,
        header_policy: HeaderPolicy::Never,
        zero_terminated: false,
    };
    let (out, err) = run(&inputs, &cfg);
    assert_eq!(out, b"1\n2\n".to_vec());
    assert_eq!(err, None);
}

#[test]
fn verbose_forces_header_for_one_input() {
    let inputs = vec![(b"f".to_vec(), b"x\n".to_vec())];
    let cfg = Config {
        mode: Mode::Lines,
        count: 10,
        header_policy: HeaderPolicy::Always,
        zero_terminated: false,
    };
    let (out, err) = run(&inputs, &cfg);
    assert_eq!(out, b"==> f <==\nx\n".to_vec());
    assert_eq!(err, None);
}

#[test]
fn stdin_header_uses_display_name() {
    let inputs = vec![
        (b"-".to_vec(), b"s\n".to_vec()),
        (b"f".to_vec(), b"t\n".to_vec()),
    ];
    let (out, err) = run(&inputs, &lines_cfg(10));
    assert_eq!(out, b"==> standard input <==\ns\n\n==> f <==\nt\n".to_vec());
    assert_eq!(err, None);
}

#[test]
fn run_stops_at_first_failing_input() {
    let inputs = vec![
        (b"a".to_vec(), b"1\n".to_vec()),
        (b"b".to_vec(), b"2\n".to_vec()),
        (b"c".to_vec(), b"3\n".to_vec()),
    ];
    let (out, err) = run(&inputs, &lines_cfg(-2));
    // The first input underflows: its header is printed, nothing more runs.
    assert_eq!(out, b"==> a <==\n".to_vec());
    assert_eq!(err, Some(HeadError::Underflow));
}

#[test]
fn run_keeps_output_before_failure() {
    let inputs = vec![
        (b"a".to_vec(), b"1\n2\n".to_vec()),
        (b"b".to_vec(), Vec::new()),
    ];
    let (out, err) = run(&inputs, &lines_cfg(-1));
    assert_eq!(out, b"==> a <==\n1\n\n==> b <==\n".to_vec());
    assert_eq!(err, Some(HeadError::Underflow));
}

// Diagnostics.

#[test]
fn error_messages_name_the_failure() {
    assert_eq!(HeadError::InvalidCount.message(), "invalid number of bytes or lines");
    assert_eq!(HeadError::UnrecognizedMultiplier.message(), "invalid multiplier suffix");
    assert_eq!(
        HeadError::Underflow.message(),
        "negative count exceeds the number of units in the input"
    );
}
