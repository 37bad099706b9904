use shardfetch::line_protocol::{classify, parse_i32_bytes, LineEvent, RawConfig};
use shardfetch::supervisor::JobState;

fn cfg_both() -> RawConfig {
    RawConfig { bracket: true, brace: true }
}

#[test]
fn progress_line_yields_progress_42() {
    let e = classify(b"PROGRESS: 42\n", cfg_both());
    assert!(matches!(e, LineEvent::Progress(42)));
}

#[test]
fn progress_line_with_bad_integer_is_dropped() {
    let e = classify(b"PROGRESS: abc\n", cfg_both());
    assert!(matches!(e, LineEvent::Other));
}

#[test]
fn blank_line_yields_no_event() {
    let e = classify(b"  \n", cfg_both());
    assert!(matches!(e, LineEvent::Other));
}

#[test]
fn raw_candidate_survives_later_non_matching_line() {
    let mut state = JobState::new(cfg_both());
    state.observe_out_line(b"[1,2,3]\n");
    state.observe_out_line(b"not json\n");
    assert_eq!(state.last_raw, Some(b"[1,2,3]".to_vec()));
}

#[test]
fn raw_candidate_last_matching_line_wins() {
    let mut state = JobState::new(cfg_both());
    state.observe_out_line(b"[1,2,3]\n");
    state.observe_out_line(b"[4,5]\n");
    assert_eq!(state.last_raw, Some(b"[4,5]".to_vec()));
}

#[test]
fn brace_only_config_ignores_bracket_lines() {
    let mut state = JobState::new(RawConfig::brace_only());
    state.observe_out_line(b"[1,2,3]\n");
    assert_eq!(state.last_raw, None);
    state.observe_out_line(b"{\"path\":\"out\"}\n");
    assert_eq!(state.last_raw, Some(b"{\"path\":\"out\"}".to_vec()));
}

#[test]
fn info_line_strips_prefix_and_trims() {
    let e = classify(b"INFO:  syncing page 3 \n", cfg_both());
    match e {
        LineEvent::Info(m) => assert_eq!(m, b"syncing page 3".to_vec()),
        _ => panic!("expected an info event"),
    }
}

#[test]
fn warning_line_classified() {
    let e = classify(b"WARNING: partial data\n", cfg_both());
    match e {
        LineEvent::Warning(m) => assert_eq!(m, b"partial data".to_vec()),
        _ => panic!("expected a warning event"),
    }
}

#[test]
fn error_line_classified() {
    let e = classify(b"ERROR: no such symbol\n", cfg_both());
    match e {
        LineEvent::Error(m) => assert_eq!(m, b"no such symbol".to_vec()),
        _ => panic!("expected an error event"),
    }
}

#[test]
fn success_line_classified() {
    let e = classify(b"SUCCESS: done\n", cfg_both());
    match e {
        LineEvent::Success(m) => assert_eq!(m, b"done".to_vec()),
        _ => panic!("expected a success event"),
    }
}

#[test]
fn unrecognized_line_ignored() {
    let e = classify(b"DEBUG: noise\n", cfg_both());
    assert!(matches!(e, LineEvent::Other));
}

#[test]
fn negative_progress_parses_like_a_plain_integer() {
    let e = classify(b"PROGRESS: -5\n", cfg_both());
    assert!(matches!(e, LineEvent::Progress(-5)));
}

#[test]
fn progress_overflowing_32_bits_is_dropped() {
    let e = classify(b"PROGRESS: 99999999999\n", cfg_both());
    assert!(matches!(e, LineEvent::Other));
}

#[test]
fn parse_extremes_of_the_32_bit_range() {
    assert_eq!(parse_i32_bytes(b"2147483647"), Some(2147483647));
    assert_eq!(parse_i32_bytes(b"2147483648"), None);
    assert_eq!(parse_i32_bytes(b"-2147483648"), Some(-2147483648));
    assert_eq!(parse_i32_bytes(b"-2147483649"), None);
    assert_eq!(parse_i32_bytes(b"+17"), Some(17));
    assert_eq!(parse_i32_bytes(b""), None);
    assert_eq!(parse_i32_bytes(b"-"), None);
    assert_eq!(parse_i32_bytes(b"12a"), None);
}
