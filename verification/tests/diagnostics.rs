use wizard_editor::debug_log::{escape_json, log_line, should_emit_throttled};
use wizard_editor::engine::fps::{update_ui_fps, FpsMeter};

const S: i64 = 1_000_000_000;

#[test]
fn special_characters_are_escaped() {
    assert_eq!(escape_json("a\"b\\c\nd\re"), "a\\\"b\\\\c\\nd\\re");
    assert_eq!(escape_json("plain"), "plain");
}

#[test]
fn log_line_is_one_object() {
    let line = log_line(5, 7, "H1", "app.rs:1", "say \"hi\"", "x\ny");
    assert_eq!(
        line,
        "{\"id\":\"log_5_7\",\"timestamp\":5,\"location\":\"app.rs:1\",\"message\":\"say \\\"hi\\\"\",\"data\":{\"raw\":\"x\\ny\"},\"runId\":\"initial\",\"hypothesisId\":\"H1\"}"
    );
}

#[test]
fn throttled_lines_keep_their_distance() {
    let mut last = 0;
    assert!(should_emit_throttled(&mut last, 1000, 500));
    assert!(!should_emit_throttled(&mut last, 1499, 500));
    assert_eq!(last, 1000);
    assert!(should_emit_throttled(&mut last, 1500, 500));
    assert_eq!(last, 1500);
}

#[test]
fn video_rate_is_counted_over_a_window() {
    let mut m = FpsMeter::new();
    for i in 0..25 {
        m.update_video_fps(i * 40_000_000, S);
    }
    assert_eq!((m.frames, m.rate), (25, 0));
    m.update_video_fps(S, S);
    assert_eq!((m.frames, m.rate, m.window_start), (0, 26_000, Some(S)));
    m.update_video_fps(2 * S, S);
    assert_eq!(m.rate, 21_000);
}

#[test]
fn interface_rate_is_smoothed() {
    assert_eq!(update_ui_fps(0, 20_000_000), 50_000);
    assert_eq!(update_ui_fps(50_000, 10_000_000), 55_000);
    assert_eq!(update_ui_fps(50_000, 0), 50_000);
}
