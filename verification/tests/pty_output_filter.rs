use aish::pty::output_filter::{next_terminal_line_end, PtyOutputFilter};
use aish::pty::protocol::{READY_MARKER, START_MARKER};

#[test]
fn output_filter_hides_marker_lines_and_their_separator() {
    let marker = "__AISH_STATUS__123__";
    let mut filter = PtyOutputFilter::marker(marker);

    let output = filter
        .push(format!("\r\n{START_MARKER}\techo hi\r\nhi\r\n\r\n{marker}0\t/tmp\r\n").as_bytes());

    assert_eq!(String::from_utf8(output).unwrap(), "hi\r\n");
}

#[test]
fn output_filter_suppresses_prompt_noise_after_status_marker() {
    let marker = "__AISH_STATUS__123__";
    let mut filter = PtyOutputFilter::marker(marker);

    let output =
        filter.push(format!("hi\r\n{marker}0\t/tmp\r\nprompt-command-noise\r\n").as_bytes());

    assert_eq!(String::from_utf8(output).unwrap(), "hi\r\n");
}

#[test]
fn output_filter_preserves_carriage_return_progress() {
    let mut filter = PtyOutputFilter::marker("__AISH_STATUS__123__");

    let output = filter.push(b"Counting objects:  50%\rCounting objects: 100%\r\n");

    assert_eq!(
        output,
        b"Counting objects:  50%\rCounting objects: 100%\r\n"
    );
}

#[test]
fn fish_output_filter_streams_only_command_output_between_markers() {
    let mut filter = PtyOutputFilter::shell_events(true);
    let raw = format!(
        "prompt repaint\r\n{START_MARKER}\tprintf 'fish-ok\\n'\r\nfish-ok\r\n{READY_MARKER}\t0\t/tmp/aish\r\nnext prompt\r\n"
    );

    let output = filter.push(raw.as_bytes());

    assert_eq!(String::from_utf8(output).unwrap(), "fish-ok\r\n");
}

#[test]
fn fish_output_filter_drops_cursor_repaint_duplicate_before_plain_output() {
    let mut filter = PtyOutputFilter::shell_events(true);
    let raw = format!(
        "{START_MARKER}\tcat c/i | grep beta\r\n\x1b[50Cbeta\r\nbeta\r\n{READY_MARKER}\t0\t/tmp/aish\r\n"
    );

    let output = filter.push(raw.as_bytes());

    assert_eq!(String::from_utf8(output).unwrap(), "beta\r\n");
}

#[test]
fn fish_output_filter_preserves_carriage_return_progress_inside_command() {
    let mut filter = PtyOutputFilter::shell_events(true);
    let raw = format!(
        "{START_MARKER}\tprintf progress\r\nprogress 1\rprogress 2\r\n{READY_MARKER}\t0\t/tmp/aish\r\n"
    );

    let output = filter.push(raw.as_bytes());

    assert_eq!(output, b"progress 1\rprogress 2\r\n");
}

#[test]
fn output_filter_waits_for_closed_lines() {
    let mut filter = PtyOutputFilter::marker("__AISH_STATUS__9__");
    assert!(filter.push(b"partial").is_empty());
    assert_eq!(filter.push(b" line\r"), Vec::<u8>::new());
    assert_eq!(filter.push(b"\nnext\n"), b"partial line\r\nnext\n".to_vec());
}

#[test]
fn flush_pending_keeps_possible_markers_back() {
    let mut filter = PtyOutputFilter::marker("__AISH_STATUS__9__");
    assert!(filter.push(b"__AISH_ST").is_empty());
    assert!(filter.flush_pending().is_empty());
    let mut plain = PtyOutputFilter::marker("__AISH_STATUS__9__");
    assert!(plain.push(b"progress 50%").is_empty());
    assert_eq!(plain.flush_pending(), b"progress 50%".to_vec());
}

#[test]
fn terminal_line_ends() {
    assert_eq!(next_terminal_line_end(b"ab\ncd"), Some(3));
    assert_eq!(next_terminal_line_end(b"ab\r\ncd"), Some(4));
    assert_eq!(next_terminal_line_end(b"ab\rcd"), Some(3));
    assert_eq!(next_terminal_line_end(b"ab\r"), None);
    assert_eq!(next_terminal_line_end(b"abc"), None);
}
