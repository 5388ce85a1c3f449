use aish::context::{cap_utf8, combine_stdout_stderr, context_command_result, CappedStream};

fn stream(chunks: &[&[u8]], limit: usize) -> CappedStream {
    let mut s = CappedStream::new();
    for chunk in chunks {
        s.push_chunk(chunk, limit);
    }
    s
}

#[test]
fn run_context_command_captures_stdout_and_stderr() {
    let result = context_command_result(
        stream(&[b"out"], 1024),
        stream(&[b"err"], 1024),
        false,
        5000,
        Some(0),
        1024,
    );

    assert_eq!(result.exit_code, Some(0));
    assert!(result.output.contains("out"));
    assert!(result.output.contains("[stderr]"));
    assert!(result.output.contains("err"));
    assert!(!result.truncated);
    assert_eq!(result.output, "out\n[stderr]\nerr");
}

#[test]
fn run_context_command_caps_output() {
    let result = context_command_result(
        stream(&[b"123", b"456789"], 4),
        stream(&[], 4),
        false,
        5000,
        Some(0),
        4,
    );

    assert_eq!(result.output, "1234");
    assert!(result.truncated);
}

#[test]
fn run_context_command_enforces_timeout() {
    let result = context_command_result(
        stream(&[b"start"], 1024),
        stream(&[], 1024),
        true,
        50,
        None,
        1024,
    );

    assert_eq!(result.exit_code, None);
    assert!(result.output.contains("start"));
    assert!(!result.output.contains("done"));
    assert!(result.output.contains("context command timed out"));
    assert_eq!(
        result.output,
        "start\n[stderr]\ncontext command timed out after 50 ms\n"
    );
}

#[test]
fn capping_keeps_whole_characters() {
    let (text, cut) = cap_utf8("aé".as_bytes(), 2);
    assert_eq!(text, "a");
    assert!(cut);
    let (text, cut) = cap_utf8("aé".as_bytes(), 3);
    assert_eq!(text, "aé");
    assert!(!cut);
    let (text, cut) = cap_utf8(&[0xff, b'a', b'b'], 2);
    assert_eq!(text, "");
    assert!(cut);
}

#[test]
fn stderr_gets_its_own_heading_line() {
    assert_eq!(combine_stdout_stderr(b"out\n", b"err"), b"out\n[stderr]\nerr".to_vec());
    assert_eq!(combine_stdout_stderr(b"", b"err"), b"[stderr]\nerr".to_vec());
    assert_eq!(combine_stdout_stderr(b"out", b""), b"out".to_vec());
}
