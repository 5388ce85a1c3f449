use aish::pty::parser::{
    complete_normalized_lines, normalize_pty_newlines, parse_ready_status_output_with_prompt_separator,
    find_complete_marker, ShellOutputError,
    clean_marker_echo, marker_status_is_complete, parse_marker_output, parse_ready_cwd,
    parse_ready_status_output, start_marker_command, HookCommandResult,
};
use aish::pty::protocol::{READY_MARKER, START_MARKER};

#[test]
fn parses_marker_and_hides_it_from_output() {
    let marker = "__AISH_STATUS__123__";
    let raw = format!("hello\r\n{marker}7\r\n");
    let (output, status, cwd, started) = parse_marker_output(&raw, marker).unwrap();
    assert_eq!(output, "hello");
    assert_eq!(status, 7);
    assert_eq!(cwd, None);
    assert_eq!(started, None);
}

#[test]
fn parses_marker_cwd_when_present() {
    let marker = "__AISH_STATUS__123__";
    let raw = format!("hello\r\n{marker}7\t/tmp/aish\r\n");
    let (output, status, cwd, _) = parse_marker_output(&raw, marker).unwrap();
    assert_eq!(output, "hello");
    assert_eq!(status, 7);
    assert_eq!(cwd.as_deref(), Some("/tmp/aish"));
}

#[test]
fn parser_ignores_old_fixed_marker_in_user_output() {
    let marker = "__AISH_STATUS__123__";
    let raw = format!("before __AISH_STATUS__ after\r\n{marker}0\r\n");
    let (output, status, _, _) = parse_marker_output(&raw, marker).unwrap();
    assert_eq!(output, "before __AISH_STATUS__ after");
    assert_eq!(status, 0);
}

#[test]
fn parser_normalizes_pty_newlines() {
    let marker = "__AISH_STATUS__123__";
    let raw = format!("one\r\ntwo\r\n{marker}0\r\n");
    let (output, status, _, _) = parse_marker_output(&raw, marker).unwrap();
    assert_eq!(output, "one\ntwo");
    assert_eq!(status, 0);
}

#[test]
fn parser_reads_ready_marker_cwd() {
    let raw = format!("noise\r\n{READY_MARKER}\t/tmp/aish\r\n");
    assert_eq!(parse_ready_cwd(&raw).as_deref(), Some("/tmp/aish"));
    assert_eq!(parse_ready_cwd(READY_MARKER), None);
}

#[test]
fn parser_reads_ready_marker_cwd_when_status_is_present() {
    let raw = format!("noise\r\n{READY_MARKER}\t0\t/tmp/aish\r\n");
    assert_eq!(parse_ready_cwd(&raw).as_deref(), Some("/tmp/aish"));
}

#[test]
fn parser_waits_for_complete_ready_marker_line() {
    let status_only = format!("{READY_MARKER}\t0");
    let partial_cwd = format!("{READY_MARKER}\t0\t/tmp/aish");

    assert_eq!(parse_ready_cwd(&status_only), None);
    assert_eq!(parse_ready_cwd(&partial_cwd), None);
    assert_eq!(
        parse_ready_cwd(&format!("{partial_cwd}\n")).as_deref(),
        Some("/tmp/aish")
    );
}

#[test]
fn parser_strips_terminal_controls_from_ready_marker_cwd() {
    let raw = format!("noise\r\n\x1b[K{READY_MARKER}\t0\t/tmp/aish\x1b[K\r\n");
    assert_eq!(parse_ready_cwd(&raw).as_deref(), Some("/tmp/aish"));
}

#[test]
fn parser_ignores_ready_marker_in_echoed_init_command() {
    let raw = format!(
        "stty -echo; printf '\\n{READY_MARKER}\\t%s\\n' \"$PWD\"\r\n{READY_MARKER}\t/tmp/aish\r\n"
    );
    assert_eq!(parse_ready_cwd(&raw).as_deref(), Some("/tmp/aish"));
}

#[test]
fn parser_uses_real_marker_when_command_echo_contains_marker() {
    let marker = "__AISH_STATUS__123__";
    let raw = format!("__aish_status=$?; printf marker {marker}\r\nactual\r\n{marker}0\t/tmp\r\n");
    let (output, status, cwd, _) = parse_marker_output(&raw, marker).unwrap();
    assert_eq!(output, "actual");
    assert_eq!(status, 0);
    assert_eq!(cwd.as_deref(), Some("/tmp"));
}

#[test]
fn parser_reads_start_marker_for_marker_shells() {
    let marker = "__AISH_STATUS__123__";
    let raw = format!("{START_MARKER}\tprintf hello\nhello\n{marker}0\t/tmp\n");
    let (output, status, cwd, started) = parse_marker_output(&raw, marker).unwrap();

    assert_eq!(output, "hello");
    assert_eq!(status, 0);
    assert_eq!(cwd.as_deref(), Some("/tmp"));
    assert_eq!(started.as_deref(), Some("printf hello"));
}

#[test]
fn start_marker_command_quotes_shell_text_and_normalizes_multiline_display() {
    let command = start_marker_command("printf 'a\\n'\necho done");

    assert!(command.starts_with(' '));
    assert!(command.contains(START_MARKER));
    assert!(command.contains("'printf '\\''a\\n'\\''\\necho done'"));
}

#[test]
fn clean_marker_echo_hides_ready_marker_lines() {
    let output = clean_marker_echo(
        &format!("echoed\n{READY_MARKER}\t/tmp/aish\nvisible"),
        "__AISH_STATUS__1__",
    );

    assert_eq!(output, "echoed\nvisible");
}

#[test]
fn clean_marker_echo_removes_prompt_ready_separators() {
    let output = clean_marker_echo(
        &format!("one\n\n{READY_MARKER}\t0\t/tmp/aish\ntwo\n\n{READY_MARKER}\t0\t/tmp/aish\n"),
        "__AISH_STATUS__1__",
    );

    assert_eq!(output, "one\ntwo\n");
}

#[test]
fn clean_marker_echo_preserves_user_blank_before_prompt_separator() {
    let output = clean_marker_echo(
        &format!("one\n\n\n{READY_MARKER}\t0\t/tmp/aish\n"),
        "__AISH_STATUS__1__",
    );

    assert_eq!(output, "one\n\n");
}

#[test]
fn parse_ready_status_output_reads_status_cwd_and_filters_hook_lines() {
    let raw = format!("{START_MARKER}\techo hello\nhello\n{READY_MARKER}\t7\t/tmp/aish\n");

    assert_eq!(
        parse_ready_status_output(&raw, false).unwrap(),
        HookCommandResult {
            output: "hello\n".to_string(),
            exit_code: 7,
            cwd: "/tmp/aish".to_string(),
            started_command: Some("echo hello".to_string()),
        }
    );
}

#[test]
fn parse_ready_status_output_preserves_user_output_line_breaks() {
    let raw = format!(
        "{START_MARKER}\tprintf first\\nsecond\\n\nfirst\nsecond\n{READY_MARKER}\t0\t/tmp/aish\n"
    );

    let parsed = parse_ready_status_output(&raw, false).unwrap();

    assert_eq!(parsed.output, "first\nsecond\n");
}

#[test]
fn parse_ready_status_output_ignores_prompt_noise_around_command_markers() {
    let raw = format!(
        "old prompt\n\
             {READY_MARKER}\t0\n\
             {START_MARKER}\tprintf hi\n\
             hi\n\
             {READY_MARKER}\t0\t/tmp/aish\n\
             user precmd noise\n\
             prompt> \n"
    );

    let parsed = parse_ready_status_output(&raw, false).unwrap();

    assert_eq!(parsed.output, "hi\n");
    assert_eq!(parsed.cwd, "/tmp/aish");
    assert_eq!(parsed.started_command.as_deref(), Some("printf hi"));
}

#[test]
fn parse_ready_status_output_can_filter_fish_repaint_sequences() {
    let raw = format!(
        "{START_MARKER}\tprintf 'fish-ok\\n'\n\
             printf \n\
             \x1b[50C\x1b[?2004l\x1b[?2031l\x1b[>4;0m\x1b>'fish-ok\\n'\n\
             \x1b[61C\x1b[18Dprintf 'fish-ok\\n'\n\
             \x1b[61C\n\
             \x1b[m\n\
             \x1b]0;printf 'fish-ok\\n' ~/aish\x07\x1b[m\n\
             fish-ok\n\
             \x1b[?25h\x1b[2m\u{23ce}\x1b[m\n\
             \u{23ce} \n\
             \x1b[K\x1b]0;~/aish\x07\x1b[m\x1b[?2004h\x1b[?2031h\x1b[>4;1m\x1b=\x1b[K\n\
             \x1b[43C\n\
             {READY_MARKER}\t0\t/tmp/aish\n"
    );

    let parsed = parse_ready_status_output(&raw, true).unwrap();

    assert_eq!(parsed.output, "fish-ok\n");
    assert_eq!(
        parsed.started_command.as_deref(),
        Some("printf 'fish-ok\\n'")
    );
}

#[test]
fn fish_repaint_filter_preserves_plain_output_matching_command_suffix() {
    let raw = format!(
        "{START_MARKER}\tcat common/items.txt | grep beta\n\
             \x1b[50Ccommon/items.txt\n\
             \x1b[50C|\n\
             \x1b[50Cgrep\n\
             \x1b[50Cbeta\n\
             beta\n\
             {READY_MARKER}\t0\t/tmp/aish\n"
    );

    let parsed = parse_ready_status_output(&raw, true).unwrap();

    assert_eq!(parsed.output, "beta\n");
}

#[test]
fn fish_repaint_filter_removes_semicolon_command_fragments() {
    let raw = format!(
        "{START_MARKER}\ttest -f c/i; and echo file-exists\n\
             c/i;\n\
             file-exists\n\
             {READY_MARKER}\t0\t/tmp/aish\n"
    );

    let parsed = parse_ready_status_output(&raw, true).unwrap();

    assert_eq!(parsed.output, "file-exists\n");
}

#[test]
fn fish_repaint_filter_removes_variable_command_fragments() {
    let raw = format!(
        "{START_MARKER}\tprintf '%s\\n' $AISH_FISH_RC_ENV\n\
             $AISH_FISH_RC_ENV\n\
             env-from-fish-config\n\
             {READY_MARKER}\t0\t/tmp/aish\n"
    );

    let parsed = parse_ready_status_output(&raw, true).unwrap();

    assert_eq!(parsed.output, "env-from-fish-config\n");
}

#[test]
fn marker_status_requires_digits_and_line_end() {
    let marker = "__AISH_STATUS__123__";
    assert!(!marker_status_is_complete("hello", marker));
    assert!(!marker_status_is_complete(marker, marker));
    assert!(!marker_status_is_complete("__AISH_STATUS__123__", marker));
    assert!(!marker_status_is_complete(
        "__AISH_STATUS__123__x\n",
        marker
    ));
    assert!(marker_status_is_complete(
        "hello\r\n__AISH_STATUS__123__0\r\n",
        marker
    ));
}

#[test]
fn marker_output_without_marker_is_an_error() {
    let err = parse_marker_output("hello\r\n", "__AISH_STATUS__1__").unwrap_err();
    assert_eq!(err, ShellOutputError::MissingPromptMarker);
    assert_eq!(
        err.message(),
        "backend shell output did not contain prompt marker"
    );
}

#[test]
fn marker_output_with_oversized_status_is_invalid() {
    let marker = "__AISH_STATUS__1__";
    let raw = format!("out\n{marker}99999999999\n");
    assert_eq!(
        parse_marker_output(&raw, marker).unwrap_err(),
        ShellOutputError::InvalidExitStatus
    );
    let raw = format!("out\n{marker}2147483647\n");
    assert_eq!(parse_marker_output(&raw, marker).unwrap().1, 2147483647);
}

#[test]
fn ready_status_without_ready_marker_is_an_error() {
    let raw = format!("{START_MARKER}\techo hi\nhi\n");
    assert_eq!(
        parse_ready_status_output(&raw, false).unwrap_err(),
        ShellOutputError::MissingReadyMarker
    );
}

#[test]
fn ready_status_accepts_negative_status_and_prompt_separator() {
    let raw = format!("{START_MARKER}\tfalse\nno newline\n{READY_MARKER}\t-1\t/tmp\n");
    let parsed = parse_ready_status_output_with_prompt_separator(&raw, false).unwrap();
    assert_eq!(parsed.exit_code, -1);
    assert_eq!(parsed.output, "no newline");
    assert_eq!(parsed.cwd, "/tmp");
}

#[test]
fn normalizes_lone_carriage_returns_and_keeps_complete_lines() {
    assert_eq!(normalize_pty_newlines("a\r\nb\rc\r\r\n"), "a\nb\nc\n\n");
    assert_eq!(complete_normalized_lines("a\nb\npartial"), vec!["a", "b"]);
    assert_eq!(complete_normalized_lines("a\n\n"), vec!["a", ""]);
    assert!(complete_normalized_lines("").is_empty());
}

#[test]
fn complete_marker_offset_is_in_bytes() {
    let marker = "__AISH_STATUS__1__";
    let raw = format!("é{marker}0\n");
    assert_eq!(find_complete_marker(&raw, marker), Some(2));
    assert_eq!(find_complete_marker("é", marker), None);
}

#[test]
fn marker_tokens_are_random_hex() {
    let first = aish::pty::protocol::marker_token("fallback");
    let second = aish::pty::protocol::marker_token("fallback");
    assert_eq!(first.len(), 32);
    assert!(first.chars().all(|c| c.is_ascii_hexdigit() && !c.is_ascii_uppercase()));
    assert_ne!(first, second);
    assert_eq!(
        aish::pty::protocol::next_marker(&first, 7),
        format!("__AISH_STATUS__{first}_7__")
    );
}
