use aish::pty::protocol::{READY_MARKER, START_MARKER};
use aish::pty::syntax::{input_needs_more_lines, lexical_continuation_check};
use aish::pty::{
    command_result_from_control, command_result_from_ready_output, default_pty_size, output_from_control_raw, parse_control_event,
    parse_u16, passthrough_backend_command, pty_size, shell_event_backend_command,
    wrap_multiline_shell_event_command, ControlEvent, ControlReady, PtyReadTarget, ShellIntegration,
};

#[test]
fn bash_syntax_check_detects_incomplete_input_without_hanging() {
    let continued = input_needs_more_lines("/bin/bash", "echo aa \\");
    assert!(continued.needs_more);
    assert_eq!(continued.prompt.as_deref(), Some("> "));

    let unclosed = input_needs_more_lines("/bin/bash", "echo \"");
    assert!(unclosed.needs_more);
    assert_eq!(unclosed.prompt.as_deref(), Some("dquote> "));

    let single = input_needs_more_lines("/bin/bash", "echo '");
    assert!(single.needs_more);
    assert_eq!(single.prompt.as_deref(), Some("quote> "));

    let complete = input_needs_more_lines("/bin/bash", "echo \"ok\"");
    assert!(!complete.needs_more);
    assert!(complete.prompt.is_none());
}

#[test]
fn zsh_syntax_check_detects_incomplete_input_without_hanging() {
    let unclosed = input_needs_more_lines("/bin/zsh", "echo \"");
    assert!(unclosed.needs_more);
    assert_eq!(unclosed.prompt.as_deref(), Some("dquote> "));

    let complete = input_needs_more_lines("/bin/zsh", "echo \"ok\"");
    assert!(!complete.needs_more);
}

#[test]
fn lexical_check_handles_escapes_inside_quotes() {
    assert!(!lexical_continuation_check("echo 'a\\'").needs_more);
    assert!(lexical_continuation_check("echo \"a\\\"").needs_more);
    assert!(!lexical_continuation_check("echo aa \\\\").needs_more);
}

#[test]
fn control_events_are_parsed() {
    assert_eq!(
        parse_control_event(&format!("{START_MARKER}\techo hi\r\n")),
        Some(ControlEvent::Start("echo hi".to_string()))
    );
    assert_eq!(
        parse_control_event(&format!("{READY_MARKER}\t 3 \t/tmp/x \n")),
        Some(ControlEvent::Ready {
            exit_code: 3,
            cwd: "/tmp/x".to_string()
        })
    );
    assert_eq!(parse_control_event(&format!("{READY_MARKER}\t3")), None);
    assert_eq!(parse_control_event(&format!("{READY_MARKER}\tx\t/tmp")), None);
    assert_eq!(parse_control_event(&format!("{READY_MARKER}\t0\t  ")), None);
    assert_eq!(parse_control_event("noise"), None);
}

#[test]
fn terminal_size_comes_from_positive_numbers() {
    let size = default_pty_size(Some("120"), Some("40"));
    assert_eq!((size.cols, size.rows), (120, 40));
    let size = default_pty_size(Some("0"), Some("abc"));
    assert_eq!((size.cols, size.rows), (80, 24));
    let size = default_pty_size(None, Some("+30"));
    assert_eq!((size.cols, size.rows), (80, 30));
    assert_eq!(parse_u16("65536"), None);
    assert_eq!(parse_u16("-1"), None);
    assert_eq!(pty_size(10, 5).pixel_width, 0);
}

#[test]
fn multiline_commands_are_wrapped_per_shell() {
    assert_eq!(
        wrap_multiline_shell_event_command(ShellIntegration::ZshHooks, "a\nb"),
        "{\na\nb\n}"
    );
    assert_eq!(
        wrap_multiline_shell_event_command(ShellIntegration::FishEvents, "a\nb"),
        "begin\na\nb\nend"
    );
    assert_eq!(
        shell_event_backend_command(ShellIntegration::FishEvents, "one line\n\n"),
        "one line"
    );
    assert_eq!(
        passthrough_backend_command(ShellIntegration::BashPromptCommand, "vim\n"),
        " stty echo; {\nvim\n}; __aish_passthrough_status=$?; stty -echo; __aish_preserve_status \"$__aish_passthrough_status\""
    );
    assert!(ShellIntegration::BashPromptCommand.shell_events_require_marker_for("a\nb"));
    assert!(!ShellIntegration::FishEvents.shell_events_require_marker_for("a\nb"));
}

#[test]
fn control_output_and_result() {
    assert_eq!(output_from_control_raw("\r\n\r\nhi\r\n", None, false), "hi\n");
    assert_eq!(output_from_control_raw("\nfish-ok\n\n", None, true), "fish-ok\n");
    let result = command_result_from_control(
        "echo hi\n",
        "echo hi\n",
        "hi\r\n",
        ControlReady {
            exit_code: 0,
            cwd: "/tmp".to_string(),
            started_command: None,
        },
        false,
    );
    assert_eq!(result.command, "echo hi");
    assert_eq!(result.started_command.as_deref(), Some("echo hi"));
    assert_eq!(result.output, "hi\n");
    assert_eq!(result.cwd.as_deref(), Some("/tmp"));
}

#[test]
fn read_targets_check_markers_in_bytes() {
    let target = PtyReadTarget::Marker {
        marker: "__AISH_STATUS__1__",
    };
    assert!(target.is_complete(b"out\n__AISH_STATUS__1__0\n"));
    assert!(!target.is_complete(b"out\n__AISH_STATUS__1__"));
    let ready = PtyReadTarget::Ready;
    assert!(ready.is_complete(format!("{READY_MARKER}\t/tmp\n").as_bytes()));
    assert!(!ready.is_complete(format!("{READY_MARKER}\t/tmp").as_bytes()));
}

#[test]
fn ready_output_gives_the_command_result() {
    let raw = format!("{START_MARKER}\techo hello\nhello\n{READY_MARKER}\t7\t/tmp/aish\n");
    let result = command_result_from_ready_output("echo hello\n", "echo hello\n", ShellIntegration::ZshHooks, &raw).unwrap();
    assert_eq!(result.command, "echo hello");
    assert_eq!(result.started_command, Some("echo hello".to_string()));
    assert_eq!(result.output, "hello\n");
    assert_eq!(result.exit_code, 7);
    assert_eq!(result.cwd, Some("/tmp/aish".to_string()));

    let wrapped = command_result_from_ready_output("echo hello", "{ echo hello; }", ShellIntegration::ZshHooks, &raw).unwrap();
    assert_eq!(wrapped.started_command, Some("echo hello".to_string()));
    assert_eq!(wrapped.command, "echo hello");
}

#[test]
fn ready_output_without_status_is_an_error() {
    let raw = format!("{START_MARKER}\techo hello\nhello\n");
    assert!(command_result_from_ready_output("echo hello", "echo hello", ShellIntegration::ZshHooks, &raw).is_err());
}

#[test]
fn incomplete_shell_syntax_detection_uses_shell_error_text() {
    assert!(aish::pty::syntax::is_incomplete_shell_syntax(
        "bash: unexpected EOF while looking for matching `\"'"
    ));
    assert!(aish::pty::syntax::is_incomplete_shell_syntax("zsh: parse error: unmatched \""));
    assert!(!aish::pty::syntax::is_incomplete_shell_syntax(
        "syntax error near unexpected token `fi'"
    ));
}

#[test]
fn line_continuation_detects_odd_trailing_backslashes() {
    assert!(aish::pty::syntax::ends_with_shell_line_continuation("echo aa \\"));
    assert!(!aish::pty::syntax::ends_with_shell_line_continuation("echo aa \\\\"));
    assert!(!aish::pty::syntax::ends_with_shell_line_continuation("echo aa"));
}

#[test]
fn control_lines_are_drained_up_to_the_last_line_break() {
    let mut pending = format!("{START_MARKER}\techo hi\nnoise\n{READY_MARKER}\t3\t/tmp/work\n{READY_MARKER}\t0").into_bytes();
    let events = aish::pty::drain_control_events(&mut pending);
    assert_eq!(
        events,
        [
            ControlEvent::Start("echo hi".to_string()),
            ControlEvent::Ready { exit_code: 3, cwd: "/tmp/work".to_string() },
        ]
    );
    assert_eq!(pending, format!("{READY_MARKER}\t0").into_bytes());
}

#[test]
fn the_first_ready_event_finishes_the_started_command() {
    let mut started = None;
    let none = aish::pty::next_control_ready(&mut started, vec![ControlEvent::Start("ls".to_string())]);
    assert!(none.is_none());
    assert_eq!(started, Some("ls".to_string()));

    let ready = aish::pty::next_control_ready(
        &mut started,
        vec![
            ControlEvent::Ready { exit_code: 0, cwd: "/tmp".to_string() },
            ControlEvent::Start("later".to_string()),
        ],
    )
    .unwrap();
    assert_eq!(ready.exit_code, 0);
    assert_eq!(ready.cwd, "/tmp");
    assert_eq!(ready.started_command, Some("ls".to_string()));
    assert_eq!(started, None);

    let mut blank = Some("old".to_string());
    let finished = aish::pty::next_control_ready(
        &mut blank,
        vec![ControlEvent::Start(String::new()), ControlEvent::Ready { exit_code: 1, cwd: "/".to_string() }],
    )
    .unwrap();
    assert_eq!(finished.started_command, None);
}
