use aish::input::InputBuffer;

#[test]
fn inserts_and_edits_in_middle() {
    let mut buffer = InputBuffer::from("git stus");
    buffer.move_left();
    buffer.move_left();
    buffer.insert_char('a');
    buffer.insert_char('t');
    assert_eq!(buffer.as_str(), "git status");
    assert_eq!(buffer.cursor(), 8);
}

#[test]
fn backspace_and_delete_are_utf8_safe() {
    let mut buffer = InputBuffer::from("aλb");
    buffer.move_left();
    assert!(buffer.backspace());
    assert_eq!(buffer.as_str(), "ab");
    assert!(buffer.delete());
    assert_eq!(buffer.as_str(), "a");
}

#[test]
fn control_deletion_matches_readline_basics() {
    let mut buffer = InputBuffer::from("cargo test --all");
    assert!(buffer.delete_previous_word());
    assert_eq!(buffer.as_str(), "cargo test ");
    buffer.delete_to_start();
    assert_eq!(buffer.as_str(), "");

    let mut buffer = InputBuffer::from("cargo test --all");
    buffer.move_previous_word();
    buffer.delete_to_end();
    assert_eq!(buffer.as_str(), "cargo test ");
}

#[test]
fn drain_range_removes_byte_span_and_moves_cursor_to_start() {
    let mut buffer = InputBuffer::from("echo {name} now");

    assert!(buffer.drain_range(5, 12));

    assert_eq!(buffer.as_str(), "echo now");
    assert_eq!(buffer.cursor(), 5);
}

#[test]
fn word_navigation_skips_tokens() {
    let mut buffer = InputBuffer::from("git commit -m test");
    buffer.move_start();
    assert!(buffer.move_next_word());
    assert_eq!(buffer.cursor(), 4);
    assert!(buffer.move_next_word());
    assert_eq!(buffer.cursor(), 11);
    assert!(buffer.move_previous_word());
    assert_eq!(buffer.cursor(), 4);
}
