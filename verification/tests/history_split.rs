use aish::history::split_logical_commands;

#[test]
fn split_logical_commands_splits_simple_non_empty_lines() {
    let commands = split_logical_commands("\ncd /tmp\n\npwd\n");

    assert_eq!(commands, ["cd /tmp", "pwd"]);
}

#[test]
fn split_logical_commands_preserves_backslash_continuations() {
    let commands = split_logical_commands("echo foo \\\n+bar\npwd");

    assert_eq!(commands, ["echo foo \\\n+bar", "pwd"]);
}

#[test]
fn split_logical_commands_skips_standalone_comments() {
    let commands = split_logical_commands("# comment\npwd\n  # another\necho done");

    assert_eq!(commands, ["pwd", "echo done"]);
}

#[test]
fn split_logical_commands_preserves_inline_hash_content() {
    let commands = split_logical_commands("echo '# not a comment'\necho value # inline");

    assert_eq!(commands, ["echo '# not a comment'", "echo value # inline"]);
}

#[test]
fn split_logical_commands_preserves_single_quoted_newlines() {
    let commands = split_logical_commands("printf 'one\ntwo'\npwd");

    assert_eq!(commands, ["printf 'one\ntwo'", "pwd"]);
}

#[test]
fn split_logical_commands_preserves_double_quoted_newlines() {
    let commands = split_logical_commands("printf \"one\ntwo\"\npwd");

    assert_eq!(commands, ["printf \"one\ntwo\"", "pwd"]);
}

#[test]
fn split_logical_commands_ignores_escaped_quotes() {
    let commands = split_logical_commands("echo \"one \\\"two\\\"\"\npwd");

    assert_eq!(commands, ["echo \"one \\\"two\\\"\"", "pwd"]);
}

#[test]
fn split_logical_commands_preserves_heredoc_blocks() {
    let input = "cat <<EOF\none\ntwo\nEOF\npwd";
    let commands = split_logical_commands(input);

    assert_eq!(commands, ["cat <<EOF\none\ntwo\nEOF", "pwd"]);
}

#[test]
fn split_logical_commands_preserves_quoted_heredoc_delimiter() {
    let input = "cat <<'EOF'\n$literal\nEOF\npwd";
    let commands = split_logical_commands(input);

    assert_eq!(commands, ["cat <<'EOF'\n$literal\nEOF", "pwd"]);
}

#[test]
fn logical_commands_come_trimmed_and_never_empty() {
    let commands = aish::history::split_logical_commands("  echo one  \n\n   \n# note\n  ls \\\n  -la  \n\t\n");
    assert_eq!(commands, ["echo one", "ls \\\n  -la"]);
    for command in &commands {
        assert!(!command.is_empty());
        assert_eq!(command.trim(), command);
    }
}

#[test]
fn split_logical_commands_can_extract_comment_only_notes() {
    let input = "# TODO: ship it\npwd\n  # NOTE: check logs\necho '# TODO: not a note'\n# plain comment\n";

    let (commands, notes) = aish::history::split_logical_commands_and_comment_notes(input);

    assert_eq!(commands, ["pwd", "echo '# TODO: not a note'"]);
    assert_eq!(
        notes,
        [
            (aish::history::NoteTag::Todo, "ship it".to_string()),
            (aish::history::NoteTag::Note, "check logs".to_string())
        ]
    );
}

#[test]
fn comment_notes_need_a_known_tag_and_some_text() {
    let (commands, notes) =
        aish::history::split_logical_commands_and_comment_notes("#FIXME:   tidy up  \n# TODO:\n# todo: lower\n");
    assert!(commands.is_empty());
    assert_eq!(notes, [(aish::history::NoteTag::Fixme, "tidy up".to_string())]);
}
