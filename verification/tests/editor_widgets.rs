use aish::keybindings::default_keybindings;
use aish::modes::Mode;
use aish::paste::preview_lines;
use aish::picker::{apply_picker_result, shell_quote, PickerAction, PickerEdit};

#[test]
fn default_keybindings_include_common_and_advanced_bindings() {
    let keys: Vec<_> = default_keybindings()
        .iter()
        .map(|binding| binding.key)
        .collect();

    for expected in [
        "Ctrl-C",
        "Ctrl-D",
        "Ctrl-L",
        "Ctrl-A",
        "Ctrl-E",
        "Ctrl-U",
        "Ctrl-K",
        "Ctrl-W",
        "Alt-Backspace",
        "Alt-D / Alt-Delete",
        "Alt-B / Alt-Left",
        "Alt-F / Alt-Right",
        "Tab",
        "Esc",
        "Up / Down",
        "Ctrl-R",
        "Ctrl-X Ctrl-E",
        "Ctrl-X Ctrl-F",
        "Ctrl-X Ctrl-T",
        "Ctrl-X Ctrl-B",
        "Ctrl-X Ctrl-V",
    ] {
        assert!(keys.contains(&expected));
    }
}

#[test]
fn default_keybindings_distinguish_implemented_and_reserved_bindings() {
    let bindings = default_keybindings();

    assert!(
        bindings
            .iter()
            .find(|binding| binding.key == "Ctrl-C")
            .unwrap()
            .implemented
    );
    assert!(
        bindings
            .iter()
            .find(|binding| binding.key == "Esc")
            .unwrap()
            .implemented
    );
    assert!(
        bindings
            .iter()
            .find(|binding| binding.key == "Ctrl-R")
            .unwrap()
            .implemented
    );
    assert!(
        bindings
            .iter()
            .find(|binding| binding.key == "Ctrl-X Ctrl-E")
            .unwrap()
            .implemented
    );
}

#[test]
fn primary_modes_cycle_deterministically() {
    let modes = [
        Mode::Draft,
        Mode::Draft.next_primary(),
        Mode::Draft.next_primary().next_primary(),
        Mode::Draft.next_primary().next_primary().next_primary(),
    ];
    assert_eq!(modes, [Mode::Draft, Mode::History, Mode::Ai, Mode::Draft]);
}

#[test]
fn primary_mode_symbols_match_spec() {
    assert_eq!(Mode::Draft.symbol(), '>');
    assert_eq!(Mode::History.symbol(), '$');
    assert_eq!(Mode::Ai.symbol(), '%');
}

#[test]
fn preview_lines_limits_lines_and_marks_truncation() {
    assert_eq!(
        preview_lines("one\ntwo\nthree", 2, 100),
        [
            "one".to_string(),
            "two".to_string(),
            "... preview truncated; Ctrl-X Ctrl-E opens the full paste".to_string()
        ]
    );
}

#[test]
fn preview_lines_limits_bytes_at_char_boundaries() {
    assert_eq!(
        preview_lines("echo cafe\nnext", 5, 6),
        [
            "echo c".to_string(),
            "... preview truncated; Ctrl-X Ctrl-E opens the full paste".to_string()
        ]
    );
    assert_eq!(
        preview_lines("echo cafe\nnext", 5, 7),
        [
            "echo ca".to_string(),
            "... preview truncated; Ctrl-X Ctrl-E opens the full paste".to_string()
        ]
    );
}

#[test]
fn preview_lines_escapes_control_characters() {
    assert_eq!(
        preview_lines("printf '\x1b[31m'\t# red", 3, 100),
        ["printf '\\x1b[31m'\\t# red".to_string()]
    );
}

#[test]
fn shell_quote_leaves_safe_values_unquoted() {
    assert_eq!(shell_quote("src/main.rs"), "src/main.rs");
    assert_eq!(shell_quote("KEY=value"), "KEY=value");
}

#[test]
fn shell_quote_quotes_spaces_and_embedded_single_quotes() {
    assert_eq!(shell_quote("my file.txt"), "'my file.txt'");
    assert_eq!(shell_quote("it's.txt"), "'it'\\''s.txt'");
    assert_eq!(shell_quote(""), "''");
}

#[test]
fn picker_insert_at_cursor_inserts_quoted_value() {
    assert_eq!(
        apply_picker_result("cat ", 4, "my file.txt", PickerAction::InsertAtCursor),
        PickerEdit {
            line: "cat 'my file.txt'".to_string(),
            cursor: 17,
        }
    );
}

#[test]
fn picker_replace_current_token_replaces_token_under_cursor() {
    assert_eq!(
        apply_picker_result(
            "cat old.txt --raw",
            5,
            "new file.txt",
            PickerAction::ReplaceCurrentToken
        ),
        PickerEdit {
            line: "cat 'new file.txt' --raw".to_string(),
            cursor: 18,
        }
    );
}

#[test]
fn picker_append_as_argument_adds_separator_when_needed() {
    assert_eq!(
        apply_picker_result("git add", 7, "src/main.rs", PickerAction::AppendAsArgument),
        PickerEdit {
            line: "git add src/main.rs".to_string(),
            cursor: 19,
        }
    );
}

#[test]
fn picker_replace_line_replaces_everything() {
    assert_eq!(
        apply_picker_result("old command", 3, "new command", PickerAction::ReplaceLine),
        PickerEdit {
            line: "'new command'".to_string(),
            cursor: 13,
        }
    );
}
