use aish::completion::types::TokenContext;
use aish::completion::parser::{
    command_arguments, current_token_context, is_path_like_token, shell_like_words, split_shell_like_words,
};

#[test]
fn current_token_detects_first_token_prefix() {
    assert_eq!(
        current_token_context("git sta", 3),
        TokenContext {
            start: 0,
            end: 3,
            text: "git".to_string(),
            is_first_token: true,
            quote: None,
            path_like: false,
        }
    );
}

#[test]
fn current_token_detects_non_first_token_at_cursor() {
    assert_eq!(
        current_token_context("git sta", 7),
        TokenContext {
            start: 4,
            end: 7,
            text: "sta".to_string(),
            is_first_token: false,
            quote: None,
            path_like: false,
        }
    );
}

#[test]
fn current_token_keeps_quoted_whitespace_inside_token() {
    assert_eq!(
        current_token_context("echo \"hello wo", 14),
        TokenContext {
            start: 5,
            end: 14,
            text: "\"hello wo".to_string(),
            is_first_token: false,
            quote: Some('"'),
            path_like: false,
        }
    );
}

#[test]
fn current_token_keeps_escaped_whitespace_inside_token() {
    assert_eq!(
        current_token_context("cd my\\ dir/fi", 13),
        TokenContext {
            start: 3,
            end: 13,
            text: "my\\ dir/fi".to_string(),
            is_first_token: false,
            quote: None,
            path_like: true,
        }
    );
}

#[test]
fn current_token_handles_cursor_inside_line() {
    assert_eq!(
        current_token_context("git checkout main", 12),
        TokenContext {
            start: 4,
            end: 12,
            text: "checkout".to_string(),
            is_first_token: false,
            quote: None,
            path_like: false,
        }
    );
}

#[test]
fn path_like_detection_covers_common_shell_path_prefixes() {
    for token in ["/tmp", "./src", "../src", "~/src", "src/main.rs", "'./src"] {
        assert!(is_path_like_token(token), "{token:?} should be path-like");
    }
    for token in ["git", "status", "--flag"] {
        assert!(
            !is_path_like_token(token),
            "{token:?} should not be path-like"
        );
    }
}

#[test]
fn command_arguments_preserve_quoted_argument_spaces() {
    assert_eq!(
        command_arguments("git commit -m 'hello world' -- file"),
        ["commit", "-m", "hello world", "--", "file"]
    );
}

#[test]
fn shell_like_words_remove_quotes_and_escapes_for_matching() {
    assert_eq!(
        split_shell_like_words("cmd a\"b c\"d 'x y'z hello\\ world \"a\\\"b\" \"a\\ b\""),
        ["cmd", "ab cd", "x yz", "hello world", "a\"b", "a\\ b"]
    );
}

#[test]
fn shell_like_words_keep_source_spans_for_raw_replacement() {
    let command = "cmd a\"b c\"d hello\\ world";
    let words = shell_like_words(command);

    assert_eq!(words.len(), 3);
    assert_eq!(words[1].raw, "a\"b c\"d");
    assert_eq!(words[1].value, "ab cd");
    assert_eq!(&command[words[1].start..words[1].end], words[1].raw);
    assert_eq!(words[2].raw, "hello\\ world");
    assert_eq!(words[2].value, "hello world");
    assert_eq!(&command[words[2].start..words[2].end], words[2].raw);
}

#[test]
fn cursor_is_snapped_to_previous_utf8_boundary() {
    assert_eq!(current_token_context("echo λ", 6).end, 5);
}
