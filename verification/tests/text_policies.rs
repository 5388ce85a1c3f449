use aish::git_remote::{sanitize_git_remote, valid_git_branch_name, valid_template_remote_name};
use aish::env_name::is_shell_variable_name;
use aish::display_width::{display_width, truncate_end_with_ellipsis, truncate_start_with_ellipsis, visual_position};
use aish::log::{format_recent_events, redact_secrets, EventLevel, EventLogEntry};
use aish::context::{build_contextual_ai_prompt, is_dangerous_context_command, ContextCommandResult};

#[test]
fn git_remote_sanitizer_trims_and_rejects_control_characters() {
    assert_eq!(
        sanitize_git_remote("  git@example.invalid:aish.git  "),
        Some("git@example.invalid:aish.git".to_string())
    );
    assert_eq!(sanitize_git_remote(""), None);
    assert_eq!(sanitize_git_remote("--upload-pack=/tmp/hook"), None);
    assert_eq!(
        sanitize_git_remote("git@example.invalid:aish.git\n--upload-pack=x"),
        None
    );
}

#[test]
fn git_branch_names_reject_invalid_or_option_like_refs() {
    assert!(valid_git_branch_name("main"));
    assert!(valid_git_branch_name("feature/aish-sync"));
    assert!(valid_git_branch_name("release_2026-05"));
    assert!(!valid_git_branch_name(""));
    assert!(!valid_git_branch_name("-main"));
    assert!(!valid_git_branch_name("main lock"));
    assert!(!valid_git_branch_name("main..other"));
    assert!(!valid_git_branch_name(".hidden"));
    assert!(!valid_git_branch_name("feature/.hidden"));
    assert!(!valid_git_branch_name("feature/main.lock"));
    assert!(!valid_git_branch_name("feature//main"));
    assert!(!valid_git_branch_name("main@{1}"));
    assert!(!valid_git_branch_name("main."));
    assert!(!valid_git_branch_name("main\nother"));
}

#[test]
fn template_remote_names_allow_only_stable_path_components() {
    assert!(valid_template_remote_name("shared"));
    assert!(valid_template_remote_name("team-templates_1"));
    assert!(!valid_template_remote_name(""));
    assert!(!valid_template_remote_name("../shared"));
    assert!(!valid_template_remote_name("shared remote"));
}

#[test]
fn shell_variable_names_match_shell_assignment_shape() {
    assert!(is_shell_variable_name("OPENAI_API_KEY"));
    assert!(is_shell_variable_name("_AISH_SECRET"));
    assert!(!is_shell_variable_name(""));
    assert!(!is_shell_variable_name("1BAD"));
    assert!(!is_shell_variable_name("BAD-NAME"));
    assert!(!is_shell_variable_name("BAD NAME"));
}

#[test]
fn visual_position_wraps_full_width_characters() {
    assert_eq!(visual_position("> ab", 4), (1, 0));
    assert_eq!(visual_position("> a中b", 6), (1, 0));
    assert_eq!(visual_position("> a中", 6), (0, 5));
}

#[test]
fn visual_position_wraps_before_full_width_character_that_does_not_fit() {
    assert_eq!(visual_position("abc中", 4), (1, 2));
}

#[test]
fn display_width_counts_cjk_as_full_width() {
    assert_eq!(display_width("abc"), 3);
    assert_eq!(display_width("中文"), 4);
    assert_eq!(display_width("a中b"), 4);
    assert_eq!(display_width("ＡＢ"), 4);
    assert_eq!(display_width("a\t中"), 4);
}

#[test]
fn truncates_to_display_width() {
    assert_eq!(truncate_end_with_ellipsis("中abcd", 5), "中...");
    assert_eq!(display_width(&truncate_end_with_ellipsis("中abcd", 5)), 5);
    assert_eq!(truncate_start_with_ellipsis("abcd中", 5), "...中");
    assert_eq!(display_width(&truncate_start_with_ellipsis("abcd中", 5)), 5);
}

#[test]
fn format_recent_events_keeps_latest_count() {
    let events = vec![
        EventLogEntry {
            t: 1,
            level: EventLevel::Info,
            msg: "one".to_string(),
        },
        EventLogEntry {
            t: 2,
            level: EventLevel::Warn,
            msg: "two".to_string(),
        },
    ];

    assert_eq!(format_recent_events(&events, 1), vec!["2\tWarn\ttwo"]);
}

#[test]
fn redact_secrets_masks_common_token_shapes() {
    assert_eq!(
        redact_secrets("failed with sk-test ghp_abc github_pat_xyz safe"),
        "failed with [redacted] [redacted] [redacted] safe"
    );
}

#[test]
fn dangerous_context_command_detection_catches_destructive_patterns() {
    assert!(is_dangerous_context_command("rm -rf /tmp/example"));
    assert!(is_dangerous_context_command("sudo cat /etc/passwd"));
    assert!(is_dangerous_context_command(
        "diskutil eraseDisk FAT32 X /dev/disk9"
    ));
    assert!(!is_dangerous_context_command("git status --short"));
}

#[test]
fn contextual_ai_prompt_discloses_truncation() {
    let prompt = build_contextual_ai_prompt(
        "explain this",
        "printf hello",
        &ContextCommandResult {
            output: "hell".to_string(),
            exit_code: Some(0),
            truncated: true,
        },
    );

    assert!(prompt.contains("User prompt:\nexplain this"));
    assert!(prompt.contains("Context command:\nprintf hello"));
    assert!(prompt.contains("Context output truncated to configured byte limit"));
}

#[test]
fn contextual_ai_prompt_redacts_common_secret_shapes() {
    let prompt = build_contextual_ai_prompt(
        "explain this",
        "printf sk-command-secret",
        &ContextCommandResult {
            output: "token sk-output-secret ghp_output".to_string(),
            exit_code: Some(0),
            truncated: false,
        },
    );

    assert!(prompt.contains("Context command:\nprintf [redacted]"));
    assert!(prompt.contains("token [redacted] [redacted]"));
    assert!(!prompt.contains("sk-command-secret"));
    assert!(!prompt.contains("sk-output-secret"));
    assert!(!prompt.contains("ghp_output"));
}
