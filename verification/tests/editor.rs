use aish::config::model::EditorConfig;
use aish::editor::{
    editor_invocation, resolve_editor_command, split_editor_command, EditorCommand,
    EditorError, PreparedEditorSession,
};

fn no_command() -> EditorConfig {
    EditorConfig {
        command: Vec::new(),
        execute_after_save: false,
    }
}

#[test]
fn resolve_editor_prefers_config_command() {
    let config = EditorConfig {
        command: vec!["nvim".to_string(), "--clean".to_string()],
        execute_after_save: false,
    };
    let command = resolve_editor_command(&config, Some("code"), None, &[true, true, true]).unwrap();
    assert_eq!(command.argv, ["nvim", "--clean"]);
}

#[test]
fn resolve_editor_uses_visual_before_editor() {
    let command =
        resolve_editor_command(&no_command(), Some("code --wait"), Some("vim"), &[false, false, false]).unwrap();
    assert_eq!(command.argv, ["code", "--wait"]);
}

#[test]
fn resolve_editor_falls_back_to_path_candidates() {
    let command = resolve_editor_command(&no_command(), None, None, &[false, false, true]).unwrap();
    assert_eq!(command.argv, ["vi"]);
    assert!(resolve_editor_command(&no_command(), Some("  "), None, &[false, false, false]).is_none());
    let command = resolve_editor_command(&no_command(), Some("  "), Some("emacs -nw"), &[true, true, true]).unwrap();
    assert_eq!(command.argv, ["emacs", "-nw"]);
}

#[test]
fn run_editor_command_rejects_empty_argv() {
    let session = PreparedEditorSession {
        path: "/tmp/aish-edit.sh".to_string(),
    };
    let command = EditorCommand { argv: Vec::new() };
    let error = editor_invocation(&command, &session).unwrap_err();
    assert_eq!(error, EditorError::EmptyCommand);
    assert!(error.message().contains("editor command is empty"));
}

#[test]
fn editor_invocation_appends_the_session_file() {
    let session = PreparedEditorSession {
        path: "/tmp/aish-edit.sh".to_string(),
    };
    let command = EditorCommand {
        argv: vec!["code".to_string(), "--wait".to_string()],
    };
    assert_eq!(
        editor_invocation(&command, &session).unwrap(),
        ["code", "--wait", "/tmp/aish-edit.sh"]
    );
    assert_eq!(split_editor_command(" a  b\t"), Some(vec!["a".to_string(), "b".to_string()]));
    assert_eq!(split_editor_command(" \n "), None);
}
