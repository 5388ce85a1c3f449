use aish::pty::launch::{
    fill_shell_init_template, resolve_shell, shell_launch, shell_name, FishSupport,
};
use aish::pty::protocol::READY_MARKER;
use aish::pty::ShellIntegration;

#[test]
fn resolves_configured_shell_before_environment() {
    assert_eq!(resolve_shell("/bin/custom-shell", None), "/bin/custom-shell");
}

#[test]
fn bash_launch_uses_clean_startup_flags() {
    let launch = shell_launch("/bin/bash", None, FishSupport::default());
    assert_eq!(launch.program, "/bin/bash");
    assert_eq!(launch.args, ["-i"]);
    assert_eq!(launch.integration, ShellIntegration::BashPromptCommand);
    assert!(launch.init_command.contains(READY_MARKER));
    assert!(launch.init_command.contains("HISTCONTROL=ignorespace"));
    assert!(launch.init_command.contains("enable-bracketed-paste off"));
    assert!(launch.init_command.contains("__aish_run_prompt_command"));
    assert!(launch.init_command.contains("__aish_emit_ready"));
    assert!(
        launch
            .init_command
            .contains("PROMPT_COMMAND=__aish_emit_ready")
    );
    assert!(launch.init_command.contains("trap - DEBUG"));
}

#[test]
fn non_bash_launch_does_not_receive_bash_only_flags() {
    let launch = shell_launch("/bin/zsh", None, FishSupport::default());
    assert_eq!(launch.program, "/bin/zsh");
    assert_eq!(launch.args, ["-i", "-o", "histignorespace"]);
    assert!(launch.init_command.contains("unsetopt zle"));
    assert!(launch.init_command.contains("add-zsh-hook"));
    assert!(launch.init_command.contains("__aish_preexec"));
    assert!(launch.init_command.contains("__aish_precmd"));
}

#[test]
fn fish_launch_uses_event_functions_after_user_config() {
    let launch = shell_launch("/usr/bin/fish", None, FishSupport::default());
    assert_eq!(launch.program, "/usr/bin/fish");
    if !launch.args.is_empty() {
        assert_eq!(launch.args, ["--features", "no-query-term,no-mark-prompt"]);
    }
    assert_eq!(launch.integration, ShellIntegration::FishEvents);
    assert!(launch.init_command.contains("--on-event fish_preexec"));
    assert!(launch.init_command.contains("function fish_prompt"));
    assert!(!launch.args.contains(&"--noprofile".to_string()));
    assert!(!launch.args.contains(&"--no-config".to_string()));
}

#[test]
fn shell_resolution_falls_back_to_environment_then_bash() {
    assert_eq!(resolve_shell("  auto ", Some(" /bin/zsh ")), "/bin/zsh");
    assert_eq!(resolve_shell("", Some("  ")), "/bin/bash");
    assert_eq!(resolve_shell("auto", None), "/bin/bash");
}

#[test]
fn shell_names_ignore_login_dashes_case_and_exe() {
    assert_eq!(shell_name("/usr/local/bin/-Zsh"), "zsh");
    assert_eq!(shell_name("C:/tools/bash.EXE"), "bash");
    assert_eq!(shell_name(" fish "), "fish");
    assert_eq!(shell_name("/"), "");
}

#[test]
fn init_templates_fill_all_placeholders() {
    let filled = fill_shell_init_template(
        "a @READY_MARKER@ b @START_MARKER@ c >&@CONTROL_FD@ @READY_MARKER@",
        "R",
        None,
        64,
    );
    assert_eq!(filled, "a R b  c >&64 R");
    let launch = shell_launch("/bin/bash", None, FishSupport::default());
    assert!(launch.init_command.contains(&format!("{READY_MARKER}\\t%s\\t%s\\n' \"$__aish_status\" \"$PWD\" >&64")));
    let other = shell_launch("/bin/sh", None, FishSupport::default());
    assert_eq!(other.integration, ShellIntegration::MarkerCommand);
    assert!(other.args.is_empty());
    assert_eq!(
        other.init_command,
        format!("__aish_preserve_status() {{ return \"$1\"; }}; stty -echo; printf '\\n{READY_MARKER}\\t%s\\n' \"$PWD\"\n")
    );
    let fish = shell_launch("fish", None, FishSupport { private_mode: true, features: true });
    assert_eq!(fish.args, ["--private", "--features", "no-query-term,no-mark-prompt"]);
}
