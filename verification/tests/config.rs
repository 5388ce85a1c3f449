use aish::config::model::{
    AiConfig, CompletionConfig, CompletionMode, CompletionTabAccept, Config, ContextConfig, DraftConfig,
    EditorConfig, EncryptionConfig, EncryptionStartupUnlockMode, PasteConfig, PromptConfig, ShellConfig,
    StorageConfig, SyncConfig, TemplateRemoteConfig, TemplateSharingConfig,
};
use aish::config::normalize::normalize_config;

#[test]
fn default_config_matches_spec_basics() {
    let config = Config::default();
    assert_eq!(config.shell.backend, "auto");
    assert_eq!(config.prompt.draft, "{user}@{host} {cwd} > ");
    assert_eq!(config.prompt.history, "{user}@{host} {cwd} $ ");
    assert_eq!(config.prompt.ai, "{user}@{host} {cwd} % ");
    assert!(config.draft.persist);
    assert!(!config.draft.sync);
    assert!(config.editor.command.is_empty());
    assert!(!config.editor.execute_after_save);
    assert_eq!(config.paste.multiline, "editor");
    assert!(config.paste.confirm_execute);
    assert!(config.paste.preview);
    assert_eq!(config.paste.preview_lines, 3);
    assert_eq!(config.paste.preview_bytes, 240);
    assert_eq!(config.completion.max_results, 5);
    assert!(config.completion.enabled);
    assert_eq!(config.completion.coalesce_ms, 50);
    assert_eq!(config.completion.display_delay_ms, 120);
    assert!(config.completion.ignore_spaces);
    assert!(config.completion.template_first);
    assert!(config.completion.inline);
    assert!(config.completion.fuzzy);
    assert_eq!(config.completion.mode(), CompletionMode::Auto);
    assert_eq!(config.completion.tab_accept, CompletionTabAccept::Word);
    assert_eq!(config.completion.match_threshold_percent, 50);
    assert_eq!(config.completion.typo_threshold_percent, 80);
    assert_eq!(config.ai, AiConfig::default());
    assert_eq!(config.context, ContextConfig::default());
    assert_eq!(config.encryption, EncryptionConfig::default());
    assert_eq!(config.sync, SyncConfig::default());

    let mut normalized = config.clone();
    normalize_config(&mut normalized, "/home/user/.aish");
    assert!(normalized.storage.home.ends_with(".aish"));
}

#[test]
fn normalize_replaces_empty_values() {
    let mut config = Config {
        shell: ShellConfig { backend: "   ".to_string() },
        prompt: PromptConfig { draft: String::new(), history: String::new(), ai: String::new() },
        storage: StorageConfig { home: String::new() },
        draft: DraftConfig::default(),
        editor: EditorConfig { command: vec![String::new(), "vim".to_string()], execute_after_save: false },
        paste: PasteConfig {
            multiline: "unknown".to_string(),
            confirm_execute: true,
            preview: true,
            preview_lines: 0,
            preview_bytes: 4_097,
        },
        completion: CompletionConfig {
            mode: None,
            enabled: true,
            max_results: 0,
            coalesce_ms: 1_001,
            display_delay_ms: 1_001,
            ignore_spaces: true,
            template_first: true,
            inline: true,
            fuzzy: true,
            tab_accept: CompletionTabAccept::Full,
            match_threshold_percent: 101,
            typo_threshold_percent: 101,
        },
        ai: AiConfig {
            model: "  gpt-test  ".to_string(),
            base_url: "  https://example.invalid/v1  ".to_string(),
            env_key: "  OPENAI_API_KEY  ".to_string(),
            api_key_override: Some("must-not-persist".to_string()),
        },
        context: ContextConfig { enabled: false, confirm: false, max_bytes: 0 },
        encryption: EncryptionConfig {
            enabled: true,
            key_fingerprint: "  ABCDEF0123456789ABCDEF0123456789ABCDEF01  ".to_string(),
            startup_unlock: EncryptionStartupUnlockMode::Prompt,
            recipient: "  test@example.invalid  ".to_string(),
        },
        sync: SyncConfig {
            remote: "  git@example.invalid:aish.git  ".to_string(),
            enabled: true,
            schedule: "  0 * * * *  ".to_string(),
            startup: true,
            exit: false,
            ai: true,
            history: false,
            templates: true,
            drafts: false,
        },
        template_sharing: TemplateSharingConfig {
            remotes: vec![
                TemplateRemoteConfig {
                    name: "  shared  ".to_string(),
                    remote: "  git@example.invalid:templates.git  ".to_string(),
                },
                TemplateRemoteConfig {
                    name: "   ".to_string(),
                    remote: "git@example.invalid:empty-name.git".to_string(),
                },
                TemplateRemoteConfig {
                    name: "../bad".to_string(),
                    remote: "git@example.invalid:bad.git".to_string(),
                },
                TemplateRemoteConfig {
                    name: "shared".to_string(),
                    remote: "git@example.invalid:duplicate.git".to_string(),
                },
                TemplateRemoteConfig {
                    name: "badremote".to_string(),
                    remote: "git@example.invalid:bad.git\n--upload-pack=x".to_string(),
                },
            ],
        },
    };

    normalize_config(&mut config, "/home/user/.aish");

    let mut expected = Config::default();
    expected.storage.home = "/home/user/.aish".to_string();
    expected.editor.command = vec!["vim".to_string()];
    expected.ai = AiConfig {
        model: "gpt-test".to_string(),
        base_url: "https://example.invalid/v1".to_string(),
        env_key: "OPENAI_API_KEY".to_string(),
        api_key_override: None,
    };
    expected.context = ContextConfig { enabled: false, confirm: false, max_bytes: 65_536 };
    expected.encryption = EncryptionConfig {
        enabled: true,
        key_fingerprint: "ABCDEF0123456789ABCDEF0123456789ABCDEF01".to_string(),
        startup_unlock: EncryptionStartupUnlockMode::Prompt,
        recipient: "test@example.invalid".to_string(),
    };
    expected.completion.match_threshold_percent = 50;
    expected.completion.typo_threshold_percent = 80;
    expected.completion.coalesce_ms = 50;
    expected.completion.display_delay_ms = 120;
    expected.completion.tab_accept = CompletionTabAccept::Full;
    expected.sync = SyncConfig {
        remote: "git@example.invalid:aish.git".to_string(),
        enabled: true,
        schedule: "0 * * * *".to_string(),
        startup: true,
        exit: false,
        ai: true,
        history: false,
        templates: true,
        drafts: false,
    };
    expected.template_sharing = TemplateSharingConfig {
        remotes: vec![TemplateRemoteConfig {
            name: "shared".to_string(),
            remote: "git@example.invalid:templates.git".to_string(),
        }],
    };
    assert_eq!(config, expected);
}

#[test]
fn normalize_trims_configured_shell_backend() {
    let mut config = Config::default();
    config.shell.backend = "  /usr/local/bin/fish  ".to_string();

    normalize_config(&mut config, "/home/user/.aish");

    assert_eq!(config.shell.backend, "/usr/local/bin/fish");
}

#[test]
fn aish_home_environment_overrides_default_root() {
    let root = aish::config::paths::default_aish_dir(Some("/tmp/custom-aish"), Some("/home/user"));
    assert_eq!(root, "/tmp/custom-aish");
    assert_eq!(
        aish::config::paths::default_aish_dir(Some("  "), Some("/home/user")),
        "/home/user/.aish"
    );
    assert_eq!(aish::config::paths::default_aish_dir(None, None), "./.aish");
}

#[test]
fn runtime_aish_dir_rejects_missing_home() {
    let err = aish::config::paths::runtime_aish_dir(None, Some("")).unwrap_err();
    assert!(err
        .message()
        .contains("AISH_HOME or HOME must be set to an absolute path"));
    assert_eq!(
        aish::config::paths::runtime_aish_dir(None, None).unwrap_err(),
        aish::config::paths::AishDirError::MissingHome
    );
}

#[test]
fn runtime_aish_dir_empty_aish_home_falls_back_to_home() {
    let root = aish::config::paths::runtime_aish_dir(Some(""), Some("/tmp/home")).unwrap();
    assert_eq!(root, "/tmp/home/.aish");
}

#[test]
fn runtime_aish_dir_rejects_relative_aish_home() {
    let err = aish::config::paths::runtime_aish_dir(Some("relative-aish"), Some("/tmp")).unwrap_err();
    assert!(err.message().contains("AISH_HOME must be set to an absolute path"));
    assert_eq!(
        aish::config::paths::runtime_aish_dir(Some(" /abs/aish "), None).unwrap(),
        "/abs/aish"
    );
}

#[test]
fn directory_layout_places_files_under_root() {
    let layout = aish::config::paths::DirectoryLayout::new("/r/");
    assert_eq!(layout.config, "/r/config.toml");
    assert_eq!(layout.regular_history, "/r/history/regular.jsonl");
    assert_eq!(layout.runtime_cache, "/r/cache/runtime");
    assert_eq!(layout.gitignore, "/r/.gitignore");
}

#[test]
fn tab_accept_settings_parse_with_blank_meaning_word() {
    let parse = aish::config::model::CompletionTabAccept::parse;
    assert_eq!(parse(" full "), Some(aish::config::model::CompletionTabAccept::Full));
    assert_eq!(parse("word"), Some(aish::config::model::CompletionTabAccept::Word));
    assert_eq!(parse("   "), Some(aish::config::model::CompletionTabAccept::Word));
    assert_eq!(parse("line"), None);
}

#[test]
fn normalizing_a_normalized_config_changes_nothing() {
    let mut config = aish::config::model::Config::default();
    config.shell.backend = "  ".to_string();
    config.ai.model = "  gpt-test ".to_string();
    config.sync.remote = "  git@example.invalid:aish.git ".to_string();
    config.editor.command = vec![String::new(), "vim".to_string()];
    config.template_sharing.remotes = vec![
        aish::config::model::TemplateRemoteConfig { name: " shared ".to_string(), remote: "git@example.invalid:t.git".to_string() },
        aish::config::model::TemplateRemoteConfig { name: "shared".to_string(), remote: "git@example.invalid:dup.git".to_string() },
    ];
    normalize_config(&mut config, "/home/me/.aish");
    let once = config.clone();
    normalize_config(&mut config, "/home/me/.aish");
    assert_eq!(config, once);
    assert_eq!(once.template_sharing.remotes.len(), 1);
}
