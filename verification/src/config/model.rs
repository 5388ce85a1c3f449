//! The configuration and its defaults.
use vstd::prelude::*;
use crate::text::{chars_eq, str_chars, trim, trim_chars};

verus! {

broadcast use vstd::string::group_string_axioms;

#[derive(Debug, Clone, PartialEq, Eq)]
pub struct Config {
    pub shell: ShellConfig,
    pub prompt: PromptConfig,
    pub storage: StorageConfig,
    pub draft: DraftConfig,
    pub editor: EditorConfig,
    pub paste: PasteConfig,
    pub completion: CompletionConfig,
    pub ai: AiConfig,
    pub context: ContextConfig,
    pub encryption: EncryptionConfig,
    pub sync: SyncConfig,
    pub template_sharing: TemplateSharingConfig,
}

#[derive(Debug, Clone, PartialEq, Eq)]
pub struct ShellConfig {
    pub backend: String,
}

#[derive(Debug, Clone, PartialEq, Eq)]
pub struct PromptConfig {
    pub draft: String,
    pub history: String,
    pub ai: String,
}

/// Where the shell keeps its files; an empty `home` is filled in with the
/// platform default when the configuration is normalized.
#[derive(Debug, Clone, PartialEq, Eq)]
pub struct StorageConfig {
    pub home: String,
}

#[derive(Debug, Clone, Copy, PartialEq, Eq)]
pub struct DraftConfig {
    pub persist: bool,
    pub sync: bool,
}

#[derive(Debug, Clone, PartialEq, Eq)]
pub struct EditorConfig {
    pub command: Vec<String>,
    pub execute_after_save: bool,
}

#[derive(Debug, Clone, PartialEq, Eq)]
pub struct PasteConfig {
    pub multiline: String,
    pub confirm_execute: bool,
    pub preview: bool,
    pub preview_lines: usize,
    pub preview_bytes: usize,
}

#[derive(Debug, Clone, Copy, PartialEq, Eq)]
pub struct CompletionConfig {
    pub mode: Option<CompletionMode>,
    pub enabled: bool,
    pub max_results: usize,
    pub coalesce_ms: u64,
    pub display_delay_ms: u64,
    pub ignore_spaces: bool,
    pub template_first: bool,
    pub inline: bool,
    pub fuzzy: bool,
    pub tab_accept: CompletionTabAccept,
    pub match_threshold_percent: usize,
    pub typo_threshold_percent: usize,
}

#[derive(Debug, Clone, Copy, PartialEq, Eq, Structural)]
pub enum CompletionMode {
    Auto,
    Tab,
    Off,
}

impl CompletionMode {
    pub open spec fn name(self) -> Seq<char> {
        match self {
            CompletionMode::Auto => "auto"@,
            CompletionMode::Tab => "tab"@,
            CompletionMode::Off => "off"@,
        }
    }

    pub fn as_str(self) -> (r: &'static str)
        ensures
            r@ == self.name(),
    {
        match self {
            CompletionMode::Auto => "auto",
            CompletionMode::Tab => "tab",
            CompletionMode::Off => "off",
        }
    }
}

impl CompletionConfig {
    /// The mode in force: the explicit one, else the one the older
    /// `enabled` and `inline` switches describe.
    pub open spec fn effective_mode(self) -> CompletionMode {
        match self.mode {
            Some(m) => m,
            None => if !self.enabled {
                CompletionMode::Off
            } else if self.inline {
                CompletionMode::Auto
            } else {
                CompletionMode::Tab
            },
        }
    }

    pub fn mode(&self) -> (r: CompletionMode)
        ensures
            r == self.effective_mode(),
    {
        match self.mode {
            Some(m) => m,
            None => if !self.enabled {
                CompletionMode::Off
            } else if self.inline {
                CompletionMode::Auto
            } else {
                CompletionMode::Tab
            },
        }
    }

    /// Sets the mode and the `enabled` and `inline` switches that match it.
    pub fn set_mode(&mut self, mode: CompletionMode)
        ensures
            final(self).mode == Some(mode),
            final(self).enabled == (mode != CompletionMode::Off),
            final(self).inline == (mode == CompletionMode::Auto),
            final(self).max_results == old(self).max_results,
            final(self).coalesce_ms == old(self).coalesce_ms,
            final(self).display_delay_ms == old(self).display_delay_ms,
            final(self).ignore_spaces == old(self).ignore_spaces,
            final(self).template_first == old(self).template_first,
            final(self).fuzzy == old(self).fuzzy,
            final(self).tab_accept == old(self).tab_accept,
            final(self).match_threshold_percent == old(self).match_threshold_percent,
            final(self).typo_threshold_percent == old(self).typo_threshold_percent,
    {
        self.mode = Some(mode);
        match mode {
            CompletionMode::Auto => {
                self.enabled = true;
                self.inline = true;
            },
            CompletionMode::Tab => {
                self.enabled = true;
                self.inline = false;
            },
            CompletionMode::Off => {
                self.enabled = false;
                self.inline = false;
            },
        }
    }
}

/// How much of a candidate Tab accepts: all of it, or up to the next word.
#[derive(Debug, Clone, Copy, PartialEq, Eq, Structural)]
pub enum CompletionTabAccept {
    Full,
    Word,
}

impl CompletionTabAccept {
    pub open spec fn name(self) -> Seq<char> {
        match self {
            CompletionTabAccept::Full => "full"@,
            CompletionTabAccept::Word => "word"@,
        }
    }

    pub fn as_str(self) -> (r: &'static str)
        ensures
            r@ == self.name(),
    {
        match self {
            CompletionTabAccept::Full => "full",
            CompletionTabAccept::Word => "word",
        }
    }

    /// The setting a configured value names, surrounding whitespace
    /// ignored: `full`, `word`, or nothing for the default `word`; any
    /// other value is refused (`None`).
    pub fn parse(value: &str) -> (r: Option<Self>)
        ensures
            trim(value@) == "full"@ ==> r == Some(CompletionTabAccept::Full),
            trim(value@) == "word"@ || trim(value@).len() == 0 ==> r == Some(CompletionTabAccept::Word),
            trim(value@) != "full"@ && trim(value@) != "word"@ && trim(value@).len() > 0 ==> r is None,
    {
        let t = trim_chars(str_chars(value).as_slice());
        proof {
            reveal_strlit("full");
            reveal_strlit("word");
        }
        if t.len() == 0 {
            return Some(CompletionTabAccept::Word);
        }
        let full = str_chars("full");
        let word = str_chars("word");
        if chars_eq(t.as_slice(), full.as_slice()) {
            Some(CompletionTabAccept::Full)
        } else if chars_eq(t.as_slice(), word.as_slice()) {
            Some(CompletionTabAccept::Word)
        } else {
            None
        }
    }
}

impl Default for CompletionTabAccept {
    fn default() -> (r: Self)
        ensures
            r == CompletionTabAccept::Word,
    {
        CompletionTabAccept::Word
    }
}

#[derive(Debug, Clone, PartialEq, Eq)]
pub struct AiConfig {
    pub model: String,
    pub base_url: String,
    pub env_key: String,
    pub api_key_override: Option<String>,
}

#[derive(Debug, Clone, Copy, PartialEq, Eq)]
pub struct ContextConfig {
    pub enabled: bool,
    pub confirm: bool,
    pub max_bytes: usize,
}

/// Whether the key is unlocked when the shell starts.
#[derive(Debug, Clone, Copy, PartialEq, Eq, Structural)]
pub enum EncryptionStartupUnlockMode {
    Prompt,
    Off,
}

#[derive(Debug, Clone, PartialEq, Eq)]
pub struct EncryptionConfig {
    pub enabled: bool,
    pub key_fingerprint: String,
    pub startup_unlock: EncryptionStartupUnlockMode,
    /// Older field; new configurations store `key_fingerprint`.
    pub recipient: String,
}

#[derive(Debug, Clone, PartialEq, Eq)]
pub struct SyncConfig {
    pub remote: String,
    pub enabled: bool,
    pub schedule: String,
    pub startup: bool,
    pub exit: bool,
    pub ai: bool,
    pub history: bool,
    pub templates: bool,
    pub drafts: bool,
}

#[derive(Debug, Clone, PartialEq, Eq)]
pub struct TemplateRemoteConfig {
    pub name: String,
    pub remote: String,
}

#[derive(Debug, Clone, PartialEq, Eq)]
pub struct TemplateSharingConfig {
    pub remotes: Vec<TemplateRemoteConfig>,
}

pub open spec fn default_draft_prompt() -> Seq<char> {
    "{user}@{host} {cwd} > "@
}

pub open spec fn default_history_prompt() -> Seq<char> {
    "{user}@{host} {cwd} $ "@
}

pub open spec fn default_ai_prompt() -> Seq<char> {
    "{user}@{host} {cwd} % "@
}

impl Default for ShellConfig {
    fn default() -> (r: Self)
        ensures
            r.backend@ == "auto"@,
    {
        ShellConfig { backend: "auto".to_owned() }
    }
}

impl Default for PromptConfig {
    fn default() -> (r: Self)
        ensures
            r.draft@ == default_draft_prompt(),
            r.history@ == default_history_prompt(),
            r.ai@ == default_ai_prompt(),
    {
        PromptConfig {
            draft: "{user}@{host} {cwd} > ".to_owned(),
            history: "{user}@{host} {cwd} $ ".to_owned(),
            ai: "{user}@{host} {cwd} % ".to_owned(),
        }
    }
}

impl Default for StorageConfig {
    fn default() -> (r: Self)
        ensures
            r.home@.len() == 0,
    {
        StorageConfig { home: String::new() }
    }
}

impl Default for DraftConfig {
    fn default() -> (r: Self)
        ensures
            r.persist,
            !r.sync,
    {
        DraftConfig { persist: true, sync: false }
    }
}

impl Default for EditorConfig {
    fn default() -> (r: Self)
        ensures
            r.command@.len() == 0,
            !r.execute_after_save,
    {
        EditorConfig { command: Vec::new(), execute_after_save: false }
    }
}

impl Default for PasteConfig {
    fn default() -> (r: Self)
        ensures
            r.multiline@ == "editor"@,
            r.confirm_execute,
            r.preview,
            r.preview_lines == 3,
            r.preview_bytes == 240,
    {
        PasteConfig {
            multiline: "editor".to_owned(),
            confirm_execute: true,
            preview: true,
            preview_lines: 3,
            preview_bytes: 240,
        }
    }
}

impl Default for CompletionConfig {
    fn default() -> (r: Self)
        ensures
            r == (CompletionConfig {
                mode: None,
                enabled: true,
                max_results: 5,
                coalesce_ms: 50,
                display_delay_ms: 120,
                ignore_spaces: true,
                template_first: true,
                inline: true,
                fuzzy: true,
                tab_accept: CompletionTabAccept::Word,
                match_threshold_percent: 50,
                typo_threshold_percent: 80,
            }),
    {
        CompletionConfig {
            mode: None,
            enabled: true,
            max_results: 5,
            coalesce_ms: 50,
            display_delay_ms: 120,
            ignore_spaces: true,
            template_first: true,
            inline: true,
            fuzzy: true,
            tab_accept: CompletionTabAccept::Word,
            match_threshold_percent: 50,
            typo_threshold_percent: 80,
        }
    }
}

impl Default for AiConfig {
    fn default() -> (r: Self)
        ensures
            r.model@.len() == 0,
            r.base_url@.len() == 0,
            r.env_key@.len() == 0,
            r.api_key_override is None,
    {
        AiConfig { model: String::new(), base_url: String::new(), env_key: String::new(), api_key_override: None }
    }
}

impl Default for ContextConfig {
    fn default() -> (r: Self)
        ensures
            r == (ContextConfig { enabled: true, confirm: true, max_bytes: 65_536 }),
    {
        ContextConfig { enabled: true, confirm: true, max_bytes: 65_536 }
    }
}

impl Default for EncryptionStartupUnlockMode {
    fn default() -> (r: Self)
        ensures
            r == EncryptionStartupUnlockMode::Off,
    {
        EncryptionStartupUnlockMode::Off
    }
}

impl Default for EncryptionConfig {
    fn default() -> (r: Self)
        ensures
            !r.enabled,
            r.key_fingerprint@.len() == 0,
            r.startup_unlock == EncryptionStartupUnlockMode::Off,
            r.recipient@.len() == 0,
    {
        EncryptionConfig {
            enabled: false,
            key_fingerprint: String::new(),
            startup_unlock: EncryptionStartupUnlockMode::Off,
            recipient: String::new(),
        }
    }
}

impl Default for SyncConfig {
    fn default() -> (r: Self)
        ensures
            r.remote@.len() == 0,
            r.schedule@.len() == 0,
            !r.enabled && !r.startup && !r.exit && !r.ai && !r.history && !r.templates && !r.drafts,
    {
        SyncConfig {
            remote: String::new(),
            enabled: false,
            schedule: String::new(),
            startup: false,
            exit: false,
            ai: false,
            history: false,
            templates: false,
            drafts: false,
        }
    }
}

impl Default for TemplateSharingConfig {
    fn default() -> (r: Self)
        ensures
            r.remotes@.len() == 0,
    {
        TemplateSharingConfig { remotes: Vec::new() }
    }
}

impl Default for Config {
    fn default() -> (r: Self)
        ensures
            r.shell.backend@ == "auto"@,
            r.prompt.draft@ == default_draft_prompt(),
            r.prompt.history@ == default_history_prompt(),
            r.prompt.ai@ == default_ai_prompt(),
            r.storage.home@.len() == 0,
            r.draft == (DraftConfig { persist: true, sync: false }),
            r.editor.command@.len() == 0 && !r.editor.execute_after_save,
            r.paste.multiline@ == "editor"@,
            r.paste.confirm_execute && r.paste.preview,
            r.paste.preview_lines == 3 && r.paste.preview_bytes == 240,
            r.completion.mode is None,
            r.completion.enabled && r.completion.inline && r.completion.fuzzy,
            r.completion.ignore_spaces && r.completion.template_first,
            r.completion.max_results == 5,
            r.completion.coalesce_ms == 50 && r.completion.display_delay_ms == 120,
            r.completion.tab_accept == CompletionTabAccept::Word,
            r.completion.match_threshold_percent == 50 && r.completion.typo_threshold_percent == 80,
            r.ai.model@.len() == 0 && r.ai.base_url@.len() == 0 && r.ai.env_key@.len() == 0,
            r.ai.api_key_override is None,
            r.context == (ContextConfig { enabled: true, confirm: true, max_bytes: 65_536 }),
            !r.encryption.enabled && r.encryption.key_fingerprint@.len() == 0,
            r.encryption.recipient@.len() == 0,
            r.encryption.startup_unlock == EncryptionStartupUnlockMode::Off,
            r.sync.remote@.len() == 0 && r.sync.schedule@.len() == 0,
            !r.sync.enabled && !r.sync.startup && !r.sync.exit && !r.sync.ai,
            !r.sync.history && !r.sync.templates && !r.sync.drafts,
            r.template_sharing.remotes@.len() == 0,
    {
        Config {
            shell: ShellConfig::default(),
            prompt: PromptConfig::default(),
            storage: StorageConfig::default(),
            draft: DraftConfig::default(),
            editor: EditorConfig::default(),
            paste: PasteConfig::default(),
            completion: CompletionConfig::default(),
            ai: AiConfig::default(),
            context: ContextConfig::default(),
            encryption: EncryptionConfig::default(),
            sync: SyncConfig::default(),
            template_sharing: TemplateSharingConfig::default(),
        }
    }
}

} // verus!
